//! Frame transport codec for moving serialized navigation messages over a
//! size-bounded Bluetooth Low Energy link: a chunker that splits a message into
//! checksummed frames, and an assembler that rebuilds it from frames received
//! in any order.

pub mod checksum;
pub mod frame;
pub mod chunker;
pub mod assembler;
pub mod laws;
pub mod domain;
pub mod application;
pub mod persistence;
pub mod schema;
pub mod response;

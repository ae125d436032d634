//! The wire record carried by one link write, its constants and the errors of
//! the codec.

use vstd::prelude::*;
use crate::checksum::crc32_of;

verus! {

/// Frame-format version written into every frame.
pub const PROTOCOL_VERSION: u32 = 1;

/// Marker that every valid frame carries ("NAVE").
pub const FRAME_MAGIC: u32 = 0x4E415645;

/// Typical negotiated link MTU.
pub const DEFAULT_MTU: usize = 247;

/// Bytes of the MTU reserved for the frame's fixed fields.
pub const FRAME_OVERHEAD: usize = 40;

/// Hard per-write limit of the host platform's BLE stack.
pub const BLE_MAX_WRITE_BYTES: usize = 512;

/// Conservative estimate of a serialized frame's non-payload bytes.
pub const BLE_FRAME_SERIALIZED_OVERHEAD: usize = 50;

/// Declares `prost::EncodeError`, carried by `DeviceError::Serialization`.
#[verifier::external_type_specification]
#[verifier::external_body]
pub struct ExEncodeError(prost::EncodeError);

/// Declares `prost::DecodeError`, carried by `DeviceError::Deserialization`.
#[verifier::external_type_specification]
#[verifier::external_body]
pub struct ExDecodeError(prost::DecodeError);

/// Declares `uuid::Uuid`, the 128-bit identifier that correlates the frames
/// of one message.
#[verifier::external_type_specification]
#[verifier::external_body]
pub struct ExUuid(uuid::Uuid);

/// Declares `uuid::Error`, the error of parsing a route id.
#[verifier::external_type_specification]
#[verifier::external_body]
pub struct ExUuidError(uuid::Error);

/// The 128-bit identifier that correlates the frames of one message (a
/// UUID, for instance), as its 16 raw bytes.
#[derive(Clone, Copy, Debug, PartialEq, Eq)]
pub struct RouteId {
    pub bytes: [u8; 16],
}

/// One bounded-size wire record: a slice of a larger serialized message plus
/// what the receiver needs to put it back in place and check it.
#[derive(Clone, Debug, PartialEq)]
pub struct Frame {
    /// Always `FRAME_MAGIC` in a valid frame.
    pub magic: u32,
    /// Wire discriminant of the payload kind, chosen by the producer.
    pub msg_type: u32,
    /// Frame-format version.
    pub protocol_version: u32,
    /// Raw 16 bytes of the identifier shared by the frames of one message.
    pub route_id: Vec<u8>,
    /// Position of this frame's slice in the message, below `total_seqs`.
    pub seq_no: u32,
    /// Number of frames that carry the message.
    pub total_seqs: u32,
    /// Length of `payload`.
    pub payload_len: u32,
    /// Reserved; 0.
    pub flags: u32,
    /// This frame's slice of the serialized message.
    pub payload: Vec<u8>,
    /// Checksum of `payload` alone.
    pub crc32: u32,
}

/// The invariants of a well-formed frame: the protocol marker, a payload
/// length and checksum that match the payload, and a sequence number below
/// the count.
pub open spec fn frame_well_formed(f: Frame) -> bool {
    &&& f.magic == FRAME_MAGIC
    &&& f.payload_len == f.payload@.len()
    &&& f.crc32 == crc32_of(f.payload@)
    &&& f.seq_no < f.total_seqs
}

/// Errors of the codec and of the schema boundary around it.
#[derive(Debug)]
pub enum DeviceError {
    /// A message could not be encoded.
    Serialization(prost::EncodeError),
    /// Bytes could not be decoded as a message.
    Deserialization(prost::DecodeError),
    /// A frame's payload does not match its checksum.
    CrcMismatch { expected: u32, actual: u32 },
    /// A frame was malformed (bad magic, malformed route id) or the frames
    /// held cannot form a message.
    InvalidFrame(String),
    /// The sequence number that an assembly lacks.
    MissingSequence(u32),
    /// A transport deadline passed before an assembly completed.
    Timeout,
}

} // verus!

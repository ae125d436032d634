//! Integrity checksum over byte buffers.

use vstd::prelude::*;

verus! {

/// The CRC-32 (IEEE polynomial) checksum of a byte sequence. It depends on the
/// bytes alone.
pub uninterp spec fn crc32_of(data: Seq<u8>) -> u32;

/// Relies on `crc32fast::hash`: the CRC-32 (IEEE) checksum of `data`, a
/// function of its bytes alone.
#[verifier::external_body]
fn crc32_hash(data: &[u8]) -> (r: u32)
    ensures
        r == crc32_of(data@),
{
    crc32fast::hash(data)
}

/// Computes the 32-bit checksum that guards a frame's payload.
pub fn calculate_crc32(data: &[u8]) -> (r: u32)
    ensures
        r == crc32_of(data@),
{
    crc32_hash(data)
}

} // verus!

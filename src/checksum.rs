//! CRC-32 of byte strings, computed by the crc32fast crate.
use vstd::prelude::*;

verus! {

/// The CRC-32 (IEEE) checksum of a byte string.
pub uninterp spec fn crc32(data: Seq<u8>) -> u32;

/// Relies on crc32fast::hash: the CRC-32 of `data`, a function of the bytes alone.
#[verifier::external_body]
pub(crate) fn crc32_of(data: &[u8]) -> (r: u32)
    ensures
        r == crc32(data@),
{
    crc32fast::hash(data)
}

} // verus!

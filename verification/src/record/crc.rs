//! CRC-32 (IEEE) checksums of record sections.
use vstd::prelude::*;

verus! {

/// The CRC-32 (IEEE 802.3 polynomial) of a byte string, as `crc32fast`
/// computes it.
pub uninterp spec fn crc32(data: Seq<u8>) -> u32;

/// `crc32fast::hash`: the checksum of `data`, a function of the bytes alone.
#[verifier::external_body]
pub(crate) fn crc32_of(data: &[u8]) -> (c: u32)
    ensures
        c == crc32(data@),
{
    crc32fast::hash(data)
}

} // verus!

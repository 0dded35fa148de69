//! The content fingerprint used throughout the archive: CRC-32C (Castagnoli).
//!
//! Partition ids, source directory paths and decoded pixel buffers are all
//! fingerprinted with the same algorithm; its value is treated as an opaque
//! function of the input bytes.
use vstd::prelude::*;

verus! {

pub uninterp spec fn crc32c_of(bytes: Seq<u8>) -> u32;

/// The CRC-32C checksum of `bytes`.
///
/// Relies on `crc::Crc::<u32>::checksum` with the `CRC_32_ISCSI` parameter
/// set (Castagnoli polynomial `0x1EDC6F41`, init and xorout `0xFFFFFFFF`,
/// reflected): the checksum depends on the input bytes alone.
#[verifier::external_body]
pub fn crc32c(bytes: &[u8]) -> (r: u32)
    ensures
        r == crc32c_of(bytes@),
{
    crc::Crc::<u32>::new(&crc::CRC_32_ISCSI).checksum(bytes)
}

} // verus!

use crc::{Crc, CRC_32_ISO_HDLC};
use vstd::prelude::*;

verus! {

/// The CRC-32/ISO-HDLC checksum of a byte sequence (the CRC of PNG, zlib and gzip).
pub uninterp spec fn crc32_of(bytes: Seq<u8>) -> u32;

/// Relies on crc's `Crc::<u32>::checksum` with the `CRC_32_ISO_HDLC` algorithm:
/// the checksum is a function of the bytes alone.
#[verifier::external_body]
pub(crate) fn crc32(bytes: &[u8]) -> (r: u32)
    ensures
        r == crc32_of(bytes@),
{
    Crc::<u32>::new(&CRC_32_ISO_HDLC).checksum(bytes)
}

} // verus!

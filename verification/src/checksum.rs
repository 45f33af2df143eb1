//! The checksum that guards every chunk: CRC-32/ISO-HDLC (polynomial
//! 0xEDB88320 in reflected form, the same CRC-32 that zlib and gzip use),
//! computed over the 4 type bytes followed by the payload bytes.

use vstd::prelude::*;

verus! {

/// The CRC-32/ISO-HDLC checksum of a byte sequence.
pub uninterp spec fn crc32_of(data: Seq<u8>) -> u32;

/// Relies on crc's `Crc::<u32>::checksum` with the `CRC_32_ISO_HDLC`
/// algorithm: the result is a pure function of the input bytes alone.
#[verifier::external_body]
pub(crate) fn crc32(data: &[u8]) -> (r: u32)
    ensures
        r == crc32_of(data@),
{
    crc::Crc::<u32>::new(&crc::CRC_32_ISO_HDLC).checksum(data)
}

} // verus!

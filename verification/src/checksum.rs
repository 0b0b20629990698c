use vstd::prelude::*;

verus! {

/// The CRC-32 checksum (ISO-HDLC polynomial) of a byte sequence, as the `crc`
/// crate computes it. The value depends on the input bytes alone; nothing in
/// this crate states what it is on given bytes.
pub uninterp spec fn crc32_of(bytes: Seq<u8>) -> u32;

/// Relies on `crc::Crc::<u32>::checksum` with the `CRC_32_ISO_HDLC` algorithm:
/// a pure, table-driven function of the input bytes alone.
#[verifier::external_body]
pub(crate) fn crc32(bytes: &[u8]) -> (r: u32)
    ensures
        r == crc32_of(bytes@),
{
    crc::Crc::<u32>::new(&crc::CRC_32_ISO_HDLC).checksum(bytes)
}

} // verus!

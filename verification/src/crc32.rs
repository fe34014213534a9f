use vstd::prelude::*;

verus! {

/// The CRC-32/ISO-HDLC (IEEE) checksum of a byte sequence, the variant PNG
/// chunks carry. Its value is fixed by the bytes alone; what it is on given
/// bytes the library never states, it only compares.
pub uninterp spec fn crc32_of(bytes: Seq<u8>) -> u32;

/// Relies on crc::Crc::<u32>::checksum with the CRC_32_ISO_HDLC algorithm
/// from the crc catalog: a pure function of the input bytes.
#[verifier::external_body]
pub(crate) fn crc32(bytes: &[u8]) -> (r: u32)
    ensures
        r == crc32_of(bytes@),
{
    crc::Crc::<u32>::new(&crc::CRC_32_ISO_HDLC).checksum(bytes)
}

} // verus!

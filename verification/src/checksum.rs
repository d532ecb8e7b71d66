use vstd::prelude::*;
use crc::{Crc, CRC_32_ISO_HDLC};

verus! {

/// The CRC-32/ISO-HDLC checksum of `bytes`, the one that zlib and PNG use.
pub uninterp spec fn crc32(bytes: Seq<u8>) -> u32;

/// Calls `crc::Crc::<u32>::checksum`, on an instance made by
/// `crc::Crc::<u32>::new` for `CRC_32_ISO_HDLC`. The result depends on the
/// bytes alone; the contract gives it its name and says nothing else of it.
#[verifier::external_body]
pub(crate) fn checksum(bytes: &[u8]) -> (r: u32)
    ensures
        r == crc32(bytes@),
{
    Crc::<u32>::new(&CRC_32_ISO_HDLC).checksum(bytes)
}

} // verus!

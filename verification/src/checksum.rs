//! The CRC-32 checksum that guards every chunk.

use crc::{Crc, CRC_32_ISO_HDLC};
use vstd::prelude::*;

verus! {

/// The CRC-32/ISO-HDLC checksum of `bytes`, as the `crc` crate computes it.
pub uninterp spec fn crc32_iso_hdlc(bytes: Seq<u8>) -> u32;

/// `Crc::<u32>::new(&CRC_32_ISO_HDLC).checksum(bytes)` of the `crc` crate.
///
/// Trusted: the checksum depends on the bytes alone, so that the same bytes
/// always give the same value, named [`crc32_iso_hdlc`]. Nothing else is
/// claimed of it.
#[verifier::external_body]
pub(crate) fn checksum(bytes: &[u8]) -> (r: u32)
    ensures
        r == crc32_iso_hdlc(bytes@),
{
    Crc::<u32>::new(&CRC_32_ISO_HDLC).checksum(bytes)
}

} // verus!

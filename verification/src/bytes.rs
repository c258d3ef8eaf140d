//! Little-endian integer fields of the archive and picture formats.

use vstd::prelude::*;

verus! {

/// The unsigned 16-bit little-endian value stored at `off`.
pub open spec fn le16_at(d: Seq<u8>, off: int) -> u16 {
    (d[off] + 256 * d[off + 1]) as u16
}

/// The unsigned 32-bit little-endian value stored at `off`.
pub open spec fn le32_at(d: Seq<u8>, off: int) -> u32 {
    (d[off] + 256 * d[off + 1] + 65536 * d[off + 2] + 16777216 * d[off + 3]) as u32
}

/// Reads the unsigned 16-bit little-endian value stored at `off`.
pub fn read_le16(d: &[u8], off: usize) -> (r: u16)
    requires
        off + 2 <= d@.len(),
    ensures
        r == le16_at(d@, off as int),
{
    let lo = d[off];
    let hi = d[off + 1];
    (lo as u16) + 256 * (hi as u16)
}

/// Reads the unsigned 32-bit little-endian value stored at `off`.
pub fn read_le32(d: &[u8], off: usize) -> (r: u32)
    requires
        off + 4 <= d@.len(),
    ensures
        r == le32_at(d@, off as int),
{
    let b0 = d[off];
    let b1 = d[off + 1];
    let b2 = d[off + 2];
    let b3 = d[off + 3];
    (b0 as u32) + 256 * (b1 as u32) + 65536 * (b2 as u32) + 16777216 * (b3 as u32)
}

} // verus!

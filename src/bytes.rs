//! Little-endian integers read out of byte buffers.

use vstd::prelude::*;

verus! {

/// The little-endian 16-bit value of the two bytes at `at`.
pub open spec fn le16(b: Seq<u8>, at: int) -> int {
    b[at] + 256 * b[at + 1]
}

/// The little-endian 32-bit value of the four bytes at `at`.
pub open spec fn le32(b: Seq<u8>, at: int) -> int {
    le16(b, at) + 65536 * le16(b, at + 2)
}

/// Reads the little-endian `u16` at `at`.
pub fn read_u16_le(b: &[u8], at: usize) -> (r: u16)
    requires
        at + 2 <= b.len(),
    ensures
        r == le16(b@, at as int),
{
    b[at] as u16 + (b[at + 1] as u16) * 256
}

/// Reads the little-endian `u32` at `at`.
pub fn read_u32_le(b: &[u8], at: usize) -> (r: u32)
    requires
        at + 4 <= b.len(),
    ensures
        r == le32(b@, at as int),
{
    read_u16_le(b, at) as u32 + (read_u16_le(b, at + 2) as u32) * 65536
}

} // verus!

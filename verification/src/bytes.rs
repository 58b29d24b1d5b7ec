//! Little-endian integer fields of on-disk structures.

use vstd::prelude::*;

verus! {

/// The 16-bit little-endian integer stored at `off` in `s`.
pub open spec fn le16(s: Seq<u8>, off: int) -> int {
    s[off] + 0x100 * s[off + 1]
}

/// The 32-bit little-endian integer stored at `off` in `s`.
pub open spec fn le32(s: Seq<u8>, off: int) -> int {
    le16(s, off) + 0x1_0000 * le16(s, off + 2)
}

/// The two bytes at `off`, least significant first.
pub fn read_le_u16(b: &[u8], off: usize) -> (r: u16)
    requires
        off + 2 <= b@.len(),
    ensures
        r as int == le16(b@, off as int),
{
    let lo = b[off];
    let hi = b[off + 1];
    lo as u16 + 0x100 * hi as u16
}

/// The 64-bit little-endian integer stored at `off` in `s`.
pub open spec fn le64(s: Seq<u8>, off: int) -> int {
    le32(s, off) + 0x1_0000_0000 * le32(s, off + 4)
}

/// The four bytes at `off`, least significant first.
pub fn read_le_u32(b: &[u8], off: usize) -> (r: u32)
    requires
        off + 4 <= b@.len(),
    ensures
        r as int == le32(b@, off as int),
{
    let n = b.len();
    let lo = read_le_u16(b, off);
    let hi = read_le_u16(b, off + 2);
    lo as u32 + 0x1_0000 * hi as u32
}

/// The eight bytes at `off`, least significant first.
pub fn read_le_u64(b: &[u8], off: usize) -> (r: u64)
    requires
        off + 8 <= b@.len(),
    ensures
        r as int == le64(b@, off as int),
{
    let n = b.len();
    let lo = read_le_u32(b, off);
    let hi = read_le_u32(b, off + 4);
    lo as u64 + 0x1_0000_0000 * hi as u64
}

} // verus!

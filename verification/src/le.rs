use vstd::prelude::*;

verus! {

/// The 16-bit little-endian value at `off`.
pub open spec fn spec_le16(s: Seq<u8>, off: int) -> int {
    s[off] + 256 * s[off + 1]
}

/// The 32-bit little-endian value at `off`.
pub open spec fn spec_le32(s: Seq<u8>, off: int) -> int {
    s[off] + 256 * (s[off + 1] + 256 * (s[off + 2] + 256 * s[off + 3]))
}

/// The 64-bit little-endian value at `off`.
pub open spec fn spec_le64(s: Seq<u8>, off: int) -> int {
    spec_le32(s, off) + 0x100000000 * spec_le32(s, off + 4)
}

/// Read the 16-bit little-endian value at `off`.
pub fn read_le16(buf: &[u8], off: usize) -> (v: u16)
    requires
        off + 2 <= buf@.len(),
    ensures
        v == spec_le16(buf@, off as int),
{
    (buf[off] as u16) + 256 * (buf[off + 1] as u16)
}

/// Read the 32-bit little-endian value at `off`.
pub fn read_le32(buf: &[u8], off: usize) -> (v: u32)
    requires
        off + 4 <= buf@.len(),
    ensures
        v == spec_le32(buf@, off as int),
{
    (buf[off] as u32) + 256 * ((buf[off + 1] as u32) + 256 * ((buf[off + 2] as u32) + 256 * (
    buf[off + 3] as u32)))
}

/// Read the 64-bit little-endian value at `off`.
pub fn read_le64(buf: &[u8], off: usize) -> (v: u64)
    requires
        off + 8 <= buf@.len(),
    ensures
        v == spec_le64(buf@, off as int),
{
    let n: usize = buf.len();
    (read_le32(buf, off) as u64) + 0x100000000u64 * (read_le32(buf, off + 4) as u64)
}

} // verus!

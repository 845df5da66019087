//! Little-endian readers over byte buffers.
use vstd::prelude::*;

verus! {

/// The unsigned 16-bit little-endian value stored at `at`.
pub open spec fn le_u16(b: Seq<u8>, at: int) -> int {
    b[at] as int + b[at + 1] as int * 0x100
}

/// The unsigned 32-bit little-endian value stored at `at`.
pub open spec fn le_u32(b: Seq<u8>, at: int) -> int {
    le_u16(b, at) + le_u16(b, at + 2) * 0x1_0000
}

/// The unsigned 64-bit little-endian value stored at `at`.
pub open spec fn le_u64(b: Seq<u8>, at: int) -> int {
    le_u32(b, at) + le_u32(b, at + 4) * 0x1_0000_0000
}

/// Whether `len` bytes starting at `at` lie inside `b`.
pub open spec fn fits(b: Seq<u8>, at: int, len: int) -> bool {
    0 <= at && 0 <= len && at + len <= b.len()
}

pub fn read_u8(b: &[u8], at: usize) -> (r: u8)
    requires
        at < b@.len(),
    ensures
        r == b@[at as int],
{
    b[at]
}

pub fn read_u16(b: &[u8], at: usize) -> (r: u16)
    requires
        fits(b@, at as int, 2),
    ensures
        r as int == le_u16(b@, at as int),
{
    b[at] as u16 + b[at + 1] as u16 * 0x100
}

pub fn read_u32(b: &[u8], at: usize) -> (r: u32)
    requires
        fits(b@, at as int, 4),
    ensures
        r as int == le_u32(b@, at as int),
{
    let n: usize = b.len();
    assert(at + 4 <= n);
    let lo = read_u16(b, at);
    let hi = read_u16(b, at + 2);
    lo as u32 + hi as u32 * 0x1_0000
}

pub fn read_u64(b: &[u8], at: usize) -> (r: u64)
    requires
        fits(b@, at as int, 8),
    ensures
        r as int == le_u64(b@, at as int),
{
    let n: usize = b.len();
    assert(at + 8 <= n);
    let lo = read_u32(b, at);
    let hi = read_u32(b, at + 4);
    lo as u64 + hi as u64 * 0x1_0000_0000
}

/// A copy of `len` bytes of `b` starting at `at`.
pub fn copy_range(b: &[u8], at: usize, len: usize) -> (r: Vec<u8>)
    requires
        fits(b@, at as int, len as int),
    ensures
        r@ == b@.subrange(at as int, at + len),
{
    let mut r: Vec<u8> = Vec::with_capacity(len);
    let n: usize = b.len();
    let mut i: usize = 0;
    while i < len
        invariant
            i <= len,
            n == b@.len(),
            fits(b@, at as int, len as int),
            r@ == b@.subrange(at as int, at + i),
        decreases len - i,
    {
        r.push(b[at + i]);
        i += 1;
        assert(r@ =~= b@.subrange(at as int, at + i));
    }
    r
}

} // verus!

//! Fixed-width integers read from and written to byte buffers.
use vstd::prelude::*;

verus! {

/// Big-endian 32-bit value of `s[i..i + 4]`.
pub open spec fn be_u32(s: Seq<u8>, i: int) -> u32 {
    (s[i] as int * 0x100_0000 + s[i + 1] as int * 0x1_0000 + s[i + 2] as int * 0x100 + s[i
        + 3] as int) as u32
}

/// Big-endian 64-bit value of `s[i..i + 8]`.
pub open spec fn be_u64(s: Seq<u8>, i: int) -> u64 {
    (be_u32(s, i) as int * 0x1_0000_0000 + be_u32(s, i + 4) as int) as u64
}

/// Little-endian 32-bit value of `s[i..i + 4]`.
pub open spec fn le_u32(s: Seq<u8>, i: int) -> u32 {
    (s[i + 3] as int * 0x100_0000 + s[i + 2] as int * 0x1_0000 + s[i + 1] as int * 0x100
        + s[i] as int) as u32
}

/// `s` with `s[i..i + 4]` replaced by the big-endian bytes of `v`.
pub open spec fn put_be_u32(s: Seq<u8>, i: int, v: u32) -> Seq<u8> {
    s.update(i, (v / 0x100_0000) as u8).update(i + 1, ((v / 0x1_0000) % 0x100) as u8).update(
        i + 2,
        ((v / 0x100) % 0x100) as u8,
    ).update(i + 3, (v % 0x100) as u8)
}

/// `s` with `s[i..i + 8]` replaced by the big-endian bytes of `v`.
pub open spec fn put_be_u64(s: Seq<u8>, i: int, v: u64) -> Seq<u8> {
    put_be_u32(put_be_u32(s, i, (v / 0x1_0000_0000) as u32), i + 4, (v % 0x1_0000_0000) as u32)
}

/// Whether `s[i..i + 4]` holds the four bytes of `k`.
pub open spec fn tag_at(s: Seq<u8>, i: int, k: Seq<u8>) -> bool {
    0 <= i && i + 4 <= s.len() && s.subrange(i, i + 4) == k
}

pub fn read_be_u32(data: &[u8], i: usize) -> (r: u32)
    requires
        i + 4 <= data@.len(),
    ensures
        r == be_u32(data@, i as int),
{
    (data[i] as u32) * 0x100_0000 + (data[i + 1] as u32) * 0x1_0000 + (data[i + 2] as u32) * 0x100
        + data[i + 3] as u32
}

pub fn read_be_u64(data: &[u8], i: usize) -> (r: u64)
    requires
        i + 8 <= data@.len(),
    ensures
        r == be_u64(data@, i as int),
{
    let _n = data.len();
    let hi = read_be_u32(data, i) as u64;
    let lo = read_be_u32(data, i + 4) as u64;
    hi * 0x1_0000_0000 + lo
}

pub fn read_le_u32(data: &[u8], i: usize) -> (r: u32)
    requires
        i + 4 <= data@.len(),
    ensures
        r == le_u32(data@, i as int),
{
    let _n = data.len();
    (data[i + 3] as u32) * 0x100_0000 + (data[i + 2] as u32) * 0x1_0000 + (data[i + 1] as u32)
        * 0x100 + data[i] as u32
}

pub fn write_be_u32(data: &mut Vec<u8>, i: usize, v: u32)
    requires
        i + 4 <= old(data)@.len(),
    ensures
        final(data)@ == put_be_u32(old(data)@, i as int, v),
{
    let _n = data.len();
    data.set(i, (v / 0x100_0000) as u8);
    data.set(i + 1, ((v / 0x1_0000) % 0x100) as u8);
    data.set(i + 2, ((v / 0x100) % 0x100) as u8);
    data.set(i + 3, (v % 0x100) as u8);
}

pub fn write_be_u64(data: &mut Vec<u8>, i: usize, v: u64)
    requires
        i + 8 <= old(data)@.len(),
    ensures
        final(data)@ == put_be_u64(old(data)@, i as int, v),
{
    let _n = data.len();
    write_be_u32(data, i, (v / 0x1_0000_0000) as u32);
    write_be_u32(data, i + 4, (v % 0x1_0000_0000) as u32);
}

/// Whether `data[i..i + 4]` holds the bytes of `k`.
pub fn has_tag_at(data: &[u8], i: usize, k: [u8; 4]) -> (r: bool)
    ensures
        r == tag_at(data@, i as int, k@),
{
    if i > data.len() || data.len() - i < 4 {
        return false;
    }
    let r = data[i] == k[0] && data[i + 1] == k[1] && data[i + 2] == k[2] && data[i + 3] == k[3];
    proof {
        if r {
            assert(data@.subrange(i as int, i + 4) =~= k@);
        } else {
            assert(k@.len() == 4);
            if data@.subrange(i as int, i + 4) == k@ {
                assert(data@.subrange(i as int, i + 4)[0] == k@[0]);
                assert(data@.subrange(i as int, i + 4)[1] == k@[1]);
                assert(data@.subrange(i as int, i + 4)[2] == k@[2]);
                assert(data@.subrange(i as int, i + 4)[3] == k@[3]);
            }
        }
    }
    r
}

} // verus!

//! Shifting the chunk offsets of a `moov` atom, so that it can be moved ahead of the media
//! data it points into.
use vstd::prelude::*;
use crate::bytes::{be_u32, be_u64, put_be_u32, put_be_u64, read_be_u32, read_be_u64, write_be_u32, write_be_u64};
use crate::mp4_atoms::container_kinds;
use crate::mp4_atoms::is_mp4_container_atom;

verus! {

/// Why shifting the chunk offsets failed.
#[derive(Clone, Copy, Debug)]
pub enum PatchError {
    /// A 64-bit atom size does not fit in `usize`.
    AtomTooLarge,
    /// An `stco` entry plus the shift does not fit in `i64`.
    StcoOverflow,
    /// A shifted `stco` entry does not fit in 32 bits.
    StcoOutOfRange,
    /// A shifted `co64` entry does not fit in 64 bits.
    Co64OutOfRange,
}

pub open spec fn patch_message(e: PatchError) -> Seq<char> {
    match e {
        PatchError::AtomTooLarge => "MP4 atom 过大，无法处理快启动"@,
        PatchError::StcoOverflow => "MP4 stco 偏移量溢出"@,
        PatchError::StcoOutOfRange => "MP4 stco 偏移量超出 32 位范围"@,
        PatchError::Co64OutOfRange => "MP4 co64 偏移量超出 64 位范围"@,
    }
}

pub open spec fn KIND_STCO() -> u32 {
    0x7374_636f
}

pub open spec fn KIND_CO64() -> u32 {
    0x636f_3634
}

/// Shifting `remaining` 32-bit entries from `pos` on, stopping at `end`: the bytes after, and
/// the error that stopped it, if any.
pub open spec fn stco_shift(d: Seq<u8>, pos: int, end: int, remaining: nat, delta: int) -> (
    Seq<u8>,
    Option<PatchError>,
)
    decreases remaining,
{
    if remaining == 0 || pos + 4 > end {
        (d, None)
    } else {
        let updated = be_u32(d, pos) + delta;
        if updated > i64::MAX {
            (d, Some(PatchError::StcoOverflow))
        } else if updated < 0 || updated > u32::MAX {
            (d, Some(PatchError::StcoOutOfRange))
        } else {
            stco_shift(put_be_u32(d, pos, updated as u32), pos + 4, end, (remaining - 1) as nat, delta)
        }
    }
}

/// Shifting `remaining` 64-bit entries from `pos` on, stopping at `end`.
pub open spec fn co64_shift(d: Seq<u8>, pos: int, end: int, remaining: nat, delta: int) -> (
    Seq<u8>,
    Option<PatchError>,
)
    decreases remaining,
{
    if remaining == 0 || pos + 8 > end {
        (d, None)
    } else {
        let updated = be_u64(d, pos) + delta;
        if updated < 0 || updated > u64::MAX {
            (d, Some(PatchError::Co64OutOfRange))
        } else {
            co64_shift(put_be_u64(d, pos, updated as u64), pos + 8, end, (remaining - 1) as nat, delta)
        }
    }
}

/// Shifting the entry table of the `stco` atom whose content is `d[start..end]`.
pub open spec fn stco_patch(d: Seq<u8>, start: int, end: int, delta: int) -> (Seq<u8>, Option<PatchError>) {
    if start + 8 > end {
        (d, None)
    } else {
        stco_shift(d, start + 8, end, be_u32(d, start + 4) as nat, delta)
    }
}

/// Shifting the entry table of the `co64` atom whose content is `d[start..end]`.
pub open spec fn co64_patch(d: Seq<u8>, start: int, end: int, delta: int) -> (Seq<u8>, Option<PatchError>) {
    if start + 8 > end {
        (d, None)
    } else {
        co64_shift(d, start + 8, end, be_u32(d, start + 4) as nat, delta)
    }
}

/// Walking the atoms of `d[cursor..end]`, shifting every `stco` and `co64` entry by `delta`
/// and descending into container atoms: the bytes after, and the error that stopped the walk,
/// if any. A malformed header ends the walk of its level without error.
pub open spec fn offsets_patch(d: Seq<u8>, cursor: int, end: int, delta: int) -> (
    Seq<u8>,
    Option<PatchError>,
)
    decreases end - cursor,
{
    if cursor < 0 || cursor + 8 > end {
        (d, None)
    } else {
        let size32 = be_u32(d, cursor);
        let kind = be_u32(d, cursor + 4);
        if size32 == 1 && cursor + 16 > end {
            (d, None)
        } else if size32 == 1 && be_u64(d, cursor + 8) > usize::MAX {
            (d, Some(PatchError::AtomTooLarge))
        } else {
            let header: int = if size32 == 1 { 16 } else { 8 };
            let size: int = if size32 == 1 {
                be_u64(d, cursor + 8) as int
            } else if size32 == 0 {
                end - cursor
            } else {
                size32 as int
            };
            if size < header || cursor + size > end {
                (d, None)
            } else {
                let cs = cursor + header;
                let ce = cursor + size;
                let inner = if kind == KIND_STCO() {
                    stco_patch(d, cs, ce, delta)
                } else if kind == KIND_CO64() {
                    co64_patch(d, cs, ce, delta)
                } else if container_kinds().contains(kind) {
                    offsets_patch(d, cs, ce, delta)
                } else {
                    (d, None)
                };
                if inner.1 is Some {
                    inner
                } else {
                    offsets_patch(inner.0, ce, end, delta)
                }
            }
        }
    }
}

pub proof fn lemma_stco_shift_len(d: Seq<u8>, pos: int, end: int, remaining: nat, delta: int)
    requires
        0 <= pos,
        end <= d.len(),
    ensures
        stco_shift(d, pos, end, remaining, delta).0.len() == d.len(),
    decreases remaining,
{
    if remaining == 0 || pos + 4 > end {
    } else {
        let updated = be_u32(d, pos) + delta;
        if updated > i64::MAX || updated < 0 || updated > u32::MAX {
        } else {
            lemma_stco_shift_len(put_be_u32(d, pos, updated as u32), pos + 4, end, (remaining - 1) as nat, delta);
        }
    }
}

pub proof fn lemma_co64_shift_len(d: Seq<u8>, pos: int, end: int, remaining: nat, delta: int)
    requires
        0 <= pos,
        end <= d.len(),
    ensures
        co64_shift(d, pos, end, remaining, delta).0.len() == d.len(),
    decreases remaining,
{
    if remaining == 0 || pos + 8 > end {
    } else {
        let updated = be_u64(d, pos) + delta;
        if updated < 0 || updated > u64::MAX {
        } else {
            lemma_co64_shift_len(put_be_u64(d, pos, updated as u64), pos + 8, end, (remaining - 1) as nat, delta);
        }
    }
}

/// Shifting leaves the length of the buffer as it was.
pub proof fn lemma_offsets_patch_len(d: Seq<u8>, cursor: int, end: int, delta: int)
    requires
        end <= d.len(),
    ensures
        offsets_patch(d, cursor, end, delta).0.len() == d.len(),
    decreases end - cursor,
{
    if cursor < 0 || cursor + 8 > end {
    } else {
        let size32 = be_u32(d, cursor);
        let kind = be_u32(d, cursor + 4);
        if size32 == 1 && cursor + 16 > end {
        } else if size32 == 1 && be_u64(d, cursor + 8) > usize::MAX {
        } else {
            let header: int = if size32 == 1 { 16 } else { 8 };
            let size: int = if size32 == 1 {
                be_u64(d, cursor + 8) as int
            } else if size32 == 0 {
                end - cursor
            } else {
                size32 as int
            };
            if size < header || cursor + size > end {
            } else {
                let cs = cursor + header;
                let ce = cursor + size;
                if kind == KIND_STCO() {
                    if cs + 8 <= ce {
                        lemma_stco_shift_len(d, cs + 8, ce, be_u32(d, cs + 4) as nat, delta);
                    }
                } else if kind == KIND_CO64() {
                    if cs + 8 <= ce {
                        lemma_co64_shift_len(d, cs + 8, ce, be_u32(d, cs + 4) as nat, delta);
                    }
                } else if container_kinds().contains(kind) {
                    lemma_offsets_patch_len(d, cs, ce, delta);
                }
                let inner = if kind == KIND_STCO() {
                    stco_patch(d, cs, ce, delta)
                } else if kind == KIND_CO64() {
                    co64_patch(d, cs, ce, delta)
                } else if container_kinds().contains(kind) {
                    offsets_patch(d, cs, ce, delta)
                } else {
                    (d, None)
                };
                if inner.1 is None {
                    lemma_offsets_patch_len(inner.0, ce, end, delta);
                }
            }
        }
    }
}


proof fn lemma_put_be_u32(s: Seq<u8>, i: int, v: u32)
    requires
        0 <= i,
        i + 4 <= s.len(),
    ensures
        put_be_u32(s, i, v).len() == s.len(),
        be_u32(put_be_u32(s, i, v), i) == v,
        forall|j: int| 0 <= j < s.len() && (j < i || j >= i + 4) ==> #[trigger] put_be_u32(s, i, v)[j] == s[j],
{
    let t = put_be_u32(s, i, v);
    let b0 = (v / 0x100_0000) as u8;
    let b1 = ((v / 0x1_0000) % 0x100) as u8;
    let b2 = ((v / 0x100) % 0x100) as u8;
    let b3 = (v % 0x100) as u8;
    assert(t[i] == b0 && t[i + 1] == b1 && t[i + 2] == b2 && t[i + 3] == b3);
    let c0: int = v as int / 0x100_0000;
    let c1: int = (v as int / 0x1_0000) % 0x100;
    let c2: int = (v as int / 0x100) % 0x100;
    let c3: int = v as int % 0x100;
    assert(0 <= c0 < 0x100 && 0 <= c1 < 0x100 && 0 <= c2 < 0x100 && 0 <= c3 < 0x100);
    assert(b0 as int == c0 && b1 as int == c1 && b2 as int == c2 && b3 as int == c3);
    assert(c0 * 0x100_0000 + c1 * 0x1_0000 + c2 * 0x100 + c3 == v as int);
}

/// Where `stco_shift` succeeds, every entry it reaches reads back as its old value plus
/// `delta`, and every byte outside `pos..end` is as it was.
proof fn lemma_stco_shift_reads(d: Seq<u8>, pos: int, end: int, remaining: nat, delta: int)
    requires
        0 <= pos,
        end <= d.len(),
        stco_shift(d, pos, end, remaining, delta).1 is None,
    ensures
        stco_shift(d, pos, end, remaining, delta).0.len() == d.len(),
        forall|k: int| 0 <= k < remaining && pos + 4 * k + 4 <= end ==> #[trigger] be_u32(stco_shift(d, pos, end, remaining, delta).0, pos + 4 * k) == be_u32(d, pos + 4 * k) + delta,
        forall|j: int| 0 <= j < d.len() && (j < pos || j >= end) ==> #[trigger] stco_shift(d, pos, end, remaining, delta).0[j] == d[j],
    decreases remaining,
{
    if remaining == 0 || pos + 4 > end {
    } else {
        let updated = be_u32(d, pos) + delta;
        let e = put_be_u32(d, pos, updated as u32);
        lemma_put_be_u32(d, pos, updated as u32);
        lemma_stco_shift_reads(e, pos + 4, end, (remaining - 1) as nat, delta);
        let r = stco_shift(e, pos + 4, end, (remaining - 1) as nat, delta).0;
        assert(r == stco_shift(d, pos, end, remaining, delta).0);
        assert forall|k: int| 0 <= k < remaining && pos + 4 * k + 4 <= end implies #[trigger] be_u32(r, pos + 4 * k) == be_u32(d, pos + 4 * k) + delta by {
            if k == 0 {
                assert(r[pos] == e[pos] && r[pos + 1] == e[pos + 1] && r[pos + 2] == e[pos + 2] && r[pos + 3] == e[pos + 3]);
                assert(be_u32(r, pos) == be_u32(e, pos));
            } else {
                let k1 = k - 1;
                assert(pos + 4 + 4 * k1 == pos + 4 * k);
                assert(be_u32(r, (pos + 4) + 4 * k1) == be_u32(e, (pos + 4) + 4 * k1) + delta);
                let q = pos + 4 * k;
                assert(e[q] == d[q] && e[q + 1] == d[q + 1] && e[q + 2] == d[q + 2] && e[q + 3] == d[q + 3]);
                assert(be_u32(e, q) == be_u32(d, q));
            }
        }
        assert forall|j: int| 0 <= j < d.len() && (j < pos || j >= end) implies #[trigger] r[j] == d[j] by {
            assert(r[j] == e[j]);
        }
    }
}

/// Shifting an `stco` table by `delta` moves every chunk offset it lists (as far as the atom
/// holds them) by `delta` and leaves every byte outside the table as it was: an offset read
/// back after a successful shift is the old one plus `delta`.
pub proof fn lemma_stco_patch_reads(d: Seq<u8>, start: int, end: int, delta: int)
    requires
        0 <= start,
        end <= d.len(),
        stco_patch(d, start, end, delta).1 is None,
    ensures
        stco_patch(d, start, end, delta).0.len() == d.len(),
        start + 8 <= end ==> forall|k: int| 0 <= k < be_u32(d, start + 4) && start + 8 + 4 * k + 4 <= end
            ==> #[trigger] be_u32(stco_patch(d, start, end, delta).0, start + 8 + 4 * k) == be_u32(d, start + 8 + 4 * k) + delta,
        forall|j: int| 0 <= j < d.len() && (j < start + 8 || j >= end) ==> #[trigger] stco_patch(d, start, end, delta).0[j] == d[j],
{
    if start + 8 <= end {
        lemma_stco_shift_reads(d, start + 8, end, be_u32(d, start + 4) as nat, delta);
    }
}

fn error_text(e: PatchError) -> (r: String)
    ensures
        r@ == patch_message(e),
{
    match e {
        PatchError::AtomTooLarge => String::from_str("MP4 atom 过大，无法处理快启动"),
        PatchError::StcoOverflow => String::from_str("MP4 stco 偏移量溢出"),
        PatchError::StcoOutOfRange => String::from_str("MP4 stco 偏移量超出 32 位范围"),
        PatchError::Co64OutOfRange => String::from_str("MP4 co64 偏移量超出 64 位范围"),
    }
}

/// Adds `delta` to each 32-bit chunk offset of the `stco` atom whose content is
/// `data[content_start..content_end]`.
pub fn patch_stco_offsets(data: &mut Vec<u8>, content_start: usize, content_end: usize, delta: i64) -> (r: Result<(), String>)
    requires
        content_end <= old(data)@.len(),
    ensures
        final(data)@ == stco_patch(old(data)@, content_start as int, content_end as int, delta as int).0,
        match stco_patch(old(data)@, content_start as int, content_end as int, delta as int).1 {
            None => r is Ok,
            Some(e) => r matches Err(m) && m@ == patch_message(e),
        },
{
    if content_end < 8 || content_start > content_end - 8 {
        return Ok(());
    }
    let count = read_be_u32(data.as_slice(), content_start + 4);
    let mut pos = content_start + 8;
    let mut index: u32 = 0;
    let ghost total = stco_patch(old(data)@, content_start as int, content_end as int, delta as int);
    while index < count
        invariant
            content_end <= data@.len(),
            data@.len() == old(data)@.len(),
            index <= count,
            total == stco_patch(old(data)@, content_start as int, content_end as int, delta as int),
            total == stco_shift(data@, pos as int, content_end as int, (count - index) as nat, delta as int),
        decreases count - index,
    {
        if pos > content_end || content_end - pos < 4 {
            return Ok(());
        }
        let current = read_be_u32(data.as_slice(), pos) as i64;
        let updated = match current.checked_add(delta) {
            Some(v) => v,
            None => {
                assert(be_u32(data@, pos as int) + delta > i64::MAX);
                return Err(error_text(PatchError::StcoOverflow));
            },
        };
        if updated < 0 || updated > 0xffff_ffff {
            return Err(error_text(PatchError::StcoOutOfRange));
        }
        write_be_u32(data, pos, updated as u32);
        pos = pos + 4;
        index = index + 1;
    }
    Ok(())
}

/// Adds `delta` to each 64-bit chunk offset of the `co64` atom whose content is
/// `data[content_start..content_end]`.
pub fn patch_co64_offsets(data: &mut Vec<u8>, content_start: usize, content_end: usize, delta: i64) -> (r: Result<(), String>)
    requires
        content_end <= old(data)@.len(),
    ensures
        final(data)@ == co64_patch(old(data)@, content_start as int, content_end as int, delta as int).0,
        match co64_patch(old(data)@, content_start as int, content_end as int, delta as int).1 {
            None => r is Ok,
            Some(e) => r matches Err(m) && m@ == patch_message(e),
        },
{
    if content_end < 8 || content_start > content_end - 8 {
        return Ok(());
    }
    let count = read_be_u32(data.as_slice(), content_start + 4);
    let mut pos = content_start + 8;
    let mut index: u32 = 0;
    let ghost total = co64_patch(old(data)@, content_start as int, content_end as int, delta as int);
    while index < count
        invariant
            content_end <= data@.len(),
            data@.len() == old(data)@.len(),
            index <= count,
            total == co64_patch(old(data)@, content_start as int, content_end as int, delta as int),
            total == co64_shift(data@, pos as int, content_end as int, (count - index) as nat, delta as int),
        decreases count - index,
    {
        if pos > content_end || content_end - pos < 8 {
            return Ok(());
        }
        let current = read_be_u64(data.as_slice(), pos) as i128;
        let updated = current + delta as i128;
        if updated < 0 || updated > 0xffff_ffff_ffff_ffff {
            return Err(error_text(PatchError::Co64OutOfRange));
        }
        write_be_u64(data, pos, updated as u64);
        pos = pos + 8;
        index = index + 1;
    }
    Ok(())
}

/// Adds `delta` to every chunk offset (`stco` and `co64` entries) found by walking the atoms of
/// `data[start..end]` and the container atoms among them.
pub fn patch_mp4_container_offsets(data: &mut Vec<u8>, start: usize, end: usize, delta: i64) -> (r: Result<(), String>)
    requires
        end <= old(data)@.len(),
    ensures
        final(data)@ == offsets_patch(old(data)@, start as int, end as int, delta as int).0,
        match offsets_patch(old(data)@, start as int, end as int, delta as int).1 {
            None => r is Ok,
            Some(e) => r matches Err(m) && m@ == patch_message(e),
        },
    decreases end - start,
{
    let ghost total = offsets_patch(old(data)@, start as int, end as int, delta as int);
    let mut cursor = start;
    while cursor <= end && end - cursor >= 8
        invariant
            end <= data@.len(),
            total == offsets_patch(old(data)@, start as int, end as int, delta as int),
            total == offsets_patch(data@, cursor as int, end as int, delta as int),
            start <= cursor,
        decreases end - cursor,
    {
        let size32 = read_be_u32(data.as_slice(), cursor);
        let kind = read_be_u32(data.as_slice(), cursor + 4);
        let (atom_size, header_size): (usize, usize) = if size32 == 1 {
            if end - cursor < 16 {
                return Ok(());
            }
            let size64 = read_be_u64(data.as_slice(), cursor + 8);
            if size64 > usize::MAX as u64 {
                return Err(error_text(PatchError::AtomTooLarge));
            }
            (size64 as usize, 16)
        } else if size32 == 0 {
            (end - cursor, 8)
        } else {
            (size32 as usize, 8)
        };
        if atom_size < header_size || atom_size > end - cursor {
            return Ok(());
        }
        let content_start = cursor + header_size;
        let content_end = cursor + atom_size;
        let ghost before = data@;
        let inner = if kind == 0x7374_636f {
            patch_stco_offsets(data, content_start, content_end, delta)
        } else if kind == 0x636f_3634 {
            patch_co64_offsets(data, content_start, content_end, delta)
        } else if is_mp4_container_atom(kind) {
            patch_mp4_container_offsets(data, content_start, content_end, delta)
        } else {
            Ok(())
        };
        proof {
            lemma_offsets_patch_len(before, content_start as int, content_end as int, delta as int);
            if content_start + 8 <= content_end {
                lemma_stco_shift_len(before, content_start + 8, content_end as int, be_u32(before, content_start + 4) as nat, delta as int);
                lemma_co64_shift_len(before, content_start + 8, content_end as int, be_u32(before, content_start + 4) as nat, delta as int);
            }
        }
        match inner {
            Ok(()) => {},
            Err(e) => return Err(e),
        }
        cursor = content_end;
    }
    Ok(())
}

/// Adds `delta` to every chunk offset of the `moov` atom held in `data`.
pub fn patch_mp4_chunk_offsets(data: &mut Vec<u8>, delta: i64) -> (r: Result<(), String>)
    ensures
        final(data)@ == offsets_patch(old(data)@, 0, old(data)@.len() as int, delta as int).0,
        match offsets_patch(old(data)@, 0, old(data)@.len() as int, delta as int).1 {
            None => r is Ok,
            Some(e) => r matches Err(m) && m@ == patch_message(e),
        },
{
    let end = data.len();
    patch_mp4_container_offsets(data, 0, end, delta)
}


/// Whether `d[s..t]` is the content of an `stco` atom in the atom tree of `d[cursor..end]`:
/// one of the atoms laid end to end there, or one inside a container atom among them (at any
/// depth), whatever atoms come before it.
#[verifier::opaque]
pub open spec fn stco_atom_in(d: Seq<u8>, cursor: int, end: int, s: int, t: int) -> bool
    decreases end - cursor,
{
    if cursor < 0 || cursor + 8 > end {
        false
    } else {
        let size32 = be_u32(d, cursor);
        let kind = be_u32(d, cursor + 4);
        if size32 == 1 && cursor + 16 > end {
            false
        } else {
            let header: int = if size32 == 1 { 16 } else { 8 };
            let size: int = if size32 == 1 {
                be_u64(d, cursor + 8) as int
            } else if size32 == 0 {
                end - cursor
            } else {
                size32 as int
            };
            if size < header || cursor + size > end {
                false
            } else {
                let cs = cursor + header;
                let ce = cursor + size;
                ||| (kind == KIND_STCO() && s == cs && t == ce)
                ||| (kind != KIND_STCO() && kind != KIND_CO64() && container_kinds().contains(kind)
                    && stco_atom_in(d, cs, ce, s, t))
                ||| stco_atom_in(d, ce, end, s, t)
            }
        }
    }
}

proof fn lemma_stco_atom_in_bounds(d: Seq<u8>, cursor: int, end: int, s: int, t: int)
    requires
        stco_atom_in(d, cursor, end, s, t),
    ensures
        cursor + 8 <= s <= t <= end,
    decreases end - cursor,
{
    reveal(stco_atom_in);
    let size32 = be_u32(d, cursor);
    let kind = be_u32(d, cursor + 4);
    let header: int = if size32 == 1 { 16 } else { 8 };
    let size: int = if size32 == 1 {
        be_u64(d, cursor + 8) as int
    } else if size32 == 0 {
        end - cursor
    } else {
        size32 as int
    };
    let cs = cursor + header;
    let ce = cursor + size;
    if kind == KIND_STCO() && s == cs && t == ce {
    } else if kind != KIND_STCO() && kind != KIND_CO64() && container_kinds().contains(kind)
        && stco_atom_in(d, cs, ce, s, t) {
        lemma_stco_atom_in_bounds(d, cs, ce, s, t);
    } else {
        lemma_stco_atom_in_bounds(d, ce, end, s, t);
    }
}

proof fn lemma_be_u32_same(a: Seq<u8>, b: Seq<u8>, p: int)
    requires
        a[p] == b[p],
        a[p + 1] == b[p + 1],
        a[p + 2] == b[p + 2],
        a[p + 3] == b[p + 3],
    ensures
        be_u32(a, p) == be_u32(b, p),
{
}

/// Whether the atom tree of `d[cursor..end]` holds an `stco` atom at `s..t` depends on those
/// bytes alone.
proof fn lemma_stco_atom_in_congruent(a: Seq<u8>, b: Seq<u8>, cursor: int, end: int, s: int, t: int)
    requires
        end <= a.len(),
        end <= b.len(),
        forall|j: int| 0 <= cursor <= j < end ==> #[trigger] a[j] == b[j],
    ensures
        stco_atom_in(a, cursor, end, s, t) == stco_atom_in(b, cursor, end, s, t),
    decreases end - cursor,
{
    reveal(stco_atom_in);
    if cursor < 0 || cursor + 8 > end {
    } else {
        assert(a[cursor] == b[cursor] && a[cursor + 1] == b[cursor + 1] && a[cursor + 2] == b[cursor + 2] && a[cursor + 3] == b[cursor + 3]);
        assert(a[cursor + 4] == b[cursor + 4] && a[cursor + 5] == b[cursor + 5] && a[cursor + 6] == b[cursor + 6] && a[cursor + 7] == b[cursor + 7]);
        lemma_be_u32_same(a, b, cursor);
        lemma_be_u32_same(a, b, cursor + 4);
        let size32 = be_u32(a, cursor);
        let kind = be_u32(a, cursor + 4);
        if size32 == 1 && cursor + 16 > end {
        } else {
            if size32 == 1 {
                assert(a[cursor + 8] == b[cursor + 8] && a[cursor + 9] == b[cursor + 9] && a[cursor + 10] == b[cursor + 10] && a[cursor + 11] == b[cursor + 11]);
                assert(a[cursor + 12] == b[cursor + 12] && a[cursor + 13] == b[cursor + 13] && a[cursor + 14] == b[cursor + 14] && a[cursor + 15] == b[cursor + 15]);
                lemma_be_u32_same(a, b, cursor + 8);
                lemma_be_u32_same(a, b, cursor + 12);
                assert(be_u64(a, cursor + 8) == be_u64(b, cursor + 8));
            }
            let header: int = if size32 == 1 { 16 } else { 8 };
            let size: int = if size32 == 1 {
                be_u64(a, cursor + 8) as int
            } else if size32 == 0 {
                end - cursor
            } else {
                size32 as int
            };
            if size < header || cursor + size > end {
            } else {
                let cs = cursor + header;
                let ce = cursor + size;
                lemma_stco_atom_in_congruent(a, b, cs, ce, s, t);
                lemma_stco_atom_in_congruent(a, b, ce, end, s, t);
            }
        }
    }
}

proof fn lemma_stco_shift_frame(d: Seq<u8>, pos: int, end: int, remaining: nat, delta: int)
    requires
        0 <= pos,
        end <= d.len(),
    ensures
        stco_shift(d, pos, end, remaining, delta).0.len() == d.len(),
        forall|j: int| 0 <= j < d.len() && (j < pos || j >= end) ==> #[trigger] stco_shift(d, pos, end, remaining, delta).0[j] == d[j],
    decreases remaining,
{
    if remaining == 0 || pos + 4 > end {
    } else {
        let updated = be_u32(d, pos) + delta;
        if updated > i64::MAX || updated < 0 || updated > u32::MAX {
        } else {
            let e = put_be_u32(d, pos, updated as u32);
            lemma_put_be_u32(d, pos, updated as u32);
            lemma_stco_shift_frame(e, pos + 4, end, (remaining - 1) as nat, delta);
        }
    }
}

proof fn lemma_co64_shift_frame(d: Seq<u8>, pos: int, end: int, remaining: nat, delta: int)
    requires
        0 <= pos,
        end <= d.len(),
    ensures
        co64_shift(d, pos, end, remaining, delta).0.len() == d.len(),
        forall|j: int| 0 <= j < d.len() && (j < pos || j >= end) ==> #[trigger] co64_shift(d, pos, end, remaining, delta).0[j] == d[j],
    decreases remaining,
{
    if remaining == 0 || pos + 8 > end {
    } else {
        let updated = be_u64(d, pos) + delta;
        if updated < 0 || updated > u64::MAX {
        } else {
            let v = updated as u64;
            let e1 = put_be_u32(d, pos, (v / 0x1_0000_0000) as u32);
            lemma_put_be_u32(d, pos, (v / 0x1_0000_0000) as u32);
            lemma_put_be_u32(e1, pos + 4, (v % 0x1_0000_0000) as u32);
            let e = put_be_u64(d, pos, v);
            assert(e == put_be_u32(e1, pos + 4, (v % 0x1_0000_0000) as u32));
            lemma_co64_shift_frame(e, pos + 8, end, (remaining - 1) as nat, delta);
        }
    }
}

/// The walk over `d[cursor..end]` changes no byte outside that range.
proof fn lemma_offsets_patch_frame(d: Seq<u8>, cursor: int, end: int, delta: int)
    requires
        end <= d.len(),
    ensures
        offsets_patch(d, cursor, end, delta).0.len() == d.len(),
        forall|j: int| 0 <= j < d.len() && (j < cursor || j >= end) ==> #[trigger] offsets_patch(d, cursor, end, delta).0[j] == d[j],
    decreases end - cursor,
{
    if cursor < 0 || cursor + 8 > end {
    } else {
        let size32 = be_u32(d, cursor);
        let kind = be_u32(d, cursor + 4);
        if size32 == 1 && cursor + 16 > end {
        } else if size32 == 1 && be_u64(d, cursor + 8) > usize::MAX {
        } else {
            let header: int = if size32 == 1 { 16 } else { 8 };
            let size: int = if size32 == 1 {
                be_u64(d, cursor + 8) as int
            } else if size32 == 0 {
                end - cursor
            } else {
                size32 as int
            };
            if size < header || cursor + size > end {
            } else {
                let cs = cursor + header;
                let ce = cursor + size;
                if kind == KIND_STCO() {
                    if cs + 8 <= ce {
                        lemma_stco_shift_frame(d, cs + 8, ce, be_u32(d, cs + 4) as nat, delta);
                    }
                } else if kind == KIND_CO64() {
                    if cs + 8 <= ce {
                        lemma_co64_shift_frame(d, cs + 8, ce, be_u32(d, cs + 4) as nat, delta);
                    }
                } else if container_kinds().contains(kind) {
                    lemma_offsets_patch_frame(d, cs, ce, delta);
                }
                let inner = if kind == KIND_STCO() {
                    stco_patch(d, cs, ce, delta)
                } else if kind == KIND_CO64() {
                    co64_patch(d, cs, ce, delta)
                } else if container_kinds().contains(kind) {
                    offsets_patch(d, cs, ce, delta)
                } else {
                    (d, None)
                };
                if inner.1 is None {
                    lemma_offsets_patch_frame(inner.0, ce, end, delta);
                }
            }
        }
    }
}

/// One step of the walk at `cursor` where the tree holds the `stco` atom `s..t`: the buffer
/// after the first atom's own patch (`ret.0`), that atom's content `ret.1..ret.2`, and where
/// the `stco` atom lies (`ret.3`): 0 for the first atom itself, 1 inside it, 2 after it.
proof fn lemma_walk_step(d: Seq<u8>, cursor: int, end: int, delta: int, s: int, t: int) -> (ret: (Seq<u8>, int, int, int))
    requires
        0 <= cursor,
        end <= d.len(),
        offsets_patch(d, cursor, end, delta).1 is None,
        stco_atom_in(d, cursor, end, s, t),
    ensures
        cursor + 8 <= ret.1 <= ret.2 <= end,
        offsets_patch(d, cursor, end, delta) == offsets_patch(ret.0, ret.2, end, delta),
        ret.0.len() == d.len(),
        forall|j: int| 0 <= j < d.len() && (j < ret.1 || j >= ret.2) ==> #[trigger] ret.0[j] == d[j],
        ret.3 == 0 ==> s == ret.1 && t == ret.2 && stco_patch(d, ret.1, ret.2, delta) == (ret.0, Option::<PatchError>::None),
        ret.3 == 1 ==> stco_atom_in(d, ret.1, ret.2, s, t) && offsets_patch(d, ret.1, ret.2, delta) == (ret.0, Option::<PatchError>::None),
        ret.3 == 2 ==> stco_atom_in(d, ret.2, end, s, t),
        0 <= ret.3 <= 2,
{
    reveal(stco_atom_in);
    let size32 = be_u32(d, cursor);
    let kind = be_u32(d, cursor + 4);
    let header: int = if size32 == 1 { 16 } else { 8 };
    let size: int = if size32 == 1 {
        be_u64(d, cursor + 8) as int
    } else if size32 == 0 {
        end - cursor
    } else {
        size32 as int
    };
    let cs = cursor + header;
    let ce = cursor + size;
    let inner = if kind == KIND_STCO() {
        stco_patch(d, cs, ce, delta)
    } else if kind == KIND_CO64() {
        co64_patch(d, cs, ce, delta)
    } else if container_kinds().contains(kind) {
        offsets_patch(d, cs, ce, delta)
    } else {
        (d, None)
    };
    if kind == KIND_STCO() {
        if cs + 8 <= ce {
            lemma_stco_shift_frame(d, cs + 8, ce, be_u32(d, cs + 4) as nat, delta);
        }
    } else if kind == KIND_CO64() {
        if cs + 8 <= ce {
            lemma_co64_shift_frame(d, cs + 8, ce, be_u32(d, cs + 4) as nat, delta);
        }
    } else if container_kinds().contains(kind) {
        lemma_offsets_patch_frame(d, cs, ce, delta);
    }
    let case: int = if kind == KIND_STCO() && s == cs && t == ce {
        0
    } else if kind != KIND_STCO() && kind != KIND_CO64() && container_kinds().contains(kind)
        && stco_atom_in(d, cs, ce, s, t) {
        1
    } else {
        2
    };
    (inner.0, cs, ce, case)
}

/// Entries shifted in `a` stay shifted in `b` where `b` keeps the bytes of `a` over `s + 8..t`.
proof fn lemma_shifted_entries_kept(a: Seq<u8>, b: Seq<u8>, d: Seq<u8>, s: int, t: int, count: int, delta: int)
    requires
        0 <= s,
        t <= a.len(),
        t <= b.len(),
        forall|j: int| s + 8 <= j < t ==> #[trigger] b[j] == a[j],
        forall|k: int| 0 <= k < count && s + 8 + 4 * k + 4 <= t ==> #[trigger] be_u32(a, s + 8 + 4 * k) == be_u32(d, s + 8 + 4 * k) + delta,
    ensures
        forall|k: int| 0 <= k < count && s + 8 + 4 * k + 4 <= t ==> #[trigger] be_u32(b, s + 8 + 4 * k) == be_u32(d, s + 8 + 4 * k) + delta,
{
    assert forall|k: int| 0 <= k < count && s + 8 + 4 * k + 4 <= t
        implies #[trigger] be_u32(b, s + 8 + 4 * k) == be_u32(d, s + 8 + 4 * k) + delta by {
        let p = s + 8 + 4 * k;
        assert(be_u32(a, p) == be_u32(d, p) + delta);
        assert(b[p] == a[p] && b[p + 1] == a[p + 1] && b[p + 2] == a[p + 2] && b[p + 3] == a[p + 3]);
        lemma_be_u32_same(b, a, p);
    }
}

/// Entries shifted from their values in `a` are shifted from their values in `d` where `a`
/// and `d` agree over `s + 4..t`.
proof fn lemma_shift_base_kept(a: Seq<u8>, d: Seq<u8>, r: Seq<u8>, s: int, t: int, delta: int)
    requires
        0 <= s,
        s + 8 <= t,
        t <= a.len(),
        t <= d.len(),
        forall|j: int| s + 4 <= j < t ==> #[trigger] a[j] == d[j],
        forall|k: int| 0 <= k < be_u32(a, s + 4) && s + 8 + 4 * k + 4 <= t ==> #[trigger] be_u32(r, s + 8 + 4 * k) == be_u32(a, s + 8 + 4 * k) + delta,
    ensures
        forall|k: int| 0 <= k < be_u32(d, s + 4) && s + 8 + 4 * k + 4 <= t ==> #[trigger] be_u32(r, s + 8 + 4 * k) == be_u32(d, s + 8 + 4 * k) + delta,
{
    assert(a[s + 4] == d[s + 4] && a[s + 5] == d[s + 5] && a[s + 6] == d[s + 6] && a[s + 7] == d[s + 7]);
    lemma_be_u32_same(a, d, s + 4);
    assert forall|k: int| 0 <= k < be_u32(d, s + 4) && s + 8 + 4 * k + 4 <= t
        implies #[trigger] be_u32(r, s + 8 + 4 * k) == be_u32(d, s + 8 + 4 * k) + delta by {
        let p = s + 8 + 4 * k;
        assert(be_u32(r, p) == be_u32(a, p) + delta);
        assert(a[p] == d[p] && a[p + 1] == d[p + 1] && a[p + 2] == d[p + 2] && a[p + 3] == d[p + 3]);
        lemma_be_u32_same(a, d, p);
    }
}

/// The entries of the `stco` atom `start..end` after its own patch.
proof fn lemma_stco_patch_entries(d: Seq<u8>, start: int, end: int, delta: int, after: Seq<u8>)
    requires
        0 <= start,
        end <= d.len(),
        stco_patch(d, start, end, delta) == (after, Option::<PatchError>::None),
    ensures
        forall|k: int| 0 <= k < be_u32(d, start + 4) && start + 8 + 4 * k + 4 <= end
            ==> #[trigger] be_u32(after, start + 8 + 4 * k) == be_u32(d, start + 8 + 4 * k) + delta,
{
    lemma_stco_patch_reads(d, start, end, delta);
}

/// Patching the chunk offsets of an atom tree (as `patch_mp4_container_offsets` and, over the
/// whole `moov`, `patch_mp4_chunk_offsets` do) moves every entry of every `stco` atom in it by
/// `delta`: in each `trak`, at any depth reached through container atoms, whatever atoms come
/// before it, an entry read back after a successful patch is the old one plus `delta`.
pub proof fn lemma_patch_shifts_every_stco(d: Seq<u8>, cursor: int, end: int, delta: int, s: int, t: int)
    requires
        0 <= cursor,
        end <= d.len(),
        offsets_patch(d, cursor, end, delta).1 is None,
        stco_atom_in(d, cursor, end, s, t),
    ensures
        forall|k: int| 0 <= k < be_u32(d, s + 4) && s + 8 + 4 * k + 4 <= t
            ==> #[trigger] be_u32(offsets_patch(d, cursor, end, delta).0, s + 8 + 4 * k) == be_u32(d, s + 8 + 4 * k) + delta,
    decreases end - cursor,
{
    let (inner0, cs, ce, case) = lemma_walk_step(d, cursor, end, delta, s, t);
    let r = offsets_patch(inner0, ce, end, delta).0;
    lemma_offsets_patch_frame(inner0, ce, end, delta);
    lemma_stco_atom_in_bounds(d, cursor, end, s, t);
    if case == 0 {
        lemma_stco_patch_entries(d, cs, ce, delta, inner0);
        lemma_shifted_entries_kept(inner0, r, d, s, t, be_u32(d, s + 4) as int, delta);
    } else if case == 1 {
        lemma_patch_shifts_every_stco(d, cs, ce, delta, s, t);
        lemma_stco_atom_in_bounds(d, cs, ce, s, t);
        let a = offsets_patch(d, cs, ce, delta).0;
        assert(a == inner0);
        assert(forall|j: int| s + 8 <= j < t ==> #[trigger] r[j] == a[j]);
        lemma_shifted_entries_kept(a, r, d, s, t, be_u32(d, s + 4) as int, delta);
    } else {
        lemma_stco_atom_in_bounds(d, ce, end, s, t);
        lemma_stco_atom_in_congruent(d, inner0, ce, end, s, t);
        lemma_patch_shifts_every_stco(inner0, ce, end, delta, s, t);
        if s + 8 <= t {
            lemma_shift_base_kept(inner0, d, r, s, t, delta);
        }
    }
}

} // verus!

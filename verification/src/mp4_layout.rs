//! The top-level layout of an MP4 file: reading its atom headers, planning a "fast start"
//! rewrite that puts `moov` ahead of the media data, and diagnosing `.sz` files that wear an
//! MP4 shell.
use vstd::prelude::*;
use crate::bytes::{be_u32, be_u64, read_be_u32, read_be_u64};
use crate::mp4_atoms::Mp4TrackSummary;

verus! {

/// A top-level atom of an MP4 file.
#[derive(Clone, Copy, Debug)]
pub struct Mp4Atom {
    pub start: u64,
    pub header_size: u64,
    pub size: u64,
    /// The four kind bytes read as a big-endian number.
    pub kind: u32,
}

pub open spec fn KIND_FTYP() -> u32 {
    0x6674_7970
}

pub open spec fn KIND_MOOV() -> u32 {
    0x6d6f_6f76
}

pub open spec fn KIND_MDAT() -> u32 {
    0x6d64_6174
}

/// What one header read gives while walking the top level of a file.
#[derive(Clone, Copy, Debug)]
pub enum TopLevelStep {
    /// The atom at the cursor.
    Atom(Mp4Atom),
    /// The atom has a 64-bit size: read the 8 bytes after its kind and decode again with all 16.
    NeedLargeSize,
    /// The header is malformed or the atom overruns the file: the walk ends here.
    Stop,
}

/// What the header bytes `header` (8 bytes, or 16 for a 64-bit size) read at `cursor` of a file
/// of `file_size` bytes mean.
pub open spec fn top_level_step(cursor: u64, file_size: u64, header: Seq<u8>) -> TopLevelStep {
    let size32 = be_u32(header, 0);
    let kind = be_u32(header, 4);
    if size32 == 1 && header.len() < 16 {
        TopLevelStep::NeedLargeSize
    } else {
        let size: int = if size32 == 0 {
            file_size - cursor
        } else if size32 == 1 {
            be_u64(header, 8) as int
        } else {
            size32 as int
        };
        let header_size: int = if size32 == 1 { 16 } else { 8 };
        if size < header_size || cursor + size > file_size {
            TopLevelStep::Stop
        } else {
            TopLevelStep::Atom(
                Mp4Atom { start: cursor, header_size: header_size as u64, size: size as u64, kind },
            )
        }
    }
}

/// Whether a header can still be read at `cursor` of a file of `file_size` bytes.
pub fn has_top_level_header(cursor: u64, file_size: u64) -> (r: bool)
    ensures
        r == (cursor + 8 <= file_size),
{
    cursor <= file_size && file_size - cursor >= 8
}

/// Decodes the top-level atom header `header` (8 bytes, or 16 where the size is 64-bit) read at
/// `cursor` of a file of `file_size` bytes.
pub fn decode_top_level_atom(cursor: u64, file_size: u64, header: &[u8]) -> (r: TopLevelStep)
    requires
        cursor + 8 <= file_size,
        header@.len() == 8 || header@.len() == 16,
    ensures
        r == top_level_step(cursor, file_size, header@),
{
    let size32 = read_be_u32(header, 0);
    let kind = read_be_u32(header, 4);
    if size32 == 1 && header.len() < 16 {
        return TopLevelStep::NeedLargeSize;
    }
    let (size, header_size): (u64, u64) = if size32 == 0 {
        (file_size - cursor, 8)
    } else if size32 == 1 {
        (read_be_u64(header, 8), 16)
    } else {
        (size32 as u64, 8)
    };
    if size < header_size || size > file_size - cursor {
        return TopLevelStep::Stop;
    }
    TopLevelStep::Atom(Mp4Atom { start: cursor, header_size, size, kind })
}

/// Index of the first atom of kind `kind`.
pub open spec fn first_of_kind(atoms: Seq<Mp4Atom>, kind: u32) -> Option<int>
    decreases atoms.len(),
{
    if atoms.len() == 0 {
        None
    } else if atoms[0].kind == kind {
        Some(0)
    } else {
        match first_of_kind(atoms.drop_first(), kind) {
            Some(i) => Some(i + 1),
            None => None,
        }
    }
}

pub proof fn lemma_first_of_kind(atoms: Seq<Mp4Atom>, kind: u32)
    ensures
        match first_of_kind(atoms, kind) {
            Some(i) => 0 <= i < atoms.len() && atoms[i].kind == kind && forall|j: int|
                0 <= j < i ==> atoms[j].kind != kind,
            None => forall|j: int| 0 <= j < atoms.len() ==> atoms[j].kind != kind,
        },
    decreases atoms.len(),
{
    if atoms.len() > 0 {
        lemma_first_of_kind(atoms.drop_first(), kind);
        if atoms[0].kind != kind {
            match first_of_kind(atoms.drop_first(), kind) {
                Some(i) => {
                    assert forall|j: int| 0 <= j < i + 1 implies atoms[j].kind != kind by {
                        if j > 0 {
                            assert(atoms[j] == atoms.drop_first()[j - 1]);
                        }
                    }
                },
                None => {
                    assert forall|j: int| 0 <= j < atoms.len() implies atoms[j].kind != kind by {
                        if j > 0 {
                            assert(atoms[j] == atoms.drop_first()[j - 1]);
                        }
                    }
                },
            }
        }
    }
}

/// The first top-level atom of kind `kind` (four bytes read as a big-endian number).
pub fn find_top_level_atom(atoms: &Vec<Mp4Atom>, kind: u32) -> (r: Option<Mp4Atom>)
    ensures
        match first_of_kind(atoms@, kind) {
            Some(i) => r == Some(atoms@[i]),
            None => r is None,
        },
{
    proof {
        lemma_first_of_kind(atoms@, kind);
    }
    let mut i: usize = 0;
    while i < atoms.len()
        invariant
            i <= atoms@.len(),
            forall|j: int| 0 <= j < i ==> atoms@[j].kind != kind,
        decreases atoms.len() - i,
    {
        if atoms[i].kind == kind {
            proof {
                lemma_first_of_kind(atoms@, kind);
            }
            return Some(atoms[i]);
        }
        i += 1;
    }
    None
}

/// The start of the first media-data (`mdat`) atom, or `file_size` where there is none.
pub open spec fn first_mdat_start(atoms: Seq<Mp4Atom>, file_size: u64) -> u64
    decreases atoms.len(),
{
    if atoms.len() == 0 {
        file_size
    } else {
        let rest = first_mdat_start(atoms.drop_last(), file_size);
        let a = atoms.last();
        if a.kind == KIND_MDAT() && (a.start < rest || !exists_mdat(atoms.drop_last())) {
            a.start
        } else {
            rest
        }
    }
}

pub open spec fn exists_mdat(atoms: Seq<Mp4Atom>) -> bool {
    exists|i: int| 0 <= i < atoms.len() && (#[trigger] atoms[i]).kind == KIND_MDAT()
}

/// How a file whose `moov` trails its media data is rewritten: `ftyp`, then `moov` (with its
/// chunk offsets shifted), then every other top-level atom in its original order.
#[derive(Clone, Debug)]
pub struct FaststartLayout {
    pub ftyp: Mp4Atom,
    pub moov: Mp4Atom,
    pub rest: Vec<Mp4Atom>,
}

/// The atoms other than the ones starting at `a` or `b`, in order.
pub open spec fn others(atoms: Seq<Mp4Atom>, a: u64, b: u64) -> Seq<Mp4Atom> {
    atoms.filter(|x: Mp4Atom| x.start != a && x.start != b)
}

/// The fast-start rewrite of a file with top-level atoms `atoms`: `None` where it has no
/// `ftyp`, no `moov`, or where its `moov` already comes before its first `mdat` (a file
/// without `mdat` counts as such).
pub open spec fn faststart_layout_of(atoms: Seq<Mp4Atom>, file_size: u64) -> Option<(Mp4Atom, Mp4Atom, Seq<Mp4Atom>)> {
    match (first_of_kind(atoms, KIND_FTYP()), first_of_kind(atoms, KIND_MOOV())) {
        (Some(f), Some(m)) => {
            if atoms[m].start < first_mdat_start(atoms, file_size) {
                None
            } else {
                Some((atoms[f], atoms[m], others(atoms, atoms[f].start, atoms[m].start)))
            }
        },
        _ => None,
    }
}


/// The fast-start rewrite loses no atom and duplicates none: where the atoms' starts increase
/// (as a walk of the top level gives them), `ftyp` goes first and `moov` second, every other
/// atom follows in its order, and `moov` did not already come before the first `mdat`.
pub proof fn lemma_faststart_layout_complete(atoms: Seq<Mp4Atom>, file_size: u64)
    requires
        forall|i: int, j: int| 0 <= i < j < atoms.len() ==> atoms[i].start < atoms[j].start,
    ensures
        match faststart_layout_of(atoms, file_size) {
            Some((f, m, rest)) => {
                &&& f.kind == KIND_FTYP() && m.kind == KIND_MOOV()
                &&& atoms.contains(f) && atoms.contains(m) && f != m
                &&& forall|k: int| 0 <= k < atoms.len() ==> #[trigger] atoms[k] == f || atoms[k] == m || rest.contains(atoms[k])
                &&& forall|k: int| 0 <= k < rest.len() ==> atoms.contains(#[trigger] rest[k]) && rest[k] != f && rest[k] != m
                &&& m.start >= first_mdat_start(atoms, file_size)
            },
            None => true,
        },
{
    broadcast use vstd::seq_lib::group_filter_ensures;
    lemma_first_of_kind(atoms, KIND_FTYP());
    lemma_first_of_kind(atoms, KIND_MOOV());
    match faststart_layout_of(atoms, file_size) {
        Some((f, m, rest)) => {
            let fi = first_of_kind(atoms, KIND_FTYP())->0;
            let mi = first_of_kind(atoms, KIND_MOOV())->0;
            let pred = |x: Mp4Atom| x.start != f.start && x.start != m.start;
            assert(rest == atoms.filter(pred));
            assert(atoms[fi] == f && atoms[mi] == m);
            assert forall|k: int| 0 <= k < atoms.len() implies #[trigger] atoms[k] == f || atoms[k] == m || rest.contains(atoms[k]) by {
                if atoms[k].start == f.start {
                    if k < fi {
                        assert(atoms[k].start < atoms[fi].start);
                    } else if k > fi {
                        assert(atoms[fi].start < atoms[k].start);
                    }
                } else if atoms[k].start == m.start {
                    if k < mi {
                        assert(atoms[k].start < atoms[mi].start);
                    } else if k > mi {
                        assert(atoms[mi].start < atoms[k].start);
                    }
                } else {
                    assert(pred(atoms[k]));
                    atoms.lemma_filter_contains(pred, k);
                }
            }
            assert forall|k: int| 0 <= k < rest.len() implies atoms.contains(#[trigger] rest[k]) && rest[k] != f && rest[k] != m by {
                atoms.lemma_filter_pred(pred, k);
                assert(rest.contains(rest[k]));
                atoms.lemma_filter_contains_rev(pred, rest[k]);
            }
        },
        None => {},
    }
}


/// The first `mdat` starts no later than any `mdat`.
proof fn lemma_first_mdat_start_le(atoms: Seq<Mp4Atom>, file_size: u64, j: int)
    requires
        0 <= j < atoms.len(),
        atoms[j].kind == KIND_MDAT(),
    ensures
        first_mdat_start(atoms, file_size) <= atoms[j].start,
    decreases atoms.len(),
{
    let d = atoms.drop_last();
    if j < atoms.len() - 1 {
        assert(d[j] == atoms[j]);
        lemma_first_mdat_start_le(d, file_size, j);
        assert(exists_mdat(d));
    }
}

/// Total size of atoms.
pub open spec fn atoms_size(s: Seq<Mp4Atom>) -> int
    decreases s.len(),
{
    if s.len() == 0 {
        0
    } else {
        atoms_size(s.drop_last()) + s.last().size
    }
}

/// Atoms that tile a file from its start: each begins where the one before it ends.
pub open spec fn tiles_from_start(atoms: Seq<Mp4Atom>) -> bool {
    &&& atoms.len() > 0 ==> atoms[0].start == 0
    &&& forall|i: int| 0 <= i < atoms.len() ==> (#[trigger] atoms[i]).size > 0
    &&& forall|i: int| 0 <= i < atoms.len() - 1 ==> #[trigger] atoms[i + 1].start == atoms[i].start + atoms[i].size
}

proof fn lemma_tiled_starts(atoms: Seq<Mp4Atom>, k: int)
    requires
        tiles_from_start(atoms),
        0 <= k < atoms.len(),
    ensures
        atoms[k].start == atoms_size(atoms.take(k)),
    decreases k,
{
    if k > 0 {
        lemma_tiled_starts(atoms, k - 1);
        assert(atoms.take(k).drop_last() =~= atoms.take(k - 1));
        assert(atoms[(k - 1) + 1].start == atoms[k - 1].start + atoms[k - 1].size);
    }
}

proof fn lemma_tiled_increasing(atoms: Seq<Mp4Atom>, i: int, j: int)
    requires
        tiles_from_start(atoms),
        0 <= i < j < atoms.len(),
    ensures
        atoms[i].start < atoms[j].start,
    decreases j - i,
{
    assert(atoms[(j - 1) + 1].start == atoms[j - 1].start + atoms[j - 1].size);
    if i < j - 1 {
        lemma_tiled_increasing(atoms, i, j - 1);
    }
}

proof fn lemma_filter_all(s: Seq<Mp4Atom>, pred: spec_fn(Mp4Atom) -> bool)
    requires
        forall|i: int| 0 <= i < s.len() ==> pred(#[trigger] s[i]),
    ensures
        s.filter(pred) == s,
    decreases s.len(),
{
    reveal_with_fuel(Seq::filter, 1);
    if s.len() > 0 {
        let d = s.drop_last();
        assert forall|i: int| 0 <= i < d.len() implies pred(#[trigger] d[i]) by {
            assert(d[i] == s[i]);
        }
        lemma_filter_all(d, pred);
        assert(pred(s[s.len() - 1]));
        assert(d.push(s.last()) =~= s);
    }
}

/// For a file tiled from its start by `ftyp` first, `moov` last and media data between, the
/// fast-start rewrite keeps the atoms between in their order, and each of them moves forward
/// by exactly the size of `moov`, the shift given to every chunk offset
/// (`moov_offset_delta`): written after `ftyp` and `moov`, it starts at its old start plus
/// the size of `moov`.
pub proof fn lemma_faststart_moves_media_by_moov_size(atoms: Seq<Mp4Atom>, file_size: u64)
    requires
        atoms.len() >= 2,
        tiles_from_start(atoms),
        atoms[0].kind == KIND_FTYP(),
        atoms.last().kind == KIND_MOOV(),
        forall|i: int| 0 < i < atoms.len() - 1 ==> (#[trigger] atoms[i]).kind != KIND_MOOV(),
        exists|i: int| 0 < i < atoms.len() - 1 && (#[trigger] atoms[i]).kind == KIND_MDAT(),
    ensures
        ({
            let n = atoms.len() as int;
            let mid = atoms.subrange(1, n - 1);
            &&& faststart_layout_of(atoms, file_size) == Some((atoms[0], atoms[n - 1], mid))
            &&& forall|k: int| 0 <= k < mid.len() ==> atoms[0].size + atoms[n - 1].size + atoms_size(mid.take(k))
                == (#[trigger] mid[k]).start + atoms[n - 1].size
        }),
{
    let n = atoms.len() as int;
    let f = atoms[0];
    let m = atoms[n - 1];
    let mid = atoms.subrange(1, n - 1);
    lemma_first_of_kind(atoms, KIND_MOOV());
    assert(atoms[n - 1] == atoms.last());
    let mi = first_of_kind(atoms, KIND_MOOV())->0;
    if mi < n - 1 {
        if mi == 0 {
            assert(atoms[0].kind == KIND_FTYP());
        } else {
            assert(atoms[mi].kind != KIND_MOOV());
        }
    }
    assert(mi == n - 1);
    let j = choose|i: int| 0 < i < atoms.len() - 1 && (#[trigger] atoms[i]).kind == KIND_MDAT();
    lemma_first_mdat_start_le(atoms, file_size, j);
    lemma_tiled_increasing(atoms, j, n - 1);
    let pred = |x: Mp4Atom| x.start != f.start && x.start != m.start;
    assert(atoms =~= seq![f] + mid + seq![m]);
    assert forall|i: int| 0 <= i < mid.len() implies pred(#[trigger] mid[i]) by {
        assert(mid[i] == atoms[i + 1]);
        lemma_tiled_increasing(atoms, 0, i + 1);
        if i + 1 < n - 1 {
            lemma_tiled_increasing(atoms, i + 1, n - 1);
        }
    }
    lemma_filter_all(mid, pred);
    lemma_tiled_increasing(atoms, 0, n - 1);
    reveal_with_fuel(Seq::filter, 2);
    assert(seq![f].filter(pred) =~= Seq::<Mp4Atom>::empty());
    assert(seq![m].filter(pred) =~= Seq::<Mp4Atom>::empty());
    Seq::filter_distributes_over_add(seq![f] + mid, seq![m], pred);
    Seq::filter_distributes_over_add(seq![f], mid, pred);
    assert(atoms.filter(pred) =~= mid);
    assert forall|k: int| 0 <= k < mid.len() implies atoms[0].size + atoms[n - 1].size + atoms_size(mid.take(k))
        == (#[trigger] mid[k]).start + atoms[n - 1].size by {
        lemma_tiled_starts(atoms, k + 1);
        assert(mid[k] == atoms[k + 1]);
        lemma_atoms_size_front(atoms.take(k + 1));
        assert(atoms.take(k + 1).drop_first() =~= mid.take(k));
        assert(atoms.take(k + 1)[0] == atoms[0]);
    }
}

proof fn lemma_atoms_size_front(s: Seq<Mp4Atom>)
    requires
        s.len() > 0,
    ensures
        atoms_size(s) == s[0].size + atoms_size(s.drop_first()),
    decreases s.len(),
{
    if s.len() > 1 {
        lemma_atoms_size_front(s.drop_last());
        assert(s.drop_last().drop_first() =~= s.drop_first().drop_last());
        assert(s.drop_last()[0] == s[0]);
        assert(s.drop_first().last() == s.last());
        assert(atoms_size(s.drop_first()) == atoms_size(s.drop_first().drop_last()) + s.drop_first().last().size);
    } else {
        assert(s.drop_first().len() == 0);
        assert(s.drop_last().len() == 0);
        assert(atoms_size(s.drop_first()) == 0);
        assert(atoms_size(s.drop_last()) == 0);
    }
}

/// Plans the fast-start rewrite of a file of `file_size` bytes whose top-level atoms are
/// `atoms` (see `faststart_layout_of`).
pub fn faststart_layout(atoms: &Vec<Mp4Atom>, file_size: u64) -> (r: Option<FaststartLayout>)
    ensures
        match faststart_layout_of(atoms@, file_size) {
            Some((f, m, rest)) => r matches Some(l) && l.ftyp == f && l.moov == m && l.rest@ == rest,
            None => r is None,
        },
{
    let ftyp = match find_top_level_atom(atoms, 0x6674_7970) {
        Some(a) => a,
        None => return None,
    };
    let moov = match find_top_level_atom(atoms, 0x6d6f_6f76) {
        Some(a) => a,
        None => return None,
    };
    let mut first_mdat = file_size;
    let mut seen = false;
    let mut i: usize = 0;
    while i < atoms.len()
        invariant
            i <= atoms@.len(),
            first_mdat == first_mdat_start(atoms@.take(i as int), file_size),
            seen == exists_mdat(atoms@.take(i as int)),
        decreases atoms.len() - i,
    {
        let a = atoms[i];
        let ghost prev = atoms@.take(i as int);
        assert(atoms@.take(i + 1).drop_last() =~= prev);
        assert(atoms@.take(i + 1).last() == a);
        if a.kind == 0x6d64_6174 && (a.start < first_mdat || !seen) {
            first_mdat = a.start;
        }
        proof {
            let next = atoms@.take(i + 1);
            if a.kind == KIND_MDAT() {
                assert(next[i as int] == a);
                assert(exists_mdat(next));
            } else {
                if exists_mdat(next) {
                    let j = choose|j: int| 0 <= j < next.len() && (#[trigger] next[j]).kind == KIND_MDAT();
                    assert(j < i);
                    assert(prev[j] == next[j]);
                }
                if exists_mdat(prev) {
                    let j = choose|j: int| 0 <= j < prev.len() && (#[trigger] prev[j]).kind == KIND_MDAT();
                    assert(prev[j] == next[j]);
                }
            }
        }
        seen = seen || a.kind == 0x6d64_6174;
        i += 1;
    }
    assert(atoms@.take(atoms@.len() as int) =~= atoms@);
    if moov.start < first_mdat {
        return None;
    }
    let mut rest: Vec<Mp4Atom> = Vec::new();
    let mut k: usize = 0;
    let ghost pred = |x: Mp4Atom| x.start != ftyp.start && x.start != moov.start;
    while k < atoms.len()
        invariant
            k <= atoms@.len(),
            pred == (|x: Mp4Atom| x.start != ftyp.start && x.start != moov.start),
            rest@ == atoms@.take(k as int).filter(pred),
        decreases atoms.len() - k,
    {
        let a = atoms[k];
        assert(atoms@.take(k + 1).drop_last() =~= atoms@.take(k as int));
        assert(atoms@.take(k + 1).last() == a);
        reveal_with_fuel(Seq::filter, 1);
        if a.start != ftyp.start && a.start != moov.start {
            rest.push(a);
        }
        k += 1;
    }
    assert(atoms@.take(atoms@.len() as int) =~= atoms@);
    Some(FaststartLayout { ftyp, moov, rest })
}

/// How far the media data moves when `moov` is put in front of it: the size of `moov`, which
/// must fit in `i64`.
pub fn moov_offset_delta(moov_size: u64) -> (r: Result<i64, String>)
    ensures
        moov_size <= i64::MAX ==> r == Ok::<i64, String>(moov_size as i64),
        moov_size > i64::MAX ==> (r matches Err(m) && m@ == "MP4 moov atom 过大"@),
{
    if moov_size > 0x7fff_ffff_ffff_ffff {
        return Err(String::from_str("MP4 moov atom 过大"));
    }
    Ok(moov_size as i64)
}

/// The byte range `(offset, length)` of a sample's head to inspect: at most its first 64 bytes.
pub fn read_sample_head(offset: Option<u64>, size: Option<u32>) -> (r: Option<(u64, u64)>)
    ensures
        match (offset, size) {
            (Some(o), Some(s)) => r == Some((o, if s < 64 { s as u64 } else { 64u64 })),
            _ => r is None,
        },
{
    let offset = match offset {
        Some(o) => o,
        None => return None,
    };
    let size = match size {
        Some(s) => s as u64,
        None => return None,
    };
    Some((offset, if size < 64 { size } else { 64 }))
}

/// The byte range `(offset, length)` of the media data whose entropy is measured: at most the
/// first 64 KiB of the body of `mdat`; `None` where that body is empty.
pub fn mdat_entropy_range(mdat: Mp4Atom) -> (r: Option<(u64, u64)>)
    requires
        mdat.start + mdat.header_size <= u64::MAX,
    ensures
        ({
            let body = if mdat.size >= mdat.header_size { mdat.size - mdat.header_size } else { 0 };
            let len = if body < 0x1_0000 { body } else { 0x1_0000 };
            if len > 0 {
                r == Some(((mdat.start + mdat.header_size) as u64, len as u64))
            } else {
                r is None
            }
        }),
{
    let body = mdat.size.saturating_sub(mdat.header_size);
    let len = if body < 0x1_0000 {
        body
    } else {
        0x1_0000
    };
    if len > 0 {
        Some((mdat.start + mdat.header_size, len))
    } else {
        None
    }
}

/// Index of the first track whose codec is `codec`.
pub open spec fn first_track_with(tracks: Seq<Mp4TrackSummary>, codec: u32) -> Option<int>
    decreases tracks.len(),
{
    if tracks.len() == 0 {
        None
    } else if tracks[0].codec == Some(codec) {
        Some(0)
    } else {
        match first_track_with(tracks.drop_first(), codec) {
            Some(i) => Some(i + 1),
            None => None,
        }
    }
}

/// Index of the first track whose codec is `codec` (`avc1` for video, `mp4a` for audio).
pub fn find_track(tracks: &Vec<Mp4TrackSummary>, codec: u32) -> (r: Option<usize>)
    ensures
        match first_track_with(tracks@, codec) {
            Some(i) => r == Some(i as usize),
            None => r is None,
        },
{
    let mut i: usize = 0;
    assert(tracks@.subrange(0, tracks@.len() as int) =~= tracks@);
    while i < tracks.len()
        invariant
            i <= tracks@.len(),
            first_track_with(tracks@, codec) == (match first_track_with(
                tracks@.subrange(i as int, tracks@.len() as int),
                codec,
            ) {
                Some(j) => Some(j + i),
                None => None,
            }),
        decreases tracks.len() - i,
    {
        let ghost t = tracks@.subrange(i as int, tracks@.len() as int);
        assert(t[0] == tracks@[i as int]);
        if tracks[i].codec == Some(codec) {
            return Some(i);
        }
        assert(t.drop_first() =~= tracks@.subrange(i + 1, tracks@.len() as int));
        i += 1;
    }
    assert(tracks@.subrange(i as int, tracks@.len() as int).len() == 0);
    None
}

/// The verdict on an MP4-shelled `.sz` file, from whether it has `avc1` and `mp4a` tracks and
/// whether their first samples look like standard H.264 and AAC.
pub open spec fn sz_conclusion_text(has_video: bool, has_audio: bool, h264: bool, aac: bool) -> Seq<char> {
    if has_video && has_audio && !h264 && !aac {
        "MP4 外壳和 avc1/mp4a 轨道表存在，但首段音视频帧不是公开标准 H.264/AAC，常规 FFmpeg 转码无法直接解码。"@
    } else if has_video && !h264 {
        "MP4 外壳存在，但首段视频帧不是公开标准 H.264 NAL 数据。"@
    } else if has_audio && !aac {
        "MP4 外壳存在，但首段音频帧不是公开标准 AAC 数据。"@
    } else {
        "结构看起来接近标准 MP4，可继续尝试 FFmpeg 转码。"@
    }
}

pub fn sz_conclusion(has_video: bool, has_audio: bool, h264: bool, aac: bool) -> (r: String)
    ensures
        r@ == sz_conclusion_text(has_video, has_audio, h264, aac),
{
    if has_video && has_audio && !h264 && !aac {
        String::from_str(
            "MP4 外壳和 avc1/mp4a 轨道表存在，但首段音视频帧不是公开标准 H.264/AAC，常规 FFmpeg 转码无法直接解码。",
        )
    } else if has_video && !h264 {
        String::from_str("MP4 外壳存在，但首段视频帧不是公开标准 H.264 NAL 数据。")
    } else if has_audio && !aac {
        String::from_str("MP4 外壳存在，但首段音频帧不是公开标准 AAC 数据。")
    } else {
        String::from_str("结构看起来接近标准 MP4，可继续尝试 FFmpeg 转码。")
    }
}

} // verus!

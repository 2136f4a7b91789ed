//! Reading the box ("atom") structure of an MP4 `moov` buffer.
//!
//! An atom starts with a big-endian 32-bit size and a four-byte kind. A size of 1 means a
//! 64-bit size follows the kind; a size of 0 means the atom runs to the end of its parent.
use vstd::prelude::*;
use crate::text::{hex_byte, push_hex_byte, push_char};
use crate::bytes::{be_u32, be_u64, tag_at, read_be_u32, read_be_u64, has_tag_at};

verus! {

/// Lengths of in-memory byte buffers never exceed `isize::MAX`.
pub open spec fn buffer_len_ok(n: int) -> bool {
    n <= isize::MAX
}

/// What a `usize` saturating addition gives.
pub open spec fn sat_add(a: int, b: int) -> int {
    if a + b > usize::MAX {
        usize::MAX as int
    } else {
        a + b
    }
}

/// The size of the atom that starts at `cursor` inside a parent that ends at `end`, or `None`
/// where the walk over the parent's children stops.
pub open spec fn atom_size_at(data: Seq<u8>, cursor: int, end: int) -> Option<int> {
    if !(cursor + 8 <= end && cursor + 8 <= data.len()) {
        None
    } else {
        let size32 = be_u32(data, cursor);
        let size: Option<int> = if size32 == 1 {
            if cursor + 16 > end || cursor + 16 > data.len() {
                None
            } else if be_u64(data, cursor + 8) > usize::MAX {
                None
            } else {
                Some(be_u64(data, cursor + 8) as int)
            }
        } else if size32 == 0 {
            Some(end - cursor)
        } else {
            Some(size32 as int)
        };
        match size {
            Some(sz) => if sz < 8 || cursor + sz > end || cursor + sz > data.len() {
                None
            } else {
                Some(sz)
            },
            None => None,
        }
    }
}

/// The children of kind `kind` met by walking the atoms from `cursor` up to `end`, each as
/// `(start, end)`.
pub open spec fn child_atoms(data: Seq<u8>, cursor: int, end: int, kind: Seq<u8>) -> Seq<
    (usize, usize),
>
    decreases end - cursor,
{
    match atom_size_at(data, cursor, end) {
        None => Seq::empty(),
        Some(sz) => {
            let rest = child_atoms(data, cursor + sz, end, kind);
            if tag_at(data, cursor + 4, kind) {
                seq![(cursor as usize, (cursor + sz) as usize)] + rest
            } else {
                rest
            }
        },
    }
}

/// Every atom in `atoms` lies in `[lo, end)`, within `data`, carries `kind`, is at least a
/// header long, and they come in order without overlap.
pub open spec fn well_placed_atoms(
    data: Seq<u8>,
    atoms: Seq<(usize, usize)>,
    lo: int,
    end: int,
    kind: Seq<u8>,
) -> bool {
    &&& forall|i: int|
        0 <= i < atoms.len() ==> {
            &&& lo <= (#[trigger] atoms[i]).0
            &&& atoms[i].0 + 8 <= atoms[i].1
            &&& atoms[i].1 <= end
            &&& atoms[i].1 <= data.len()
            &&& tag_at(data, atoms[i].0 + 4, kind)
        }
    &&& forall|i: int, j: int| 0 <= i < j < atoms.len() ==> atoms[i].1 <= atoms[j].0
}

pub proof fn lemma_child_atoms_well_placed(data: Seq<u8>, cursor: int, end: int, kind: Seq<u8>)
    requires
        0 <= cursor,
        data.len() <= usize::MAX,
    ensures
        well_placed_atoms(data, child_atoms(data, cursor, end, kind), cursor, end, kind),
    decreases end - cursor,
{
    match atom_size_at(data, cursor, end) {
        None => {},
        Some(sz) => {
            lemma_child_atoms_well_placed(data, cursor + sz, end, kind);
            let rest = child_atoms(data, cursor + sz, end, kind);
            if tag_at(data, cursor + 4, kind) {
                let all = seq![(cursor as usize, (cursor + sz) as usize)] + rest;
                assert forall|i: int, j: int| 0 <= i < j < all.len() implies all[i].1 <= all[j].0 by {
                    if i == 0 {
                        assert(all[j] == rest[j - 1]);
                    } else {
                        assert(all[i] == rest[i - 1]);
                        assert(all[j] == rest[j - 1]);
                    }
                }
                assert forall|i: int| 0 <= i < all.len() implies {
                    &&& cursor <= (#[trigger] all[i]).0
                    &&& all[i].0 + 8 <= all[i].1
                    &&& all[i].1 <= end
                    &&& all[i].1 <= data.len()
                    &&& tag_at(data, all[i].0 + 4, kind)
                } by {
                    if i > 0 {
                        assert(all[i] == rest[i - 1]);
                    }
                }
            }
        },
    }
}

/// The size of the atom at `cursor` (see `atom_size_at`).
fn atom_size(data: &[u8], cursor: usize, end: usize) -> (r: Option<usize>)
    ensures
        match atom_size_at(data@, cursor as int, end as int) {
            Some(sz) => r == Some(sz as usize),
            None => r is None,
        },
{
    let len = data.len();
    if end < 8 || cursor > end - 8 || len < 8 || cursor > len - 8 {
        return None;
    }
    let size32 = read_be_u32(data, cursor);
    let size: usize = if size32 == 1 {
        if end < 16 || cursor > end - 16 || len < 16 || cursor > len - 16 {
            return None;
        }
        let size64 = read_be_u64(data, cursor + 8);
        if size64 > usize::MAX as u64 {
            return None;
        }
        size64 as usize
    } else if size32 == 0 {
        end - cursor
    } else {
        size32 as usize
    };
    if size < 8 || size > end - cursor || size > len - cursor {
        return None;
    }
    Some(size)
}

/// The children of kind `kind` of the region `data[start..end]`, in order, each as
/// `(start, end)`; the walk stops at the first malformed header.
pub fn find_child_atoms(data: &[u8], start: usize, end: usize, kind: [u8; 4]) -> (r: Vec<
    (usize, usize),
>)
    ensures
        r@ == child_atoms(data@, start as int, end as int, kind@),
        well_placed_atoms(data@, r@, start as int, end as int, kind@),
{
    let _len = data.len();
    proof {
        lemma_child_atoms_well_placed(data@, start as int, end as int, kind@);
    }
    let mut atoms: Vec<(usize, usize)> = Vec::new();
    let mut cursor = start;
    assert(atoms@ + child_atoms(data@, cursor as int, end as int, kind@) =~= child_atoms(
        data@,
        start as int,
        end as int,
        kind@,
    ));
    loop
        invariant
            well_placed_atoms(
                data@,
                child_atoms(data@, start as int, end as int, kind@),
                start as int,
                end as int,
                kind@,
            ),
            child_atoms(data@, start as int, end as int, kind@) == atoms@ + child_atoms(
                data@,
                cursor as int,
                end as int,
                kind@,
            ),
        decreases end - cursor,
    {
        match atom_size(data, cursor, end) {
            None => {
                assert(atoms@ + child_atoms(data@, cursor as int, end as int, kind@) =~= atoms@);
                return atoms;
            },
            Some(size) => {
                let ghost old_atoms = atoms@;
                if has_tag_at(data, cursor + 4, kind) {
                    atoms.push((cursor, cursor + size));
                    assert(old_atoms + child_atoms(data@, cursor as int, end as int, kind@)
                        =~= atoms@ + child_atoms(data@, (cursor + size) as int, end as int, kind@));
                } else {
                    assert(old_atoms + child_atoms(data@, cursor as int, end as int, kind@)
                        =~= atoms@ + child_atoms(data@, (cursor + size) as int, end as int, kind@));
                }
                cursor = cursor + size;
            },
        }
    }
}

/// Where the body of the atom at `start` begins: after its 8-byte header, or its 16-byte
/// header when it carries a 64-bit size.
pub open spec fn body_start_at(data: Seq<u8>, start: int) -> Option<int> {
    if start + 8 > data.len() {
        None
    } else if be_u32(data, start) == 1 {
        Some(start + 16)
    } else {
        Some(start + 8)
    }
}

pub fn mp4_atom_body_start(data: &[u8], start: usize) -> (r: Option<usize>)
    requires
        buffer_len_ok(data@.len() as int),
    ensures
        match body_start_at(data@, start as int) {
            Some(b) => r == Some(b as usize),
            None => r is None,
        },
{
    if start > data.len() || data.len() - start < 8 {
        return None;
    }
    let size32 = read_be_u32(data, start);
    Some(
        if size32 == 1 {
            start + 16
        } else {
            start + 8
        },
    )
}

/// Where the body of `atom` begins (`atom.0 + 8` where its header cannot be read).
pub open spec fn atom_body(data: Seq<u8>, atom: (usize, usize)) -> int {
    match body_start_at(data, atom.0 as int) {
        Some(b) => b,
        None => sat_add(atom.0 as int, 8),
    }
}

pub fn atom_body_start(data: &[u8], atom: (usize, usize)) -> (r: usize)
    requires
        buffer_len_ok(data@.len() as int),
    ensures
        r == atom_body(data@, atom),
{
    match mp4_atom_body_start(data, atom.0) {
        Some(b) => b,
        None => atom.0.saturating_add(8),
    }
}

/// The atom reached from `parent` by taking, for each kind of `path` in turn, the first child
/// of that kind.
pub open spec fn atom_path(data: Seq<u8>, parent: (usize, usize), path: Seq<[u8; 4]>) -> Option<
    (usize, usize),
>
    decreases path.len(),
{
    if path.len() == 0 {
        Some(parent)
    } else {
        let kids = child_atoms(data, atom_body(data, parent), parent.1 as int, path[0]@);
        if kids.len() == 0 {
            None
        } else {
            atom_path(data, kids[0], path.drop_first())
        }
    }
}

pub fn find_atom_path(data: &[u8], parent: (usize, usize), path: &[[u8; 4]]) -> (r: Option<
    (usize, usize),
>)
    requires
        buffer_len_ok(data@.len() as int),
    ensures
        r == atom_path(data@, parent, path@),
{
    let mut current = parent;
    let mut i: usize = 0;
    assert(path@.subrange(0, path@.len() as int) =~= path@);
    while i < path.len()
        invariant
            i <= path@.len(),
            buffer_len_ok(data@.len() as int),
            atom_path(data@, parent, path@) == atom_path(
                data@,
                current,
                path@.subrange(i as int, path@.len() as int),
            ),
        decreases path.len() - i,
    {
        let ghost rest = path@.subrange(i as int, path@.len() as int);
        assert(rest[0] == path@[i as int]);
        assert(rest.drop_first() =~= path@.subrange(i + 1, path@.len() as int));
        let body = atom_body_start(data, current);
        let kids = find_child_atoms(data, body, current.1, path[i]);
        if kids.len() == 0 {
            return None;
        }
        current = kids[0];
        i += 1;
    }
    assert(path@.subrange(i as int, path@.len() as int).len() == 0);
    Some(current)
}

/// The codec four-character code of the first sample entry of an `stsd` atom, its four
/// bytes read as a big-endian number.
pub open spec fn stsd_codec(data: Seq<u8>, atom: (usize, usize)) -> Option<u32> {
    let body = atom_body(data, atom);
    if body + 8 > usize::MAX || body + 16 > usize::MAX {
        None
    } else if body + 16 > atom.1 || body + 16 > data.len() {
        None
    } else {
        Some(be_u32(data, body + 12))
    }
}

/// The codec four-character code of the first sample entry of the `stsd` atom `atom`
/// (such as `avc1` or `mp4a`), its four bytes read as a big-endian number.
pub fn mp4_stsd_codec(data: &[u8], atom: (usize, usize)) -> (r: Option<u32>)
    requires
        buffer_len_ok(data@.len() as int),
    ensures
        r == stsd_codec(data@, atom),
{
    let body = atom_body_start(data, atom);
    let entry_start = match body.checked_add(8) {
        Some(v) => v,
        None => return None,
    };
    let entry_end = match entry_start.checked_add(8) {
        Some(v) => v,
        None => return None,
    };
    if entry_end > atom.1 || entry_end > data.len() {
        return None;
    }
    Some(read_be_u32(data, entry_start + 4))
}

/// Sample sizes of an `stsz` atom: the common size repeated for every sample, or the table,
/// cut at what the atom and the buffer hold.
pub open spec fn stsz_sizes(data: Seq<u8>, atom: (usize, usize)) -> Seq<u32> {
    let body = atom_body(data, atom);
    if body + 12 > atom.1 || body + 12 > data.len() {
        Seq::empty()
    } else {
        let sample_size = be_u32(data, body + 4);
        let count = be_u32(data, body + 8) as int;
        if sample_size > 0 {
            Seq::new(count as nat, |i: int| sample_size)
        } else {
            let table = body + 12;
            let n = min_int(count, min_int(atom.1 - table, data.len() - table) / 4);
            Seq::new(n as nat, |i: int| be_u32(data, table + 4 * i))
        }
    }
}

pub open spec fn min_int(a: int, b: int) -> int {
    if a <= b {
        a
    } else {
        b
    }
}

/// Chunk offsets of an `stco` atom, cut at what the atom and the buffer hold.
pub open spec fn stco_offsets(data: Seq<u8>, atom: (usize, usize)) -> Seq<u64> {
    let body = atom_body(data, atom);
    if body + 8 > atom.1 || body + 8 > data.len() {
        Seq::empty()
    } else {
        let count = be_u32(data, body + 4) as int;
        let table = body + 8;
        let n = min_int(count, min_int(atom.1 - table, data.len() - table) / 4);
        Seq::new(n as nat, |i: int| be_u32(data, table + 4 * i) as u64)
    }
}

/// Sample-to-chunk entries of an `stsc` atom, cut at what the atom and the buffer hold.
pub open spec fn stsc_entries(data: Seq<u8>, atom: (usize, usize)) -> Seq<(u32, u32, u32)> {
    let body = atom_body(data, atom);
    if body + 8 > atom.1 || body + 8 > data.len() {
        Seq::empty()
    } else {
        let count = be_u32(data, body + 4) as int;
        let table = body + 8;
        let n = min_int(count, min_int(atom.1 - table, data.len() - table) / 12);
        Seq::new(
            n as nat,
            |i: int|
                (
                    be_u32(data, table + 12 * i),
                    be_u32(data, table + 12 * i + 4),
                    be_u32(data, table + 12 * i + 8),
                ),
        )
    }
}

pub fn parse_mp4_stsz(data: &[u8], atom: (usize, usize)) -> (r: Vec<u32>)
    requires
        buffer_len_ok(data@.len() as int),
    ensures
        r@ == stsz_sizes(data@, atom),
{
    let body = atom_body_start(data, atom);
    if body > atom.1 || atom.1 - body < 12 || body > data.len() || data.len() - body < 12 {
        return Vec::new();
    }
    let sample_size = read_be_u32(data, body + 4);
    let count = read_be_u32(data, body + 8) as usize;
    if sample_size > 0 {
        let v = vec![sample_size; count];
        assert(v@ =~= stsz_sizes(data@, atom));
        return v;
    }
    let table = body + 12;
    let available = if atom.1 - table < data.len() - table {
        atom.1 - table
    } else {
        data.len() - table
    } / 4;
    let n = if count < available {
        count
    } else {
        available
    };
    let mut out: Vec<u32> = Vec::new();
    let mut i: usize = 0;
    let mut pos = table;
    while i < n
        invariant
            i <= n,
            n as int == min_int(count as int, min_int(atom.1 - table, data@.len() - table) / 4),
            table <= data@.len(),
            pos == table + 4 * i,
            out@ == Seq::new(i as nat, |k: int| be_u32(data@, table + 4 * k)),
        decreases n - i,
    {
        out.push(read_be_u32(data, pos));
        i += 1;
        pos += 4;
        assert(out@ =~= Seq::new(i as nat, |k: int| be_u32(data@, table + 4 * k)));
    }
    assert(out@ =~= stsz_sizes(data@, atom));
    out
}

pub fn parse_mp4_stco(data: &[u8], atom: (usize, usize)) -> (r: Vec<u64>)
    requires
        buffer_len_ok(data@.len() as int),
    ensures
        r@ == stco_offsets(data@, atom),
{
    let body = atom_body_start(data, atom);
    if body > atom.1 || atom.1 - body < 8 || body > data.len() || data.len() - body < 8 {
        return Vec::new();
    }
    let count = read_be_u32(data, body + 4) as usize;
    let table = body + 8;
    let available = if atom.1 - table < data.len() - table {
        atom.1 - table
    } else {
        data.len() - table
    } / 4;
    let n = if count < available {
        count
    } else {
        available
    };
    let mut out: Vec<u64> = Vec::new();
    let mut i: usize = 0;
    let mut pos = table;
    while i < n
        invariant
            i <= n,
            n as int == min_int(count as int, min_int(atom.1 - table, data@.len() - table) / 4),
            table <= data@.len(),
            pos == table + 4 * i,
            out@ == Seq::new(i as nat, |k: int| be_u32(data@, table + 4 * k) as u64),
        decreases n - i,
    {
        out.push(read_be_u32(data, pos) as u64);
        i += 1;
        pos += 4;
        assert(out@ =~= Seq::new(i as nat, |k: int| be_u32(data@, table + 4 * k) as u64));
    }
    assert(out@ =~= stco_offsets(data@, atom));
    out
}

pub fn parse_mp4_stsc(data: &[u8], atom: (usize, usize)) -> (r: Vec<(u32, u32, u32)>)
    requires
        buffer_len_ok(data@.len() as int),
    ensures
        r@ == stsc_entries(data@, atom),
{
    let body = atom_body_start(data, atom);
    if body > atom.1 || atom.1 - body < 8 || body > data.len() || data.len() - body < 8 {
        return Vec::new();
    }
    let count = read_be_u32(data, body + 4) as usize;
    let table = body + 8;
    let available = if atom.1 - table < data.len() - table {
        atom.1 - table
    } else {
        data.len() - table
    } / 12;
    let n = if count < available {
        count
    } else {
        available
    };
    let mut out: Vec<(u32, u32, u32)> = Vec::new();
    let mut i: usize = 0;
    let mut pos = table;
    while i < n
        invariant
            i <= n,
            n as int == min_int(count as int, min_int(atom.1 - table, data@.len() - table) / 12),
            table <= data@.len(),
            pos == table + 12 * i,
            out@ == Seq::new(
                i as nat,
                |k: int|
                    (
                        be_u32(data@, table + 12 * k),
                        be_u32(data@, table + 12 * k + 4),
                        be_u32(data@, table + 12 * k + 8),
                    ),
            ),
        decreases n - i,
    {
        let entry = (read_be_u32(data, pos), read_be_u32(data, pos + 4), read_be_u32(data, pos + 8));
        out.push(entry);
        i += 1;
        pos += 12;
        assert(out@ =~= Seq::new(
            i as nat,
            |k: int|
                (
                    be_u32(data@, table + 12 * k),
                    be_u32(data@, table + 12 * k + 4),
                    be_u32(data@, table + 12 * k + 8),
                ),
        ));
    }
    assert(out@ =~= stsc_entries(data@, atom));
    out
}

/// The file offset of a track's first sample: its first chunk's offset.
pub fn first_mp4_sample_offset(chunk_offsets: &[u64], stsc: &[(u32, u32, u32)]) -> (r: Option<
    u64,
>)
    ensures
        r == (if chunk_offsets@.len() == 0 {
            None
        } else {
            Some(chunk_offsets@[0])
        }),
{
    if chunk_offsets.len() == 0 {
        return None;
    }
    if (stsc.len() > 0 && stsc[0].0 == 1 && stsc[0].1 > 0) || stsc.len() == 0 {
        return Some(chunk_offsets[0]);
    }
    Some(chunk_offsets[0])
}


/// `avc1`, the H.264 sample entry.
pub open spec fn CODEC_AVC1() -> u32 {
    0x6176_6331
}

/// `mp4a`, the AAC sample entry.
pub open spec fn CODEC_MP4A() -> u32 {
    0x6d70_3461
}

pub open spec fn kind_seq(k: u32) -> Seq<u8> {
    seq![(k / 0x100_0000) as u8, ((k / 0x1_0000) % 0x100) as u8, ((k / 0x100) % 0x100) as u8, (k % 0x100) as u8]
}

/// The four bytes of a kind written as a big-endian number.
pub fn kind_bytes(k: u32) -> (r: [u8; 4])
    ensures
        r@ == kind_seq(k),
{
    let r = [(k / 0x100_0000) as u8, ((k / 0x1_0000) % 0x100) as u8, ((k / 0x100) % 0x100) as u8, (k % 0x100) as u8];
    assert(r@ =~= kind_seq(k));
    r
}

pub open spec fn KIND_TRAK() -> u32 { 0x7472_616b }
pub open spec fn KIND_MDIA() -> u32 { 0x6d64_6961 }
pub open spec fn KIND_MINF() -> u32 { 0x6d69_6e66 }
pub open spec fn KIND_STBL() -> u32 { 0x7374_626c }
pub open spec fn KIND_STSD() -> u32 { 0x7374_7364 }
pub open spec fn KIND_STSZ() -> u32 { 0x7374_737a }
pub open spec fn KIND_STCO() -> u32 { 0x7374_636f }
pub open spec fn KIND_STSC() -> u32 { 0x7374_7363 }
pub open spec fn KIND_MVHD() -> u32 { 0x6d76_6864 }

/// The path `mdia/minf/stbl` from a `trak` atom to its sample table.
pub open spec fn stbl_path() -> Seq<[u8; 4]> {
    seq![[0x6du8, 0x64, 0x69, 0x61], [0x6du8, 0x69, 0x6e, 0x66], [0x73u8, 0x74, 0x62, 0x6c]]
}

/// What a track's sample table tells: its codec, sample count, and where and how large its
/// first sample is.
#[derive(Clone, Copy, Debug)]
pub struct Mp4TrackSummary {
    /// Four-character code of the first sample entry, read as a big-endian number;
    /// `None` where the track has no readable `stsd` entry.
    pub codec: Option<u32>,
    pub sample_count: usize,
    pub first_sample_offset: Option<u64>,
    pub first_sample_size: Option<u32>,
}

/// The first child of kind `kind` of `parent`'s body, if any.
pub open spec fn first_child(data: Seq<u8>, parent: (usize, usize), kind: u32) -> Option<(usize, usize)> {
    let kids = child_atoms(data, atom_body(data, parent), parent.1 as int, kind_seq(kind));
    if kids.len() > 0 {
        Some(kids[0])
    } else {
        None
    }
}

/// The summary of the track whose `trak` atom is `trak`, or `None` where it has no
/// `mdia/minf/stbl`.
pub open spec fn track_summary(data: Seq<u8>, trak: (usize, usize)) -> Option<Mp4TrackSummary> {
    match atom_path(data, trak, stbl_path()) {
        None => None,
        Some(stbl) => {
            let codec = match first_child(data, stbl, KIND_STSD()) {
                Some(a) => stsd_codec(data, a),
                None => None,
            };
            let sizes = match first_child(data, stbl, KIND_STSZ()) {
                Some(a) => stsz_sizes(data, a),
                None => Seq::empty(),
            };
            let offsets = match first_child(data, stbl, KIND_STCO()) {
                Some(a) => stco_offsets(data, a),
                None => Seq::empty(),
            };
            Some(
                Mp4TrackSummary {
                    codec,
                    sample_count: sizes.len() as usize,
                    first_sample_offset: if offsets.len() > 0 {
                        Some(offsets[0])
                    } else {
                        None
                    },
                    first_sample_size: if sizes.len() > 0 {
                        Some(sizes[0])
                    } else {
                        None
                    },
                },
            )
        },
    }
}

/// Summaries of the tracks of `traks`, in order, skipping those without a sample table.
pub open spec fn track_summaries(data: Seq<u8>, traks: Seq<(usize, usize)>) -> Seq<Mp4TrackSummary>
    decreases traks.len(),
{
    if traks.len() == 0 {
        Seq::empty()
    } else {
        let prev = track_summaries(data, traks.drop_last());
        match track_summary(data, traks.last()) {
            Some(t) => prev.push(t),
            None => prev,
        }
    }
}

/// Where the children of the `moov` atom at the start of `data` begin.
pub open spec fn moov_body(data: Seq<u8>) -> int {
    match body_start_at(data, 0) {
        Some(b) => b,
        None => 8,
    }
}

/// The summaries of the tracks of the `moov` atom that `moov_data` holds.
pub open spec fn moov_tracks(moov_data: Seq<u8>) -> Seq<Mp4TrackSummary> {
    track_summaries(
        moov_data,
        child_atoms(moov_data, moov_body(moov_data), moov_data.len() as int, kind_seq(KIND_TRAK())),
    )
}

fn first_child_exec(data: &[u8], parent: (usize, usize), kind: u32) -> (r: Option<(usize, usize)>)
    requires
        buffer_len_ok(data@.len() as int),
    ensures
        r == first_child(data@, parent, kind),
{
    let body = atom_body_start(data, parent);
    let kids = find_child_atoms(data, body, parent.1, kind_bytes(kind));
    if kids.len() > 0 {
        Some(kids[0])
    } else {
        None
    }
}

fn summarize_track(data: &[u8], trak: (usize, usize)) -> (r: Option<Mp4TrackSummary>)
    requires
        buffer_len_ok(data@.len() as int),
    ensures
        r == track_summary(data@, trak),
{
    let path = [[0x6du8, 0x64, 0x69, 0x61], [0x6du8, 0x69, 0x6e, 0x66], [0x73u8, 0x74, 0x62, 0x6c]];
    assert(path@ =~= stbl_path());
    let stbl = match find_atom_path(data, trak, &path) {
        Some(a) => a,
        None => return None,
    };
    let codec = match first_child_exec(data, stbl, 0x7374_7364) {
        Some(a) => mp4_stsd_codec(data, a),
        None => None,
    };
    let sizes = match first_child_exec(data, stbl, 0x7374_737a) {
        Some(a) => parse_mp4_stsz(data, a),
        None => Vec::new(),
    };
    let offsets = match first_child_exec(data, stbl, 0x7374_636f) {
        Some(a) => parse_mp4_stco(data, a),
        None => Vec::new(),
    };
    let stsc = match first_child_exec(data, stbl, 0x7374_7363) {
        Some(a) => parse_mp4_stsc(data, a),
        None => Vec::new(),
    };
    let first_sample_offset = first_mp4_sample_offset(offsets.as_slice(), stsc.as_slice());
    let first_sample_size = if sizes.len() > 0 {
        Some(sizes[0])
    } else {
        None
    };
    Some(
        Mp4TrackSummary {
            codec,
            sample_count: sizes.len(),
            first_sample_offset,
            first_sample_size,
        },
    )
}

/// Summaries of the tracks (`trak` atoms) of the `moov` atom that `moov_data` holds, in
/// order; a track without `mdia/minf/stbl` is left out.
pub fn summarize_mp4_tracks(moov_data: &[u8]) -> (r: Vec<Mp4TrackSummary>)
    requires
        buffer_len_ok(moov_data@.len() as int),
    ensures
        r@ == moov_tracks(moov_data@),
{
    let body = match mp4_atom_body_start(moov_data, 0) {
        Some(b) => b,
        None => 8,
    };
    let traks = find_child_atoms(moov_data, body, moov_data.len(), kind_bytes(0x7472_616b));
    let mut tracks: Vec<Mp4TrackSummary> = Vec::new();
    let mut i: usize = 0;
    while i < traks.len()
        invariant
            i <= traks@.len(),
            buffer_len_ok(moov_data@.len() as int),
            tracks@ == track_summaries(moov_data@, traks@.take(i as int)),
        decreases traks.len() - i,
    {
        assert(traks@.take(i + 1).drop_last() =~= traks@.take(i as int));
        assert(traks@.take(i + 1).last() == traks@[i as int]);
        match summarize_track(moov_data, traks[i]) {
            Some(t) => tracks.push(t),
            None => {},
        }
        i += 1;
    }
    assert(traks@.take(traks@.len() as int) =~= traks@);
    tracks
}

/// The movie duration and timescale of the `mvhd` atom of a `moov` buffer; `None` where they
/// cannot be read, the timescale is zero, or the duration is zero.
pub open spec fn mvhd_duration(data: Seq<u8>) -> Option<(u64, u32)> {
    let mvhds = child_atoms(data, moov_body(data), data.len() as int, kind_seq(KIND_MVHD()));
    if mvhds.len() == 0 {
        None
    } else {
        let mvhd = mvhds[0];
        let start = atom_body(data, mvhd);
        if start >= mvhd.1 || start >= data.len() {
            None
        } else {
            let v1 = data[start] == 1;
            let ts_off = if v1 { start + 20 } else { start + 12 };
            let d_off = if v1 { start + 24 } else { start + 16 };
            let d_size: int = if v1 { 8 } else { 4 };
            if d_off + d_size > usize::MAX {
                None
            } else if ts_off + 4 > mvhd.1 || d_off + d_size > mvhd.1 || d_off + d_size > data.len() {
                None
            } else {
                let timescale = be_u32(data, ts_off);
                let duration: u64 = if v1 { be_u64(data, d_off) } else { be_u32(data, d_off) as u64 };
                if timescale == 0 || duration == 0 {
                    None
                } else {
                    Some((duration, timescale))
                }
            }
        }
    }
}

/// The movie duration and timescale recorded in the `mvhd` atom of the `moov` buffer
/// `moov_data` (the duration in seconds is their quotient); `None` where they cannot be read
/// or one of them is zero.
pub fn mp4_duration_from_moov(moov_data: &[u8]) -> (r: Option<(u64, u32)>)
    requires
        buffer_len_ok(moov_data@.len() as int),
    ensures
        r == mvhd_duration(moov_data@),
{
    let body = match mp4_atom_body_start(moov_data, 0) {
        Some(b) => b,
        None => 8,
    };
    let mvhds = find_child_atoms(moov_data, body, moov_data.len(), kind_bytes(0x6d76_6864));
    if mvhds.len() == 0 {
        return None;
    }
    let mvhd = mvhds[0];
    let start = atom_body_start(moov_data, mvhd);
    if start >= mvhd.1 || start >= moov_data.len() {
        return None;
    }
    let version = moov_data[start];
    let (timescale_offset, duration_offset, duration_size) = if version == 1 {
        (start + 20, start + 24, 8usize)
    } else {
        (start + 12, start + 16, 4usize)
    };
    if duration_offset > usize::MAX - duration_size {
        return None;
    }
    if timescale_offset + 4 > mvhd.1 || duration_offset + duration_size > mvhd.1
        || duration_offset + duration_size > moov_data.len() {
        return None;
    }
    let timescale = read_be_u32(moov_data, timescale_offset);
    if timescale == 0 {
        return None;
    }
    let duration = if duration_size == 8 {
        read_be_u64(moov_data, duration_offset)
    } else {
        read_be_u32(moov_data, duration_offset) as u64
    };
    if duration == 0 {
        return None;
    }
    Some((duration, timescale))
}


/// Whether `data` holds one of `markers` anywhere.
pub open spec fn has_any_marker(data: Seq<u8>, markers: Seq<[u8; 4]>) -> bool {
    exists|m: int, i: int| 0 <= m < markers.len() && #[trigger] tag_at(data, i, markers[m]@)
}

/// Whether any of the four-byte `markers` occurs anywhere in `data`.
pub fn contains_any_atom_marker(data: &[u8], markers: &[[u8; 4]]) -> (r: bool)
    ensures
        r == has_any_marker(data@, markers@),
{
    let mut m: usize = 0;
    while m < markers.len()
        invariant
            m <= markers@.len(),
            forall|j: int, i: int| 0 <= j < m ==> !#[trigger] tag_at(data@, i, markers@[j]@),
        decreases markers.len() - m,
    {
        let mut i: usize = 0;
        while i <= data.len() && data.len() - i >= 4
            invariant
                i <= data.len(),
                m < markers@.len(),
                forall|k: int| 0 <= k < i ==> !#[trigger] tag_at(data@, k, markers@[m as int]@),
            decreases data.len() - i,
        {
            if has_tag_at(data, i, markers[m]) {
                assert(tag_at(data@, i as int, markers@[m as int]@));
                return true;
            }
            i += 1;
        }
        assert forall|k: int| !#[trigger] tag_at(data@, k, markers@[m as int]@) by {
            if 0 <= k && k + 4 <= data@.len() {
                assert(k < i);
            }
        }
        m += 1;
    }
    false
}

/// A sample that starts as an AVCC NAL unit: a non-zero 4-byte length that fits in the
/// sample, then a NAL header of type 1, 5, 6, 7, 8 or 9.
pub open spec fn avcc_h264_head(bytes: Seq<u8>) -> bool {
    bytes.len() >= 5 && {
        let size = be_u32(bytes, 0) as int;
        let nal_type = bytes[4] & 0x1f;
        &&& size > 0
        &&& size <= bytes.len() - 4
        &&& (nal_type == 1 || nal_type == 5 || nal_type == 6 || nal_type == 7 || nal_type == 8
            || nal_type == 9)
    }
}

pub fn looks_like_avcc_h264_sample(bytes: &[u8]) -> (r: bool)
    ensures
        r == avcc_h264_head(bytes@),
{
    if bytes.len() < 5 {
        return false;
    }
    let size = read_be_u32(bytes, 0) as usize;
    let nal_type = bytes[4] & 0x1f;
    size > 0 && size <= bytes.len() - 4 && (nal_type == 1 || nal_type == 5 || nal_type == 6
        || nal_type == 7 || nal_type == 8 || nal_type == 9)
}

/// A sample that starts with an ADTS sync word.
pub open spec fn adts_aac_head(bytes: Seq<u8>) -> bool {
    bytes.len() >= 2 && bytes[0] == 0xff && (bytes[1] & 0xf0) == 0xf0
}

pub fn looks_like_aac_sample(bytes: &[u8]) -> (r: bool)
    ensures
        r == adts_aac_head(bytes@),
{
    bytes.len() >= 2 && bytes[0] == 0xff && (bytes[1] & 0xf0) == 0xf0
}

/// The bytes of `s` in two-digit lower-case hexadecimal, separated by single spaces.
pub open spec fn hex_join(s: Seq<u8>) -> Seq<char>
    decreases s.len(),
{
    if s.len() == 0 {
        Seq::empty()
    } else if s.len() == 1 {
        hex_byte(s[0])
    } else {
        hex_join(s.drop_last()).push(' ') + hex_byte(s.last())
    }
}

/// The first 16 bytes of `bytes` (or all of them, if fewer) as two-digit lower-case
/// hexadecimal, separated by single spaces.
pub fn hex_head(bytes: &[u8]) -> (r: String)
    ensures
        r@ == hex_join(bytes@.take(if bytes@.len() < 16 { bytes@.len() as int } else { 16 })),
{
    let n = if bytes.len() < 16 {
        bytes.len()
    } else {
        16
    };
    let mut out = String::new();
    let mut i: usize = 0;
    while i < n
        invariant
            i <= n <= bytes@.len(),
            out@ == hex_join(bytes@.take(i as int)),
        decreases n - i,
    {
        let ghost prev = bytes@.take(i as int);
        assert(bytes@.take(i + 1).drop_last() =~= prev);
        if i > 0 {
            push_char(&mut out, ' ');
        }
        push_hex_byte(&mut out, bytes[i]);
        i += 1;
        proof {
            if i == 1 {
                assert(out@ =~= hex_byte(bytes@[0]));
            }
        }
    }
    out
}

/// The atom kinds whose bodies are sequences of child atoms.
pub open spec fn container_kinds() -> Seq<u32> {
    seq![
        0x6d6f_6f76u32, // moov
        0x7472_616b, // trak
        0x6d64_6961, // mdia
        0x6d69_6e66, // minf
        0x7374_626c, // stbl
        0x6564_7473, // edts
        0x6469_6e66, // dinf
        0x7564_7461, // udta
        0x6d65_7461, // meta
        0x696c_7374, // ilst
        0x6d6f_6f66, // moof
        0x7472_6166, // traf
    ]
}

/// Whether atoms of this kind (four bytes read as a big-endian number) hold child atoms.
pub fn is_mp4_container_atom(kind: u32) -> (r: bool)
    ensures
        r == container_kinds().contains(kind),
{
    let r = kind == 0x6d6f_6f76 || kind == 0x7472_616b || kind == 0x6d64_6961 || kind
        == 0x6d69_6e66 || kind == 0x7374_626c || kind == 0x6564_7473 || kind == 0x6469_6e66
        || kind == 0x7564_7461 || kind == 0x6d65_7461 || kind == 0x696c_7374 || kind
        == 0x6d6f_6f66 || kind == 0x7472_6166;
    proof {
        let ks = container_kinds();
        if r {
            if kind == 0x6d6f_6f76 { assert(ks[0] == kind); }
            else if kind == 0x7472_616b { assert(ks[1] == kind); }
            else if kind == 0x6d64_6961 { assert(ks[2] == kind); }
            else if kind == 0x6d69_6e66 { assert(ks[3] == kind); }
            else if kind == 0x7374_626c { assert(ks[4] == kind); }
            else if kind == 0x6564_7473 { assert(ks[5] == kind); }
            else if kind == 0x6469_6e66 { assert(ks[6] == kind); }
            else if kind == 0x7564_7461 { assert(ks[7] == kind); }
            else if kind == 0x6d65_7461 { assert(ks[8] == kind); }
            else if kind == 0x696c_7374 { assert(ks[9] == kind); }
            else if kind == 0x6d6f_6f66 { assert(ks[10] == kind); }
            else { assert(ks[11] == kind); }
        }
    }
    r
}

} // verus!

//! How the media server serves a file: as it is, as the packets of its transport stream runs
//! joined into one stream, or as an HLS playlist with one segment per run.
use vstd::prelude::*;
use crate::http::{content_length, content_length_of, opt_text, parse_range, range_of};
use crate::mpegts::{lemma_runs_total_nonneg, lemma_runs_total_prefix, run_bytes, run_size, runs_total, TsPacketRun};
use crate::media_types::{ext_view, mime_for_path, mime_of};
use crate::sniff::DetectedFormat;
use crate::text::{ascii_lower, decimal, decimal_string, eq_text, chars_of, push_text, to_ascii_lower};

verus! {

/// How a file is served.
#[derive(Clone, Copy, Debug, PartialEq, Eq, Structural)]
pub enum SourceKind {
    /// The file's bytes as they are.
    File,
    /// The bytes of its transport-stream runs, one after another.
    TsVirtual,
    /// An HLS playlist, one segment per run.
    HlsTs,
}

/// What the server does with a file.
#[derive(Clone, Debug)]
pub struct MediaSourcePlan {
    pub mime: String,
    pub kind: SourceKind,
    /// Whether an MP4 should first get its `moov` box moved to the front.
    pub try_faststart: bool,
}

/// The MIME type, kind and faststart decision for a file of MIME type `mime`, for which
/// transport-stream runs (`has_ts_runs`) and HLS segments (`has_hls_segments`) were found or
/// not: segments make an HLS playlist, runs alone a joined stream, neither the file itself,
/// and only a file served as `video/mp4` is considered for faststart.
pub fn plan_media_source(mime: &str, has_ts_runs: bool, has_hls_segments: bool) -> (r: MediaSourcePlan)
    ensures
        has_hls_segments ==> r.mime@ == "application/vnd.apple.mpegurl"@ && r.kind == SourceKind::HlsTs,
        !has_hls_segments ==> r.mime@ == mime@,
        !has_hls_segments && has_ts_runs ==> r.kind == SourceKind::TsVirtual,
        !has_hls_segments && !has_ts_runs ==> r.kind == SourceKind::File,
        r.try_faststart == (r.kind == SourceKind::File && r.mime@ == "video/mp4"@),
{
    let mut m = String::new();
    if has_hls_segments {
        push_text(&mut m, "application/vnd.apple.mpegurl");
    } else {
        push_text(&mut m, mime);
    }
    let kind = if has_hls_segments {
        SourceKind::HlsTs
    } else if has_ts_runs {
        SourceKind::TsVirtual
    } else {
        SourceKind::File
    };
    let try_faststart = kind == SourceKind::File && eq_text(&chars_of(m.as_str()), "video/mp4");
    MediaSourcePlan { mime: m, kind, try_faststart }
}

/// The size of the stream served for a file of `size` bytes: the total of its runs when it is
/// served from them.
pub fn served_size(runs: Option<&Vec<TsPacketRun>>, size: u64) -> (r: u64)
    requires
        match runs {
            Some(v) => runs_total(v@) <= u64::MAX,
            None => true,
        },
    ensures
        r == match runs {
            Some(v) => runs_total(v@),
            None => size as int,
        },
{
    match runs {
        Some(v) => crate::mpegts::ts_virtual_size(v.as_slice()),
        None => size,
    }
}


/// What an external player is given.
#[derive(Clone, Copy, Debug, PartialEq, Eq, Structural)]
pub enum ExternalPlayback {
    /// The file itself.
    Unchanged,
    /// The fast-start copy just prepared.
    Faststart,
    /// A copy of the file under an `.mp4` name.
    CopyToCache,
}

/// Whether a file is prepared as MP4 before an external player gets it: it is served as
/// `video/mp4`.
pub fn external_playback_needs_mp4(extension: Option<&str>, detected: Option<DetectedFormat>) -> (r: bool)
    ensures
        r == (mime_of(ext_view(extension), detected) == "video/mp4"@),
{
    eq_text(&chars_of(mime_for_path(extension, detected)), "video/mp4")
}

/// What an external player is given for a file with the extension `extension` whose first
/// bytes showed `detected`, where `faststart_ready` tells whether a fast-start copy was made:
/// anything not served as MP4 as it is; else the fast-start copy; else the file where its
/// extension already says MP4 (`mp4` or `m4v`, any ASCII case); else a copy with an MP4 name.
pub fn prepare_external_playback_path(extension: Option<&str>, detected: Option<DetectedFormat>, faststart_ready: bool) -> (r: ExternalPlayback)
    ensures
        mime_of(ext_view(extension), detected) != "video/mp4"@ ==> r == ExternalPlayback::Unchanged,
        mime_of(ext_view(extension), detected) == "video/mp4"@ ==> r == (if faststart_ready {
            ExternalPlayback::Faststart
        } else if extension is Some && (ascii_lower(extension->0@) == "mp4"@ || ascii_lower(extension->0@) == "m4v"@) {
            ExternalPlayback::Unchanged
        } else {
            ExternalPlayback::CopyToCache
        }),
{
    if !external_playback_needs_mp4(extension, detected) {
        return ExternalPlayback::Unchanged;
    }
    if faststart_ready {
        return ExternalPlayback::Faststart;
    }
    if let Some(e) = extension {
        let lower = to_ascii_lower(&chars_of(e));
        if eq_text(&lower, "mp4") || eq_text(&lower, "m4v") {
            return ExternalPlayback::Unchanged;
        }
    }
    ExternalPlayback::CopyToCache
}

/// The playlist's target duration from each segment's duration rounded up: the longest, and at
/// least one second.
pub open spec fn target_duration_of(ceilings: Seq<u64>) -> u64
    decreases ceilings.len(),
{
    if ceilings.len() == 0 {
        1
    } else {
        let m = target_duration_of(ceilings.drop_last());
        if ceilings.last() > m { ceilings.last() } else { m }
    }
}

pub fn hls_target_duration(ceilings: &Vec<u64>) -> (r: u64)
    ensures
        r == target_duration_of(ceilings@),
        r >= 1,
        forall|i: int| 0 <= i < ceilings@.len() ==> ceilings@[i] <= r,
{
    let mut m: u64 = 1;
    let mut i: usize = 0;
    while i < ceilings.len()
        invariant
            i <= ceilings@.len(),
            m == target_duration_of(ceilings@.take(i as int)),
            m >= 1,
            forall|k: int| 0 <= k < i ==> ceilings@[k] <= m,
        decreases ceilings.len() - i,
    {
        assert(ceilings@.take(i + 1).drop_last() =~= ceilings@.take(i as int));
        if ceilings[i] > m {
            m = ceilings[i];
        }
        i += 1;
    }
    assert(ceilings@.take(ceilings@.len() as int) =~= ceilings@);
    m
}

/// The playlist's header.
pub open spec fn hls_head(target: u64) -> Seq<char> {
    "#EXTM3U\n#EXT-X-VERSION:3\n#EXT-X-PLAYLIST-TYPE:VOD\n#EXT-X-TARGETDURATION:"@ + decimal(target as nat)
        + "\n#EXT-X-MEDIA-SEQUENCE:0\n"@
}

/// The playlist entry of segment `i`, which lasts `duration` (as text) and is served under
/// `token`; every segment after the first follows a discontinuity.
pub open spec fn hls_entry(token: Seq<char>, duration: Seq<char>, i: nat) -> Seq<char> {
    (if i > 0 { "#EXT-X-DISCONTINUITY\n"@ } else { Seq::empty() }) + "#EXTINF:"@ + duration + ",\n"@
        + "/media/"@ + token + "/segment/"@ + decimal(i) + ".ts\n"@
}

/// The entries of the first `n` segments.
pub open spec fn hls_entries(token: Seq<char>, durations: Seq<Seq<char>>, n: nat) -> Seq<char>
    decreases n,
{
    if n == 0 {
        Seq::empty()
    } else {
        hls_entries(token, durations, (n - 1) as nat) + hls_entry(token, durations[n - 1], (n - 1) as nat)
    }
}

/// The HLS playlist of the segments whose durations are `durations` (already written with three
/// decimals).
pub open spec fn hls_playlist_text(token: Seq<char>, target: u64, durations: Seq<Seq<char>>) -> Seq<char> {
    hls_head(target) + hls_entries(token, durations, durations.len()) + "#EXT-X-ENDLIST\n"@
}

pub open spec fn duration_texts(v: Seq<String>) -> Seq<Seq<char>> {
    v.map_values(|s: String| s@)
}

/// The HLS playlist for the file served under `token` (see `hls_playlist_text`).
pub fn hls_playlist(token: &str, target_duration: u64, durations: &Vec<String>) -> (r: String)
    ensures
        r@ == hls_playlist_text(token@, target_duration, duration_texts(durations@)),
{
    let mut s = String::new();
    push_text(&mut s, "#EXTM3U\n#EXT-X-VERSION:3\n#EXT-X-PLAYLIST-TYPE:VOD\n#EXT-X-TARGETDURATION:");
    push_text(&mut s, decimal_string(target_duration).as_str());
    push_text(&mut s, "\n#EXT-X-MEDIA-SEQUENCE:0\n");
    let ghost head = s@;
    assert(head =~= hls_head(target_duration));
    let mut i: usize = 0;
    while i < durations.len()
        invariant
            i <= durations@.len(),
            s@ == head + hls_entries(token@, duration_texts(durations@), i as nat),
        decreases durations.len() - i,
    {
        let ghost before = s@;
        if i > 0 {
            push_text(&mut s, "#EXT-X-DISCONTINUITY\n");
        }
        push_text(&mut s, "#EXTINF:");
        push_text(&mut s, durations[i].as_str());
        push_text(&mut s, ",\n");
        push_text(&mut s, "/media/");
        push_text(&mut s, token);
        push_text(&mut s, "/segment/");
        push_text(&mut s, decimal_string(i as u64).as_str());
        push_text(&mut s, ".ts\n");
        proof {
            assert(duration_texts(durations@)[i as int] == durations@[i as int]@);
            assert(s@ =~= before + hls_entry(token@, durations@[i as int]@, i as nat));
        }
        i += 1;
    }
    push_text(&mut s, "#EXT-X-ENDLIST\n");
    s
}

/// What the server sends for a segment request: the byte range `start..=end` of the segment
/// (`partial` for a `206` answer), where it begins in the file, and how many bytes go out.
#[derive(Clone, Copy, Debug)]
pub struct SegmentResponse {
    pub size: u64,
    pub start: u64,
    pub end: u64,
    pub partial: bool,
    pub seek: u64,
    pub length: u64,
}

/// The response to a request for segment `index` (a run of the file) with the `Range` header
/// `range_header`; `None` where there is no such segment (a `404`).
pub fn hls_segment_plan(segments: &[TsPacketRun], index: usize, range_header: Option<&str>) -> (r: Option<SegmentResponse>)
    ensures
        index >= segments@.len() ==> r is None,
        index < segments@.len() ==> (r matches Some(p) && {
            let seg = segments@[index as int];
            let size = run_bytes(seg);
            let (start, end, partial) = range_of(opt_text(range_header), size as u64);
            &&& p.size == size
            &&& p.start == start
            &&& p.end == end
            &&& p.partial == partial
            &&& p.seek == seg.start + start
            &&& p.length == content_length_of(start, end)
        }),
{
    if index >= segments.len() {
        return None;
    }
    let seg = segments[index];
    let size = run_size(&seg);
    match parse_range(range_header, size) {
        Ok((start, end, partial)) => {
            let length = content_length(start, end);
            Some(SegmentResponse { size, start, end, partial, seek: seg.start as u64 + start, length })
        },
        Err(_) => None,
    }
}

/// The pieces `(file offset, length)` that make up `remaining` bytes of the joined stream from
/// its offset `voff`, where the runs `runs` begin at offset `base` of that stream.
pub open spec fn virtual_pieces(runs: Seq<TsPacketRun>, base: int, voff: int, remaining: int) -> Seq<(int, int)>
    decreases runs.len(),
{
    if runs.len() == 0 || remaining <= 0 {
        Seq::empty()
    } else {
        let sz = run_bytes(runs[0]);
        if voff >= base + sz {
            virtual_pieces(runs.drop_first(), base + sz, voff, remaining)
        } else {
            let off = voff - base;
            let n = if sz - off < remaining { sz - off } else { remaining };
            seq![(runs[0].start + off, n)] + virtual_pieces(runs.drop_first(), base + sz, voff + n, remaining - n)
        }
    }
}

pub open spec fn pieces_view(v: Seq<(u64, u64)>) -> Seq<(int, int)> {
    v.map_values(|p: (u64, u64)| (p.0 as int, p.1 as int))
}

/// Total length of pieces.
pub open spec fn pieces_len(p: Seq<(int, int)>) -> int
    decreases p.len(),
{
    if p.len() == 0 {
        0
    } else {
        p[0].1 + pieces_len(p.drop_first())
    }
}

proof fn lemma_runs_total_front(runs: Seq<TsPacketRun>)
    requires
        runs.len() > 0,
    ensures
        runs_total(runs) == run_bytes(runs[0]) + runs_total(runs.drop_first()),
    decreases runs.len(),
{
    if runs.len() > 1 {
        lemma_runs_total_front(runs.drop_last());
        assert(runs.drop_last().drop_first() =~= runs.drop_first().drop_last());
        assert(runs.drop_last()[0] == runs[0]);
        assert(runs.drop_first().last() == runs.last());
    } else {
        assert(runs_total(runs.drop_first()) == 0);
        assert(runs_total(runs.drop_last()) == 0);
    }
}

proof fn lemma_pieces_concat_len(a: (int, int), t: Seq<(int, int)>)
    ensures
        pieces_len(seq![a] + t) == a.1 + pieces_len(t),
{
    assert((seq![a] + t).drop_first() =~= t);
}

/// The joined stream hands out exactly the bytes it has: from offset `voff` (at or past the
/// runs' own start `base` when anything is asked), a request for `remaining` bytes gets `remaining` of them, or all
/// that is left after `voff` where fewer are left.
pub proof fn lemma_virtual_pieces_len(runs: Seq<TsPacketRun>, base: int, voff: int, remaining: int)
    requires
        remaining > 0 ==> base <= voff,
        remaining >= 0,
    ensures
        ({
            let left = base + runs_total(runs) - voff;
            pieces_len(virtual_pieces(runs, base, voff, remaining)) == if left <= 0 {
                0
            } else if left < remaining {
                left
            } else {
                remaining
            }
        }),
    decreases runs.len(),
{
    lemma_runs_total_nonneg(runs);
    if runs.len() == 0 || remaining <= 0 {
    } else {
        lemma_runs_total_front(runs);
        lemma_runs_total_nonneg(runs.drop_first());
        let sz = run_bytes(runs[0]);
        if voff >= base + sz {
            lemma_virtual_pieces_len(runs.drop_first(), base + sz, voff, remaining);
        } else {
            let off = voff - base;
            let n = if sz - off < remaining { sz - off } else { remaining };
            lemma_virtual_pieces_len(runs.drop_first(), base + sz, voff + n, remaining - n);
            lemma_pieces_concat_len(
                (runs[0].start + off, n),
                virtual_pieces(runs.drop_first(), base + sz, voff + n, remaining - n),
            );
        }
    }
}

/// Every piece lies inside one of the runs it was taken from.
pub proof fn lemma_virtual_pieces_inside(runs: Seq<TsPacketRun>, base: int, voff: int, remaining: int)
    requires
        remaining > 0 ==> base <= voff,
    ensures
        forall|k: int| 0 <= k < virtual_pieces(runs, base, voff, remaining).len() ==> exists|j: int|
            0 <= j < runs.len() && runs[j].start <= (#[trigger] virtual_pieces(runs, base, voff, remaining)[k]).0
                && virtual_pieces(runs, base, voff, remaining)[k].0 + virtual_pieces(runs, base, voff, remaining)[k].1
                <= runs[j].end && virtual_pieces(runs, base, voff, remaining)[k].1 > 0,
    decreases runs.len(),
{
    let p = virtual_pieces(runs, base, voff, remaining);
    if runs.len() == 0 || remaining <= 0 {
    } else {
        let sz = run_bytes(runs[0]);
        let rest = runs.drop_first();
        if voff >= base + sz {
            lemma_virtual_pieces_inside(rest, base + sz, voff, remaining);
            assert forall|k: int| 0 <= k < p.len() implies exists|j: int|
                0 <= j < runs.len() && runs[j].start <= (#[trigger] p[k]).0 && p[k].0 + p[k].1 <= runs[j].end && p[k].1 > 0 by {
                let q = virtual_pieces(rest, base + sz, voff, remaining);
                assert(p[k] == q[k]);
                let j = choose|j: int| 0 <= j < rest.len() && rest[j].start <= q[k].0 && q[k].0 + q[k].1 <= rest[j].end && q[k].1 > 0;
                assert(rest[j] == runs[j + 1]);
            }
        } else {
            let off = voff - base;
            let n = if sz - off < remaining { sz - off } else { remaining };
            let q = virtual_pieces(rest, base + sz, voff + n, remaining - n);
            lemma_virtual_pieces_inside(rest, base + sz, voff + n, remaining - n);
            assert forall|k: int| 0 <= k < p.len() implies exists|j: int|
                0 <= j < runs.len() && runs[j].start <= (#[trigger] p[k]).0 && p[k].0 + p[k].1 <= runs[j].end && p[k].1 > 0 by {
                if k == 0 {
                    assert(p[0] == (runs[0].start + off, n));
                } else {
                    assert(p[k] == q[k - 1]);
                    let j = choose|j: int| 0 <= j < rest.len() && rest[j].start <= (#[trigger] q[k - 1]).0 && q[k - 1].0 + q[k - 1].1 <= rest[j].end && q[k - 1].1 > 0;
                    assert(rest[j] == runs[j + 1]);
                }
            }
        }
    }
}

/// The pieces of the file that make up `length` bytes of the joined stream of `runs` from its
/// offset `start` (see `virtual_pieces`); the server reads and sends them in order.
pub fn ts_virtual_pieces(runs: &[TsPacketRun], start: u64, length: u64) -> (r: Vec<(u64, u64)>)
    requires
        runs_total(runs@) <= u64::MAX,
    ensures
        pieces_view(r@) == virtual_pieces(runs@, 0, start as int, length as int),
{
    let mut out: Vec<(u64, u64)> = Vec::new();
    let mut base: u64 = 0;
    let mut voff: u64 = start;
    let mut remaining: u64 = length;
    let mut i: usize = 0;
    proof {
        assert(runs@.skip(0) =~= runs@);
        assert(runs@.take(0) =~= Seq::<TsPacketRun>::empty());
        assert(pieces_view(out@) + virtual_pieces(runs@, 0, start as int, length as int) =~= virtual_pieces(runs@, 0, start as int, length as int));
    }
    while i < runs.len() && remaining > 0
        invariant
            i <= runs@.len(),
            runs_total(runs@) <= u64::MAX,
            base == runs_total(runs@.take(i as int)),
            remaining > 0 ==> base <= voff,
            pieces_view(out@) + virtual_pieces(runs@.skip(i as int), base as int, voff as int, remaining as int)
                == virtual_pieces(runs@, 0, start as int, length as int),
        decreases runs.len() - i,
    {
        let ghost rest = runs@.skip(i as int);
        proof {
            lemma_runs_total_prefix(runs@, i + 1);
            assert(runs@.take(i + 1).drop_last() =~= runs@.take(i as int));
            assert(rest[0] == runs@[i as int]);
            assert(rest.drop_first() =~= runs@.skip(i + 1));
        }
        let run = runs[i];
        let sz = run_size(&run);
        if voff >= base + sz {
            base = base + sz;
        } else {
            let off = voff - base;
            let n = if sz - off < remaining { sz - off } else { remaining };
            let ghost before = pieces_view(out@);
            out.push((run.start as u64 + off, n));
            proof {
                assert(pieces_view(out@) =~= before.push((run.start + off, n as int)));
                assert(before.push((run.start + off, n as int)) + virtual_pieces(rest.drop_first(), base + sz, voff + n, remaining - n)
                    =~= before + (seq![(run.start + off, n as int)] + virtual_pieces(rest.drop_first(), base + sz, voff + n, remaining - n)));
            }
            remaining = remaining - n;
            voff = voff + n;
            base = base + sz;
        }
        i += 1;
    }
    proof {
        assert(virtual_pieces(runs@.skip(i as int), base as int, voff as int, remaining as int) =~= Seq::<(int, int)>::empty());
        assert(pieces_view(out@) + Seq::<(int, int)>::empty() =~= pieces_view(out@));
    }
    out
}

} // verus!

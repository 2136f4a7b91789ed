//! Subtitle files next to a video, and turning SubRip subtitles into WebVTT for the player.
use vstd::prelude::*;
use crate::text::{
    ascii_lower, chars_of, contains, contains_text, first_index_of, lemma_first_index_of,
    push_chars, push_char, push_text, replace_char, string_of, to_ascii_lower, eq_text,
};

verus! {

/// `l` without one trailing carriage return.
pub open spec fn strip_cr(l: Seq<char>) -> Seq<char> {
    if l.len() > 0 && l.last() == '\r' {
        l.drop_last()
    } else {
        l
    }
}

/// The lines of `s` as `str::lines` gives them: split at each `\n`, a `\r` before it dropped,
/// and no empty line after a final `\n`.
pub open spec fn text_lines(s: Seq<char>) -> Seq<Seq<char>>
    decreases s.len(),
{
    if s.len() == 0 {
        Seq::empty()
    } else {
        match first_index_of(s, '\n') {
            None => seq![s],
            Some(i) => {
                proof {
                    lemma_first_index_of(s, '\n');
                }
                seq![strip_cr(s.subrange(0, i))] + text_lines(s.subrange(i + 1, s.len() as int))
            },
        }
    }
}

/// A cue line keeps WebVTT's `.` before milliseconds; other lines are kept as they are.
pub open spec fn vtt_line(l: Seq<char>) -> Seq<char> {
    if contains(l, "-->"@) {
        replace_char(l, ',', '.')
    } else {
        l
    }
}

/// Each line converted and ended with `\n`.
pub open spec fn vtt_body(lines: Seq<Seq<char>>) -> Seq<char>
    decreases lines.len(),
{
    if lines.len() == 0 {
        Seq::empty()
    } else {
        vtt_line(lines[0]) + "\n"@ + vtt_body(lines.drop_first())
    }
}

/// The WebVTT text for SubRip text `s`.
pub open spec fn vtt_of(s: Seq<char>) -> Seq<char> {
    "WEBVTT\n\n"@ + vtt_body(text_lines(s))
}

proof fn lemma_vtt_body_cons(a: Seq<char>, t: Seq<Seq<char>>)
    ensures
        vtt_body(seq![a] + t) == vtt_line(a) + "\n"@ + vtt_body(t),
{
    assert((seq![a] + t).drop_first() =~= t);
    assert((seq![a] + t)[0] == a);
}

fn convert_line(v: &Vec<char>, from: usize, to: usize) -> (r: Vec<char>)
    requires
        from <= to <= v@.len(),
    ensures
        r@ == vtt_line(v@.subrange(from as int, to as int)),
{
    let mut line: Vec<char> = Vec::new();
    let mut k: usize = from;
    while k < to
        invariant
            from <= k <= to <= v@.len(),
            line@ == v@.subrange(from as int, k as int),
        decreases to - k,
    {
        line.push(v[k]);
        k += 1;
        assert(line@ =~= v@.subrange(from as int, k as int));
    }
    if !contains_text(&line, "-->") {
        return line;
    }
    let mut out: Vec<char> = Vec::new();
    let mut i: usize = 0;
    while i < line.len()
        invariant
            i <= line@.len(),
            out@ == replace_char(line@.subrange(0, i as int), ',', '.'),
        decreases line.len() - i,
    {
        let c = line[i];
        out.push(if c == ',' { '.' } else { c });
        i += 1;
        assert(out@ =~= replace_char(line@.subrange(0, i as int), ',', '.'));
    }
    assert(line@.subrange(0, line@.len() as int) =~= line@);
    out
}

/// The WebVTT text for the SubRip text `content`: a `WEBVTT` header, then every line, with
/// `,` turned into `.` in cue timing lines (those holding `-->`).
pub fn srt_to_vtt(content: &str) -> (r: String)
    ensures
        r@ == vtt_of(content@),
{
    let v = chars_of(content);
    let n = v.len();
    let mut out = String::new();
    push_text(&mut out, "WEBVTT\n\n");
    let ghost head = out@;
    let ghost mut done: Seq<char> = Seq::empty();
    let mut pos: usize = 0;
    proof {
        assert(v@.subrange(0, n as int) =~= v@);
        assert(done + vtt_body(text_lines(v@)) =~= vtt_body(text_lines(v@)));
    }
    while pos < n
        invariant
            n == v@.len(),
            pos <= n,
            out@ == head + done,
            head == "WEBVTT\n\n"@,
            done + vtt_body(text_lines(v@.subrange(pos as int, n as int))) == vtt_body(text_lines(v@)),
        decreases n - pos,
    {
        let ghost rest = v@.subrange(pos as int, n as int);
        let mut j: usize = pos;
        while j < n && v[j] != '\n'
            invariant
                pos <= j <= n,
                n == v@.len(),
                forall|k: int| pos <= k < j ==> v@[k] != '\n',
            decreases n - j,
        {
            j += 1;
        }
        proof {
            lemma_first_index_of(rest, '\n');
        }
        let end = if j < n && j > pos && v[j - 1] == '\r' { j - 1 } else { j };
        let line = convert_line(&v, pos, end);
        push_chars(&mut out, &line);
        push_char(&mut out, '\n');
        proof {
            let l = v@.subrange(pos as int, end as int);
            if j < n {
                match first_index_of(rest, '\n') {
                    Some(i) => {
                        if i < j - pos {
                            assert(rest[i] == v@[pos + i]);
                        }
                        if i > j - pos {
                            assert(rest[j - pos] == v@[j as int]);
                        }
                        assert(i == j - pos);
                    },
                    None => {
                        assert(rest[j - pos] == v@[j as int]);
                    },
                }
                assert(strip_cr(rest.subrange(0, j - pos)) =~= l);
                assert(rest.subrange(j - pos + 1, rest.len() as int) =~= v@.subrange(j + 1, n as int));
                assert(text_lines(rest) == seq![l] + text_lines(v@.subrange(j + 1, n as int)));
                lemma_vtt_body_cons(l, text_lines(v@.subrange(j + 1, n as int)));
            } else {
                assert forall|k: int| 0 <= k < rest.len() implies rest[k] != '\n' by {
                    assert(rest[k] == v@[pos + k]);
                }
                assert(first_index_of(rest, '\n') is None);
                assert(l =~= rest);
                assert(text_lines(rest) == seq![rest]);
                assert(v@.subrange(n as int, n as int).len() == 0);
                assert(text_lines(v@.subrange(n as int, n as int)) =~= Seq::<Seq<char>>::empty());
                lemma_vtt_body_cons(l, Seq::empty());
                assert(seq![rest] + Seq::<Seq<char>>::empty() =~= seq![rest]);
            }
            reveal_strlit("\n");
            let old_done = done;
            done = done + vtt_line(l) + "\n"@;
            assert(out@ =~= head + done);
            let next = if j < n { v@.subrange(j + 1, n as int) } else { v@.subrange(n as int, n as int) };
            assert(done + vtt_body(text_lines(next)) =~= old_done + (vtt_line(l) + "\n"@ + vtt_body(text_lines(next))));
        }
        pos = if j < n { j + 1 } else { n };
    }
    proof {
        assert(v@.subrange(0, n as int) =~= v@);
        assert(v@.subrange(n as int, n as int).len() == 0);
        assert(text_lines(v@.subrange(n as int, n as int)) =~= Seq::<Seq<char>>::empty());
        assert(done + Seq::<char>::empty() =~= done);
    }
    out
}

/// The subtitle formats looked for next to a video.
#[derive(Clone, Copy, Debug, PartialEq, Eq, Structural)]
pub enum SubtitleFormat {
    Vtt,
    Srt,
    Ass,
}

/// The file extension of a format.
pub open spec fn format_ext(f: SubtitleFormat) -> Seq<char> {
    match f {
        SubtitleFormat::Vtt => "vtt"@,
        SubtitleFormat::Srt => "srt"@,
        SubtitleFormat::Ass => "ass"@,
    }
}

pub fn subtitle_extension(format: SubtitleFormat) -> (r: &'static str)
    ensures
        r@ == format_ext(format),
{
    match format {
        SubtitleFormat::Vtt => "vtt",
        SubtitleFormat::Srt => "srt",
        SubtitleFormat::Ass => "ass",
    }
}

/// The order in which subtitle files are looked for.
pub fn subtitle_search_order() -> (r: Vec<SubtitleFormat>)
    ensures
        r@ == seq![SubtitleFormat::Vtt, SubtitleFormat::Srt, SubtitleFormat::Ass],
{
    let mut v: Vec<SubtitleFormat> = Vec::new();
    v.push(SubtitleFormat::Vtt);
    v.push(SubtitleFormat::Srt);
    v.push(SubtitleFormat::Ass);
    v
}

/// The name of the subtitle file of `format` for a video whose name without extension is
/// `stem`.
pub fn subtitle_file_name(stem: &str, format: SubtitleFormat) -> (r: String)
    ensures
        r@ == stem@ + "."@ + format_ext(format),
{
    let mut s = String::new();
    push_text(&mut s, stem);
    push_text(&mut s, ".");
    push_text(&mut s, subtitle_extension(format));
    s
}

/// A subtitle file found next to a video.
#[derive(Clone, Debug)]
pub struct SubtitleTrackInfo {
    pub label: String,
    pub path: String,
    pub format: String,
}

/// The label of a track: the format in capitals and "字幕".
pub open spec fn track_label(f: SubtitleFormat) -> Seq<char> {
    match f {
        SubtitleFormat::Vtt => "VTT 字幕"@,
        SubtitleFormat::Srt => "SRT 字幕"@,
        SubtitleFormat::Ass => "ASS 字幕"@,
    }
}

/// The track for a subtitle file of `format` found at `path` (its display text).
pub fn subtitle_track(format: SubtitleFormat, path: &str) -> (r: SubtitleTrackInfo)
    ensures
        r.label@ == track_label(format),
        r.path@ == path@,
        r.format@ == format_ext(format),
{
    let label = match format {
        SubtitleFormat::Vtt => String::from_str("VTT 字幕"),
        SubtitleFormat::Srt => String::from_str("SRT 字幕"),
        SubtitleFormat::Ass => String::from_str("ASS 字幕"),
    };
    let mut p = String::new();
    push_text(&mut p, path);
    let mut f = String::new();
    push_text(&mut f, subtitle_extension(format));
    SubtitleTrackInfo { label, path: p, format: f }
}

/// How a subtitle file is handed to the player.
#[derive(Clone, Copy, Debug, PartialEq, Eq, Structural)]
pub enum SubtitleDelivery {
    /// WebVTT, served as it is.
    AsIs,
    /// SubRip, converted to WebVTT first.
    FromSrt,
}

/// What happens to a subtitle file with the lower-cased extension `format`.
pub open spec fn delivery_of(format: Seq<char>) -> Result<SubtitleDelivery, Seq<char>> {
    if format == "vtt"@ {
        Ok(SubtitleDelivery::AsIs)
    } else if format == "srt"@ {
        Ok(SubtitleDelivery::FromSrt)
    } else if format == "ass"@ {
        Err("ASS 字幕当前不能由内置浏览器播放器直接渲染，可通过 mpv 兜底播放"@)
    } else {
        Err("当前字幕格式暂不支持"@)
    }
}

pub open spec fn subtitle_format_of(extension: Option<Seq<char>>) -> Seq<char> {
    match extension {
        Some(e) => ascii_lower(e),
        None => Seq::empty(),
    }
}

pub open spec fn opt_view(e: Option<&str>) -> Option<Seq<char>> {
    match e {
        Some(s) => Some(s@),
        None => None,
    }
}

/// The format (the extension, lower-cased) of a subtitle file and how it is handed to the
/// player, or the error for a format the player cannot show.
pub fn subtitle_source_plan(extension: Option<&str>) -> (r: Result<(String, SubtitleDelivery), String>)
    ensures
        match delivery_of(subtitle_format_of(opt_view(extension))) {
            Ok(d) => r matches Ok((f, rd)) && f@ == subtitle_format_of(opt_view(extension)) && rd == d,
            Err(e) => r matches Err(m) && m@ == e,
        },
{
    let format = match extension {
        Some(e) => to_ascii_lower(&chars_of(e)),
        None => Vec::new(),
    };
    if eq_text(&format, "vtt") {
        Ok((string_of(&format), SubtitleDelivery::AsIs))
    } else if eq_text(&format, "srt") {
        Ok((string_of(&format), SubtitleDelivery::FromSrt))
    } else if eq_text(&format, "ass") {
        Err(String::from_str("ASS 字幕当前不能由内置浏览器播放器直接渲染，可通过 mpv 兜底播放"))
    } else {
        Err(String::from_str("当前字幕格式暂不支持"))
    }
}

/// The MIME type subtitles are served with.
pub fn subtitle_mime() -> (r: &'static str)
    ensures
        r@ == "text/vtt; charset=utf-8"@,
{
    "text/vtt; charset=utf-8"
}

/// A subtitle file made ready for the player.
#[derive(Clone, Debug)]
pub struct SubtitleSourceInfo {
    pub url: String,
    pub mime: String,
    pub format: String,
}

/// The subtitle source served under `token` by the media server at `address`.
pub fn subtitle_source_info(address: &str, token: &str, format: String) -> (r: SubtitleSourceInfo)
    ensures
        r.url@ == "http://"@ + address@ + "/media/"@ + token@,
        r.mime@ == "text/vtt; charset=utf-8"@,
        r.format@ == format@,
{
    let mut url = String::new();
    push_text(&mut url, "http://");
    push_text(&mut url, address);
    push_text(&mut url, "/media/");
    push_text(&mut url, token);
    let mut mime = String::new();
    push_text(&mut mime, subtitle_mime());
    SubtitleSourceInfo { url, mime, format }
}

} // verus!

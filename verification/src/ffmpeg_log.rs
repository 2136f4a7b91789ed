//! Reading FFmpeg's output after a failed run: the few lines worth showing, and a one-line
//! diagnosis.
use vstd::prelude::*;
use crate::subtitles::{strip_cr, text_lines};
use crate::text::{
    ascii_lower, chars_of, contains, contains_text, first_index_of, lemma_first_index_of,
    push_text, replace_char, string_of, to_ascii_lower, trim, trim_chars,
};

verus! {

/// `s` with every space that directly follows a space dropped: each run of spaces becomes one.
pub open spec fn collapse_spaces(s: Seq<char>) -> Seq<char>
    decreases s.len(),
{
    if s.len() == 0 {
        Seq::empty()
    } else if s.len() >= 2 && s.last() == ' ' && s[s.len() - 2] == ' ' {
        collapse_spaces(s.drop_last())
    } else {
        collapse_spaces(s.drop_last()).push(s.last())
    }
}

/// The longest log line shown, in characters.
pub open spec fn max_log_line() -> nat {
    160
}

/// A log line as it is shown: tabs turned into spaces, runs of spaces made single, and cut to
/// 160 characters with `...` after the cut.
pub open spec fn compact_log_line(line: Seq<char>) -> Seq<char> {
    let v = collapse_spaces(replace_char(line, '\t', ' '));
    if v.len() <= max_log_line() {
        v
    } else {
        v.take(max_log_line() as int) + "..."@
    }
}

proof fn lemma_collapse_last(s: Seq<char>)
    ensures
        s.len() == 0 <==> collapse_spaces(s).len() == 0,
        s.len() > 0 ==> collapse_spaces(s).last() == s.last(),
    decreases s.len(),
{
    if s.len() > 0 {
        lemma_collapse_last(s.drop_last());
        if s.len() >= 2 && s.last() == ' ' && s[s.len() - 2] == ' ' {
            assert(s.drop_last().last() == s[s.len() - 2]);
        }
    }
}

/// The line `line` as it is shown in a failure message (see `compact_log_line`).
pub fn trim_ffmpeg_log_line(line: &str) -> (r: String)
    ensures
        r@ == compact_log_line(line@),
{
    let v = chars_of(line);
    let ghost t = replace_char(v@, '\t', ' ');
    let mut out: Vec<char> = Vec::new();
    let mut i: usize = 0;
    while i < v.len()
        invariant
            i <= v@.len(),
            t == replace_char(v@, '\t', ' '),
            out@ == collapse_spaces(t.take(i as int)),
        decreases v.len() - i,
    {
        let c = if v[i] == '\t' { ' ' } else { v[i] };
        proof {
            let p = t.take(i as int);
            let q = t.take(i as int + 1);
            assert(q.drop_last() =~= p);
            assert(q.last() == c);
            lemma_collapse_last(p);
            if i > 0 {
                assert(q[q.len() - 2] == p.last());
            }
        }
        if c == ' ' && out.len() > 0 && out[out.len() - 1] == ' ' {
        } else {
            out.push(c);
        }
        i += 1;
    }
    proof {
        assert(t.take(v@.len() as int) =~= t);
    }
    if out.len() <= 160 {
        return string_of(&out);
    }
    let mut s = String::new();
    let mut k: usize = 0;
    while k < 160
        invariant
            k <= 160,
            160 < out@.len(),
            s@ == out@.take(k as int),
        decreases 160 - k,
    {
        crate::text::push_char(&mut s, out[k]);
        k += 1;
        assert(s@ =~= out@.take(k as int));
    }
    push_text(&mut s, "...");
    s
}

/// Words that mark a log line as worth showing (matched in the lower-cased line).
pub open spec fn is_important_line(lower: Seq<char>) -> bool {
    contains(lower, "error"@) || contains(lower, "invalid"@) || contains(lower, "failed"@)
        || contains(lower, "not found"@) || contains(lower, "unsupported"@) || contains(
        lower,
        "could not"@,
    ) || contains(lower, "conversion failed"@)
}

/// Walking the lines `ls` (the last line of the log first) with `acc` collected so far: each
/// non-empty trimmed line with a marking word is compacted and kept unless already kept, until
/// three are kept.
pub open spec fn important_lines_from(ls: Seq<Seq<char>>, acc: Seq<Seq<char>>) -> Seq<Seq<char>>
    decreases ls.len(),
{
    if acc.len() >= 3 || ls.len() == 0 {
        acc
    } else {
        let t = trim(ls[0]);
        if t.len() == 0 || !is_important_line(ascii_lower(t)) {
            important_lines_from(ls.drop_first(), acc)
        } else {
            let c = compact_log_line(t);
            important_lines_from(ls.drop_first(), if acc.contains(c) { acc } else { acc.push(c) })
        }
    }
}

/// The (at most three) last distinct marked lines of the log `text`, in log order.
pub open spec fn important_ffmpeg_lines(text: Seq<char>) -> Seq<Seq<char>> {
    important_lines_from(text_lines(text).reverse(), Seq::empty()).reverse()
}

/// The texts of a list of strings.
pub open spec fn texts_of(v: Seq<String>) -> Seq<Seq<char>> {
    v.map_values(|s: String| s@)
}

/// The texts of a list of character vectors.
pub open spec fn chars_texts(v: Seq<Vec<char>>) -> Seq<Seq<char>> {
    v.map_values(|s: Vec<char>| s@)
}

/// The lines of `v` (see `text_lines`).
pub fn split_lines(v: &Vec<char>) -> (r: Vec<Vec<char>>)
    ensures
        chars_texts(r@) == text_lines(v@),
{
    let n = v.len();
    let mut out: Vec<Vec<char>> = Vec::new();
    let mut pos: usize = 0;
    proof {
        assert(v@.subrange(0, n as int) =~= v@);
        assert(chars_texts(out@) + text_lines(v@) =~= text_lines(v@));
    }
    while pos < n
        invariant
            n == v@.len(),
            pos <= n,
            chars_texts(out@) + text_lines(v@.subrange(pos as int, n as int)) == text_lines(v@),
        decreases n - pos,
    {
        let ghost rest = v@.subrange(pos as int, n as int);
        let mut j: usize = pos;
        while j < n && v[j] != '\n'
            invariant
                pos <= j <= n,
                n == v@.len(),
                forall|k: int| pos <= k < j ==> v@[k] != '\n',
            decreases n - j,
        {
            j += 1;
        }
        proof {
            lemma_first_index_of(rest, '\n');
        }
        let end = if j < n && j > pos && v[j - 1] == '\r' { j - 1 } else { j };
        let line = crate::text::sub_chars(v, pos, end);
        let ghost before = chars_texts(out@);
        out.push(line);
        proof {
            let l = v@.subrange(pos as int, end as int);
            assert(chars_texts(out@) =~= before.push(l));
            let next = if j < n { v@.subrange(j + 1, n as int) } else { v@.subrange(n as int, n as int) };
            if j < n {
                match first_index_of(rest, '\n') {
                    Some(i) => {
                        if i < j - pos {
                            assert(rest[i] == v@[pos + i]);
                        }
                        if i > j - pos {
                            assert(rest[j - pos] == v@[j as int]);
                        }
                        assert(i == j - pos);
                    },
                    None => {
                        assert(rest[j - pos] == v@[j as int]);
                    },
                }
                assert(strip_cr(rest.subrange(0, j - pos)) =~= l);
                assert(rest.subrange(j - pos + 1, rest.len() as int) =~= next);
                assert(text_lines(rest) == seq![l] + text_lines(next));
            } else {
                assert forall|k: int| 0 <= k < rest.len() implies rest[k] != '\n' by {
                    assert(rest[k] == v@[pos + k]);
                }
                assert(first_index_of(rest, '\n') is None);
                assert(l =~= rest);
                assert(next.len() == 0);
                assert(text_lines(next) =~= Seq::<Seq<char>>::empty());
                assert(text_lines(rest) =~= seq![l] + text_lines(next));
            }
            assert(chars_texts(out@) + text_lines(next) =~= before + text_lines(rest));
        }
        pos = if j < n { j + 1 } else { n };
    }
    proof {
        assert(v@.subrange(n as int, n as int).len() == 0);
        assert(text_lines(v@.subrange(n as int, n as int)) =~= Seq::<Seq<char>>::empty());
        assert(chars_texts(out@) + Seq::<Seq<char>>::empty() =~= chars_texts(out@));
    }
    out
}

fn important_chars(lower: &Vec<char>) -> (r: bool)
    ensures
        r == is_important_line(lower@),
{
    contains_text(lower, "error") || contains_text(lower, "invalid") || contains_text(lower, "failed")
        || contains_text(lower, "not found") || contains_text(lower, "unsupported") || contains_text(
        lower,
        "could not",
    ) || contains_text(lower, "conversion failed")
}

fn same_chars(a: &Vec<char>, b: &Vec<char>) -> (r: bool)
    ensures
        r == (a@ == b@),
{
    if a.len() != b.len() {
        return false;
    }
    let mut i: usize = 0;
    while i < a.len()
        invariant
            a@.len() == b@.len(),
            i <= a@.len(),
            forall|k: int| 0 <= k < i ==> a@[k] == b@[k],
        decreases a.len() - i,
    {
        if a[i] != b[i] {
            return false;
        }
        i += 1;
    }
    assert(a@ =~= b@);
    true
}

fn holds_line(acc: &Vec<Vec<char>>, c: &Vec<char>) -> (r: bool)
    ensures
        r == chars_texts(acc@).contains(c@),
{
    let mut i: usize = 0;
    while i < acc.len()
        invariant
            i <= acc@.len(),
            forall|k: int| 0 <= k < i ==> chars_texts(acc@)[k] != c@,
        decreases acc.len() - i,
    {
        if same_chars(&acc[i], c) {
            assert(chars_texts(acc@)[i as int] == c@);
            return true;
        }
        i += 1;
    }
    false
}

/// The lines of FFmpeg's log `text` worth showing (see `important_ffmpeg_lines`).
pub fn collect_important_ffmpeg_lines(text: &str) -> (r: Vec<String>)
    ensures
        texts_of(r@) == important_ffmpeg_lines(text@),
{
    let lines = split_lines(&chars_of(text));
    let ghost rev = text_lines(text@).reverse();
    let mut acc: Vec<Vec<char>> = Vec::new();
    let mut k: usize = 0;
    proof {
        assert(rev.skip(0) =~= rev);
        assert(chars_texts(acc@) =~= Seq::<Seq<char>>::empty());
    }
    while k < lines.len()
        invariant
            k <= lines@.len(),
            chars_texts(lines@) == text_lines(text@),
            rev == text_lines(text@).reverse(),
            important_lines_from(rev, Seq::empty()) == important_lines_from(rev.skip(k as int), chars_texts(acc@)),
        ensures
            acc@.len() >= 3 || k == lines@.len(),
        decreases lines.len() - k,
    {
        let ghost rest = rev.skip(k as int);
        if acc.len() >= 3 {
            break;
        }
        let line = &lines[lines.len() - 1 - k];
        proof {
            assert(rest[0] == chars_texts(lines@)[lines@.len() - 1 - k]);
            assert(rest.drop_first() =~= rev.skip(k as int + 1));
        }
        let t = trim_chars(line);
        if t.len() > 0 && important_chars(&to_ascii_lower(&t)) {
            let compact = trim_ffmpeg_log_line(string_of(&t).as_str());
            let cv = chars_of(compact.as_str());
            if !holds_line(&acc, &cv) {
                let ghost before = chars_texts(acc@);
                acc.push(cv);
                proof {
                    assert(chars_texts(acc@) =~= before.push(compact@));
                }
            }
        }
        k += 1;
    }
    proof {
        if k == lines@.len() {
            assert(rev.skip(k as int).len() == 0);
        }
        assert(important_lines_from(rev.skip(k as int), chars_texts(acc@)) == chars_texts(acc@));
    }
    let mut r: Vec<String> = Vec::new();
    let mut i: usize = acc.len();
    while i > 0
        invariant
            i <= acc@.len(),
            texts_of(r@) == chars_texts(acc@).reverse().take(acc@.len() - i),
        decreases i,
    {
        i -= 1;
        let s = string_of(&acc[i]);
        let ghost before = texts_of(r@);
        r.push(s);
        assert(chars_texts(acc@).reverse()[acc@.len() - i - 1] == acc@[i as int]@);
        assert(texts_of(r@) =~= before.push(acc@[i as int]@));
        assert(chars_texts(acc@).reverse().take(acc@.len() - i) =~= chars_texts(acc@).reverse().take(acc@.len() - i - 1).push(chars_texts(acc@).reverse()[acc@.len() - i - 1]));
        assert(texts_of(r@) =~= chars_texts(acc@).reverse().take(acc@.len() - i));
    }
    assert(chars_texts(acc@).reverse().take(acc@.len() as int) =~= chars_texts(acc@).reverse());
    r
}

/// The texts of `ls` joined by `sep`.
pub open spec fn joined(ls: Seq<Seq<char>>, sep: Seq<char>) -> Seq<char>
    decreases ls.len(),
{
    if ls.len() == 0 {
        Seq::empty()
    } else if ls.len() == 1 {
        ls[0]
    } else {
        joined(ls.drop_last(), sep) + sep + ls.last()
    }
}

/// `items` joined by `sep` (`[..].join(sep)`).
pub fn join_texts(items: &Vec<String>, sep: &str) -> (r: String)
    ensures
        r@ == joined(texts_of(items@), sep@),
{
    let mut s = String::new();
    let mut i: usize = 0;
    while i < items.len()
        invariant
            i <= items@.len(),
            s@ == joined(texts_of(items@).take(i as int), sep@),
        decreases items.len() - i,
    {
        let ghost before = texts_of(items@).take(i as int);
        if i > 0 {
            push_text(&mut s, sep);
        }
        push_text(&mut s, items[i].as_str());
        proof {
            let after = texts_of(items@).take(i as int + 1);
            assert(after.drop_last() =~= before);
            if i == 0 {
                assert(before.len() == 0);
            }
        }
        i += 1;
    }
    assert(texts_of(items@).take(items@.len() as int) =~= texts_of(items@));
    s
}

/// A one-line diagnosis of a failed FFmpeg run from its standard error and output: a known
/// decoding failure, else the lines worth showing joined by ` / `, else nothing.
pub open spec fn ffmpeg_failure_summary(stderr: Seq<char>, stdout: Seq<char>) -> Option<Seq<char>> {
    let combined = stderr + "\n"@ + stdout;
    let lower = ascii_lower(combined);
    if contains(lower, "invalid nal unit size"@) || contains(lower, "error splitting the input into nal units"@) {
        Some("文件容器像 MP4，但视频帧不是标准 H.264 NAL 数据"@)
    } else if contains(lower, "invalid data found when processing input"@) || contains(
        lower,
        "cannot determine format of input stream"@,
    ) || contains(lower, "inconsistent channel configuration"@) {
        Some("FFmpeg 能读到文件头，但音视频码流无法按标准格式解码，可能是专有封装或文件损坏"@)
    } else if important_ffmpeg_lines(combined).len() == 0 {
        None
    } else {
        Some(joined(important_ffmpeg_lines(combined), " / "@))
    }
}

/// The diagnosis of a failed FFmpeg run (see `ffmpeg_failure_summary`); `stderr` and `stdout`
/// are its output streams read as text.
pub fn summarize_ffmpeg_failure(stderr: &str, stdout: &str) -> (r: Option<String>)
    ensures
        match ffmpeg_failure_summary(stderr@, stdout@) {
            Some(m) => r matches Some(s) && s@ == m,
            None => r is None,
        },
{
    let mut combined = String::new();
    push_text(&mut combined, stderr);
    push_text(&mut combined, "\n");
    push_text(&mut combined, stdout);
    let lower = to_ascii_lower(&chars_of(combined.as_str()));
    if contains_text(&lower, "invalid nal unit size") || contains_text(&lower, "error splitting the input into nal units") {
        return Some(String::from_str("文件容器像 MP4，但视频帧不是标准 H.264 NAL 数据"));
    }
    if contains_text(&lower, "invalid data found when processing input") || contains_text(
        &lower,
        "cannot determine format of input stream",
    ) || contains_text(&lower, "inconsistent channel configuration") {
        return Some(String::from_str("FFmpeg 能读到文件头，但音视频码流无法按标准格式解码，可能是专有封装或文件损坏"));
    }
    let lines = collect_important_ffmpeg_lines(combined.as_str());
    if lines.len() == 0 {
        return None;
    }
    Some(join_texts(&lines, " / "))
}

} // verus!

//! The local media server's HTTP surface: request lines, routes, byte ranges, and the text of
//! response headers.
use vstd::prelude::*;
use crate::paths::is_hex_digit_char;
use crate::text::{
    lemma_decimal_reads_back, lemma_parse_decimal, lemma_split_once_absent, lemma_split_once_at,
    ascii_lower, chars_of, decimal, decimal_string, ends_with, eq_text, is_whitespace_char, is_ws,
    parse_u64, parse_u64_chars, parse_usize, parse_usize_chars, push_text, split_once,
    split_once_chars, starts_with, string_of, strip_prefix_text, strip_suffix_text, sub_chars,
    to_ascii_lower, trim, trim_chars,
};

verus! {

/// The view of an optional text.
pub open spec fn opt_text(h: Option<&str>) -> Option<Seq<char>> {
    match h {
        Some(s) => Some(s@),
        None => None,
    }
}

pub open spec fn u64_or(v: Option<u64>, d: u64) -> u64 {
    match v {
        Some(x) => x,
        None => d,
    }
}

/// The byte range `(start, end, partial)` (both ends inclusive) that a `Range` header asks of
/// a body of `size` bytes: `bytes=a-b`, `bytes=a-` or the suffix form `bytes=-n`, with bounds
/// clamped into the body; anything else (or no header) means the whole body.
pub open spec fn range_of(h: Option<Seq<char>>, size: u64) -> (u64, u64, bool) {
    if size == 0 {
        (0, 0, false)
    } else {
        let whole = (0u64, (size - 1) as u64, false);
        match h {
            None => whole,
            Some(text) => if !starts_with(text, "bytes="@) {
                whole
            } else {
                match split_once(text.subrange(6, text.len() as int), '-') {
                    None => whole,
                    Some((start_text, end_text)) => if start_text.len() == 0 {
                        let suffix = u64_or(parse_u64(end_text), 0);
                        let suffix = if suffix < size { suffix } else { size };
                        ((size - suffix) as u64, (size - 1) as u64, true)
                    } else {
                        let start = u64_or(parse_u64(start_text), 0);
                        let start = if start < size - 1 { start } else { (size - 1) as u64 };
                        let end = if end_text.len() == 0 {
                            (size - 1) as u64
                        } else {
                            let e = u64_or(parse_u64(end_text), (size - 1) as u64);
                            if e < size - 1 { e } else { (size - 1) as u64 }
                        };
                        (start, if end > start { end } else { start }, true)
                    },
                }
            },
        }
    }
}

/// The byte range that the `Range` header `range_header` asks of a body of `size` bytes, as
/// `(start, end, partial)` with both ends inclusive (see `range_of`). For a non-empty body the
/// range ends inside it and is never negative in length; it is empty (`start == end + 1`) only
/// for the zero-length suffix `bytes=-0`.
pub fn parse_range(range_header: Option<&str>, size: u64) -> (r: Result<(u64, u64, bool), String>)
    ensures
        r == Ok::<(u64, u64, bool), String>(range_of(opt_text(range_header), size)),
        size > 0 ==> (r matches Ok((start, end, _)) && start <= end + 1 && end < size),
{
    if size == 0 {
        return Ok((0, 0, false));
    }
    let whole = (0u64, size - 1, false);
    let text = match range_header {
        Some(h) => chars_of(h),
        None => return Ok(whole),
    };
    let rest = match strip_prefix_text(&text, "bytes=") {
        Some(r) => r,
        None => return Ok(whole),
    };
    proof {
        reveal_strlit("bytes=");
    }
    let (start_text, end_text) = match split_once_chars(&rest, '-') {
        Some(p) => p,
        None => return Ok(whole),
    };
    if start_text.len() == 0 {
        let suffix = match parse_u64_chars(&end_text) {
            Some(v) => v,
            None => 0,
        };
        let suffix = if suffix < size {
            suffix
        } else {
            size
        };
        return Ok((size - suffix, size - 1, true));
    }
    let start = match parse_u64_chars(&start_text) {
        Some(v) => v,
        None => 0,
    };
    let start = if start < size - 1 {
        start
    } else {
        size - 1
    };
    let end = if end_text.len() == 0 {
        size - 1
    } else {
        let e = match parse_u64_chars(&end_text) {
            Some(v) => v,
            None => size - 1,
        };
        if e < size - 1 {
            e
        } else {
            size - 1
        }
    };
    Ok((
        start,
        if end > start {
            end
        } else {
            start
        },
        true,
    ))
}


/// A request for the bytes `a..=b` of a body of `size` bytes, with both ends inside it, is
/// answered with exactly those bytes: the range read is `(a, b)`, partial, and it is
/// `b - a + 1` bytes long.
pub proof fn lemma_range_request_exact(a: u64, b: u64, size: u64)
    requires
        a <= b < size,
    ensures
        range_of(Some("bytes="@ + decimal(a as nat) + "-"@ + decimal(b as nat)), size) == (a, b, true),
        content_length_of(a, b) == b - a + 1,
{
    reveal_strlit("bytes=");
    reveal_strlit("-");
    let da = decimal(a as nat);
    let db = decimal(b as nat);
    let text = "bytes="@ + da + "-"@ + db;
    assert(text.subrange(0, 6) =~= "bytes="@);
    assert(text.subrange(6, text.len() as int) =~= da + seq!['-'] + db);
    lemma_decimal_reads_back(a as nat);
    lemma_split_once_at(da, '-', db);
    lemma_parse_decimal(a as nat);
    lemma_parse_decimal(b as nat);
}

/// A request for the last `n` bytes of a body of `size` bytes (`bytes=-n`, `0 < n <= size`)
/// is answered with exactly those `n` bytes.
pub proof fn lemma_suffix_request_exact(n: u64, size: u64)
    requires
        0 < n <= size,
    ensures
        range_of(Some("bytes=-"@ + decimal(n as nat)), size) == ((size - n) as u64, (size - 1) as u64, true),
        content_length_of((size - n) as u64, (size - 1) as u64) == n,
{
    reveal_strlit("bytes=-");
    reveal_strlit("bytes=");
    let dn = decimal(n as nat);
    let text = "bytes=-"@ + dn;
    assert(text.subrange(0, 6) =~= "bytes="@);
    assert(text.subrange(6, text.len() as int) =~= Seq::<char>::empty() + seq!['-'] + dn);
    lemma_split_once_at(Seq::empty(), '-', dn);
    lemma_parse_decimal(n as nat);
}

/// The extensions a media address can carry: empty, or a dot and letters, never a `/`.
proof fn lemma_url_extension_shape(mime: Seq<char>)
    ensures
        url_extension(mime).len() == 0 || url_extension(mime)[0] == '.',
        forall|k: int| 0 <= k < url_extension(mime).len() ==> url_extension(mime)[k] != '/' && !is_ws(url_extension(mime)[k]),
{
    reveal_strlit(".mp4");
    reveal_strlit(".webm");
    reveal_strlit(".ogv");
    reveal_strlit(".mp3");
    reveal_strlit(".wav");
    reveal_strlit(".ogg");
    reveal_strlit(".flac");
    reveal_strlit(".pdf");
    reveal_strlit(".docx");
    reveal_strlit(".xlsx");
    reveal_strlit(".pptx");
    reveal_strlit(".m3u8");
    reveal_strlit("");
}

/// The path of a media address leads back to its entry: `media_url(address, token, mime)` is
/// `http://<address>/media/` followed by a path that, where the token holds no `/` and no `.`
/// (a hexadecimal token holds neither), names `token` and no segment.
pub proof fn lemma_media_address_routes_back(address: Seq<char>, token: Seq<char>, mime: Seq<char>)
    requires
        forall|k: int| 0 <= k < token.len() ==> token[k] != '/' && token[k] != '.',
    ensures
        media_url_of(address, token, mime) == "http://"@ + address + "/media/"@ + (token + url_extension(mime)),
        media_request_of(token + url_extension(mime)) == (token, None::<usize>),
{
    let e = url_extension(mime);
    let path = token + e;
    lemma_url_extension_shape(mime);
    assert forall|k: int| 0 <= k < path.len() implies path[k] != '/' by {
        if k >= token.len() {
            assert(path[k] == e[k - token.len()]);
        }
    }
    lemma_split_once_absent(path, '/');
    if e.len() == 0 {
        assert(path =~= token);
        lemma_split_once_absent(token, '.');
    } else {
        assert(path =~= token + seq!['.'] + e.drop_first());
        lemma_split_once_at(token, '.', e.drop_first());
    }
    assert(media_url_of(address, token, mime) =~= "http://"@ + address + "/media/"@ + (token + url_extension(mime)));
}

/// A playlist's segment address names the segment it lists: where the token holds no `/` and
/// no `.`, the path `<token>/segment/<index>.ts` names `token` and `index`.
pub proof fn lemma_segment_address_routes_back(token: Seq<char>, index: usize)
    requires
        forall|k: int| 0 <= k < token.len() ==> token[k] != '/' && token[k] != '.',
    ensures
        media_request_of(token + "/segment/"@ + decimal(index as nat) + ".ts"@) == (token, Some(index)),
{
    reveal_strlit("/segment/");
    reveal_strlit("segment/");
    reveal_strlit(".ts");
    let d = decimal(index as nat);
    let path = token + "/segment/"@ + d + ".ts"@;
    let rest = "segment/"@ + d + ".ts"@;
    assert(path =~= token + seq!['/'] + rest);
    lemma_split_once_at(token, '/', rest);
    assert(rest.subrange(0, 8) =~= "segment/"@);
    let seg = rest.subrange(8, rest.len() as int);
    assert(seg =~= d + ".ts"@);
    assert(seg.subrange(seg.len() - 3, seg.len() as int) =~= ".ts"@);
    assert(seg.subrange(0, seg.len() - 3) =~= d);
    lemma_parse_decimal(index as nat);
    lemma_split_once_absent(token, '.');
}

/// The number of bytes from `start` to `end` inclusive (saturating).
pub open spec fn content_length_of(start: u64, end: u64) -> u64 {
    let d: int = if end >= start { end - start } else { 0 };
    if d + 1 > u64::MAX { u64::MAX } else { (d + 1) as u64 }
}

pub fn content_length(start: u64, end: u64) -> (r: u64)
    ensures
        r == content_length_of(start, end),
{
    end.saturating_sub(start).saturating_add(1)
}

/// A token with everything from its first `.` on removed (a file extension added for players).
pub open spec fn token_without_suffix(t: Seq<char>) -> Seq<char> {
    match split_once(t, '.') {
        Some((a, _)) => a,
        None => t,
    }
}

pub fn strip_media_token_suffix(token: &str) -> (r: String)
    ensures
        r@ == token_without_suffix(token@),
{
    let v = chars_of(token);
    match split_once_chars(&v, '.') {
        Some((a, _)) => string_of(&a),
        None => string_of(&v),
    }
}

/// The token and, for a segment request (`<token>/segment/<n>.ts`), the segment index that a
/// request path below `/media/` names.
pub open spec fn media_request_of(path: Seq<char>) -> (Seq<char>, Option<usize>) {
    match split_once(path, '/') {
        None => (token_without_suffix(path), None),
        Some((token, rest)) => if !starts_with(rest, "segment/"@) {
            (token_without_suffix(token), None)
        } else {
            let seg = rest.subrange(8, rest.len() as int);
            let seg = if ends_with(seg, ".ts"@) {
                seg.subrange(0, seg.len() - 3)
            } else {
                seg
            };
            (token_without_suffix(token), parse_usize(seg))
        },
    }
}

fn token_of(v: &Vec<char>) -> (r: String)
    ensures
        r@ == token_without_suffix(v@),
{
    match split_once_chars(v, '.') {
        Some((a, _)) => string_of(&a),
        None => string_of(v),
    }
}

/// Splits a request path below `/media/` into its token and, for a segment request, the
/// segment index (see `media_request_of`).
pub fn parse_media_request_path(path: &str) -> (r: (String, Option<usize>))
    ensures
        r.0@ == media_request_of(path@).0,
        r.1 == media_request_of(path@).1,
{
    let v = chars_of(path);
    let (token, rest) = match split_once_chars(&v, '/') {
        Some(p) => p,
        None => return (token_of(&v), None),
    };
    let seg = match strip_prefix_text(&rest, "segment/") {
        Some(s) => s,
        None => return (token_of(&token), None),
    };
    proof {
        reveal_strlit("segment/");
        reveal_strlit(".ts");
    }
    let seg = match strip_suffix_text(&seg, ".ts") {
        Some(s) => s,
        None => seg,
    };
    (token_of(&token), parse_usize_chars(&seg))
}

/// The extension that a media address carries for a MIME type, so players can tell the format.
pub open spec fn url_extension(mime: Seq<char>) -> Seq<char> {
    if mime == "video/mp4"@ {
        ".mp4"@
    } else if mime == "video/webm"@ {
        ".webm"@
    } else if mime == "video/ogg"@ {
        ".ogv"@
    } else if mime == "audio/mpeg"@ {
        ".mp3"@
    } else if mime == "audio/wav"@ {
        ".wav"@
    } else if mime == "audio/ogg"@ {
        ".ogg"@
    } else if mime == "audio/flac"@ {
        ".flac"@
    } else if mime == "application/pdf"@ {
        ".pdf"@
    } else if mime == "application/vnd.openxmlformats-officedocument.wordprocessingml.document"@ {
        ".docx"@
    } else if mime == "application/vnd.openxmlformats-officedocument.spreadsheetml.sheet"@ {
        ".xlsx"@
    } else if mime == "application/vnd.openxmlformats-officedocument.presentationml.presentation"@ {
        ".pptx"@
    } else if mime == "application/vnd.apple.mpegurl"@ {
        ".m3u8"@
    } else {
        ""@
    }
}

fn extension_for_mime(m: &Vec<char>) -> (r: &'static str)
    ensures
        r@ == url_extension(m@),
{
    if eq_text(m, "video/mp4") {
        ".mp4"
    } else if eq_text(m, "video/webm") {
        ".webm"
    } else if eq_text(m, "video/ogg") {
        ".ogv"
    } else if eq_text(m, "audio/mpeg") {
        ".mp3"
    } else if eq_text(m, "audio/wav") {
        ".wav"
    } else if eq_text(m, "audio/ogg") {
        ".ogg"
    } else if eq_text(m, "audio/flac") {
        ".flac"
    } else if eq_text(m, "application/pdf") {
        ".pdf"
    } else if eq_text(m, "application/vnd.openxmlformats-officedocument.wordprocessingml.document") {
        ".docx"
    } else if eq_text(m, "application/vnd.openxmlformats-officedocument.spreadsheetml.sheet") {
        ".xlsx"
    } else if eq_text(m, "application/vnd.openxmlformats-officedocument.presentationml.presentation") {
        ".pptx"
    } else if eq_text(m, "application/vnd.apple.mpegurl") {
        ".m3u8"
    } else {
        ""
    }
}

/// `http://<address>/media/<token><extension for mime>`.
pub open spec fn media_url_of(address: Seq<char>, token: Seq<char>, mime: Seq<char>) -> Seq<char> {
    "http://"@ + address + "/media/"@ + token + url_extension(mime)
}

pub fn media_url(address: &str, token: &str, mime: &str) -> (r: String)
    ensures
        r@ == media_url_of(address@, token@, mime@),
{
    let m = chars_of(mime);
    let ext = extension_for_mime(&m);
    let mut s = String::new();
    push_text(&mut s, "http://");
    push_text(&mut s, address);
    push_text(&mut s, "/media/");
    push_text(&mut s, token);
    push_text(&mut s, ext);
    assert(s@ =~= media_url_of(address@, token@, mime@));
    s
}

/// The method of a request, as the server tells them apart.
#[derive(Clone, Copy, Debug, PartialEq, Eq, Structural)]
pub enum RequestMethod {
    Options,
    Get,
    Head,
    Other,
}

/// The character that Unicode upper-casing turns `c` into, where that is a single ASCII
/// letter: `a`-`z`, dotless `ı` (to `I`) and long `ſ` (to `S`). Every other character upper-cases
/// to itself or to text that is not one ASCII letter; none of those can make a method name
/// equal to `OPTIONS`, `GET` or `HEAD`.
pub open spec fn method_fold(c: char) -> char {
    if 'a' <= c && c <= 'z' {
        ((c as u32) - 32) as char
    } else if c == '\u{131}' {
        'I'
    } else if c == '\u{17f}' {
        'S'
    } else {
        c
    }
}

pub open spec fn method_is(token: Seq<char>, name: Seq<char>) -> bool {
    token.len() == name.len() && forall|i: int| 0 <= i < token.len() ==> method_fold(#[trigger] token[i]) == name[i]
}

/// Which of the methods the server answers `token` names once upper-cased.
pub open spec fn method_of(token: Seq<char>) -> RequestMethod {
    if method_is(token, "OPTIONS"@) {
        RequestMethod::Options
    } else if method_is(token, "GET"@) {
        RequestMethod::Get
    } else if method_is(token, "HEAD"@) {
        RequestMethod::Head
    } else {
        RequestMethod::Other
    }
}

fn fold_char(c: char) -> (r: char)
    ensures
        r == method_fold(c),
{
    if 'a' <= c && c <= 'z' {
        ((c as u32 - 32) as u8) as char
    } else if c == '\u{131}' {
        'I'
    } else if c == '\u{17f}' {
        'S'
    } else {
        c
    }
}

fn method_matches(token: &Vec<char>, name: &str) -> (r: bool)
    ensures
        r == method_is(token@, name@),
{
    let n = chars_of(name);
    if token.len() != n.len() {
        return false;
    }
    let mut i: usize = 0;
    while i < token.len()
        invariant
            token@.len() == n@.len(),
            n@ == name@,
            i <= token@.len(),
            forall|k: int| 0 <= k < i ==> method_fold(#[trigger] token@[k]) == n@[k],
        decreases token.len() - i,
    {
        if fold_char(token[i]) != n[i] {
            return false;
        }
        i += 1;
    }
    true
}

pub fn request_method(token: &Vec<char>) -> (r: RequestMethod)
    ensures
        r == method_of(token@),
{
    if method_matches(token, "OPTIONS") {
        RequestMethod::Options
    } else if method_matches(token, "GET") {
        RequestMethod::Get
    } else if method_matches(token, "HEAD") {
        RequestMethod::Head
    } else {
        RequestMethod::Other
    }
}

/// Index of the first whitespace character of `s`, or its length.
pub open spec fn ws_index(s: Seq<char>) -> int
    decreases s.len(),
{
    if s.len() == 0 || is_ws(s[0]) {
        0
    } else {
        1 + ws_index(s.drop_first())
    }
}

/// `s` without its leading whitespace.
pub open spec fn skip_ws(s: Seq<char>) -> Seq<char>
    decreases s.len(),
{
    if s.len() > 0 && is_ws(s[0]) {
        skip_ws(s.drop_first())
    } else {
        s
    }
}

/// The first whitespace-separated word of `s` and the text after it (`split_whitespace`).
pub open spec fn next_word(s: Seq<char>) -> Option<(Seq<char>, Seq<char>)> {
    let t = skip_ws(s);
    if t.len() == 0 {
        None
    } else {
        Some((t.subrange(0, ws_index(t)), t.subrange(ws_index(t), t.len() as int)))
    }
}

/// The first two words of a request line: the method and the path (empty where missing).
pub open spec fn request_words(line: Seq<char>) -> (Seq<char>, Seq<char>) {
    match next_word(line) {
        None => (Seq::empty(), Seq::empty()),
        Some((m, rest)) => match next_word(rest) {
            None => (m, Seq::empty()),
            Some((p, _)) => (m, p),
        },
    }
}

proof fn lemma_ws_index_bounds(s: Seq<char>)
    ensures
        0 <= ws_index(s) <= s.len(),
        forall|k: int| 0 <= k < ws_index(s) ==> !is_ws(#[trigger] s[k]),
        ws_index(s) < s.len() ==> is_ws(s[ws_index(s)]),
    decreases s.len(),
{
    if s.len() > 0 && !is_ws(s[0]) {
        lemma_ws_index_bounds(s.drop_first());
        assert forall|k: int| 1 <= k < ws_index(s) implies !is_ws(#[trigger] s[k]) by {
            assert(s[k] == s.drop_first()[k - 1]);
        }
    }
}

proof fn lemma_skip_ws_suffix(s: Seq<char>)
    ensures
        exists|i: int| 0 <= i <= s.len() && skip_ws(s) == s.subrange(i, s.len() as int) && (forall|k: int| 0 <= k < i ==> is_ws(#[trigger] s[k])) && (i < s.len() ==> !is_ws(s[i])),
    decreases s.len(),
{
    if s.len() > 0 && is_ws(s[0]) {
        lemma_skip_ws_suffix(s.drop_first());
        let j = choose|j: int| 0 <= j <= s.drop_first().len() && skip_ws(s.drop_first()) == s.drop_first().subrange(j, s.drop_first().len() as int) && (forall|k: int| 0 <= k < j ==> is_ws(#[trigger] s.drop_first()[k])) && (j < s.drop_first().len() ==> !is_ws(s.drop_first()[j]));
        assert(s.drop_first().subrange(j, s.drop_first().len() as int) =~= s.subrange(j + 1, s.len() as int));
        assert forall|k: int| 0 <= k < j + 1 implies is_ws(#[trigger] s[k]) by {
            if k > 0 {
                assert(s[k] == s.drop_first()[k - 1]);
            }
        }
    } else {
        assert(s.subrange(0, s.len() as int) =~= s);
    }
}

fn next_word_exec(v: &Vec<char>, from: usize) -> (r: Option<(usize, usize)>)
    requires
        from <= v@.len(),
    ensures
        match next_word(v@.subrange(from as int, v@.len() as int)) {
            None => r is None,
            Some((w, rest)) => r matches Some((a, b)) && from <= a < b <= v@.len() && w == v@.subrange(a as int, b as int) && rest == v@.subrange(b as int, v@.len() as int),
        },
{
    let ghost s = v@.subrange(from as int, v@.len() as int);
    let mut a = from;
    while a < v.len() && is_whitespace_char(v[a])
        invariant
            from <= a <= v@.len(),
            forall|k: int| from <= k < a ==> is_ws(#[trigger] v@[k]),
        decreases v.len() - a,
    {
        a += 1;
    }
    proof {
        lemma_skip_ws_suffix(s);
        let i = choose|i: int| 0 <= i <= s.len() && skip_ws(s) == s.subrange(i, s.len() as int) && (forall|k: int| 0 <= k < i ==> is_ws(#[trigger] s[k])) && (i < s.len() ==> !is_ws(s[i]));
        if i < a - from {
            assert(s[i] == v@[from + i]);
        }
        if i > a - from {
            assert(s[a - from] == v@[a as int]);
        }
        assert(i == a - from);
        assert(skip_ws(s) =~= v@.subrange(a as int, v@.len() as int));
    }
    if a == v.len() {
        return None;
    }
    let mut b = a;
    while b < v.len() && !is_whitespace_char(v[b])
        invariant
            a <= b <= v@.len(),
            forall|k: int| a <= k < b ==> !is_ws(#[trigger] v@[k]),
        decreases v.len() - b,
    {
        b += 1;
    }
    proof {
        let t = v@.subrange(a as int, v@.len() as int);
        lemma_ws_index_bounds(t);
        let w = ws_index(t);
        if w < b - a {
            assert(t[w] == v@[a + w]);
        }
        if w > b - a {
            assert(t[b - a] == v@[b as int]);
        }
        assert(w == b - a);
        assert(t.subrange(0, w) =~= v@.subrange(a as int, b as int));
        assert(t.subrange(w, t.len() as int) =~= v@.subrange(b as int, v@.len() as int));
    }
    Some((a, b))
}

/// Where a request should go.
#[derive(Clone, Debug)]
pub enum MediaRoute {
    /// A CORS preflight.
    Options,
    /// A method other than `GET`, `HEAD` or `OPTIONS`.
    MethodNotAllowed,
    /// A path outside `/media/`.
    NotFound,
    /// A media request: the token, the segment index for a segment request, and whether only
    /// the headers are wanted (`HEAD`).
    Media { token: String, segment: Option<usize>, head_only: bool },
}

/// The route of a request, from its request line.
pub open spec fn route_of(line: Seq<char>) -> (RequestMethod, Option<(Seq<char>, Option<usize>)>) {
    let (m, p) = request_words(line);
    let method = method_of(m);
    if method == RequestMethod::Options || method == RequestMethod::Other || !starts_with(p, "/media/"@) {
        (method, None)
    } else {
        (method, Some(media_request_of(p.subrange(7, p.len() as int))))
    }
}


proof fn lemma_ws_index_word(w: Seq<char>, rest: Seq<char>)
    requires
        forall|k: int| 0 <= k < w.len() ==> !is_ws(#[trigger] w[k]),
        rest.len() == 0 || is_ws(rest[0]),
    ensures
        ws_index(w + rest) == w.len(),
    decreases w.len(),
{
    if w.len() > 0 {
        let s = w + rest;
        assert(s[0] == w[0]);
        assert(s.drop_first() =~= w.drop_first() + rest);
        assert forall|k: int| 0 <= k < w.drop_first().len() implies !is_ws(#[trigger] w.drop_first()[k]) by {
            assert(w.drop_first()[k] == w[k + 1]);
        }
        lemma_ws_index_word(w.drop_first(), rest);
    } else {
        assert(w + rest =~= rest);
    }
}

proof fn lemma_next_word_at(w: Seq<char>, rest: Seq<char>)
    requires
        w.len() > 0,
        forall|k: int| 0 <= k < w.len() ==> !is_ws(#[trigger] w[k]),
        rest.len() == 0 || is_ws(rest[0]),
    ensures
        next_word(w + rest) == Some((w, rest)),
{
    let s = w + rest;
    assert(s[0] == w[0]);
    assert(skip_ws(s) == s);
    lemma_ws_index_word(w, rest);
    assert(s.subrange(0, w.len() as int) =~= w);
    assert(s.subrange(w.len() as int, s.len() as int) =~= rest);
}

proof fn lemma_next_word_after_space(w: Seq<char>, rest: Seq<char>)
    requires
        w.len() > 0,
        forall|k: int| 0 <= k < w.len() ==> !is_ws(#[trigger] w[k]),
        rest.len() == 0 || is_ws(rest[0]),
    ensures
        next_word(seq![' '] + w + rest) == Some((w, rest)),
{
    let s = seq![' '] + w + rest;
    assert(s.drop_first() =~= w + rest);
    assert(is_ws(s[0]));
    assert((w + rest)[0] == w[0]);
    assert(skip_ws(w + rest) == w + rest);
    assert(skip_ws(s) == skip_ws(w + rest));
    lemma_next_word_at(w, rest);
}

/// A request for a media address the server handed out reaches the entry it names: for a
/// token of hexadecimal digits, the request line `GET /media/<token><extension> HTTP/1.1`
/// (or `HEAD ...`) is routed to `token`, with no segment.
pub proof fn lemma_request_for_media_address(token: Seq<char>, mime: Seq<char>, head: bool)
    requires
        forall|k: int| 0 <= k < token.len() ==> is_hex_digit_char(#[trigger] token[k]),
    ensures
        route_of((if head { "HEAD"@ } else { "GET"@ }) + " "@ + ("/media/"@ + (token + url_extension(mime))) + " HTTP/1.1\r\n"@)
            == (if head { RequestMethod::Head } else { RequestMethod::Get }, Some((token, None::<usize>))),
{
    reveal_strlit("HEAD");
    reveal_strlit("GET");
    reveal_strlit("OPTIONS");
    reveal_strlit(" ");
    reveal_strlit("/media/");
    reveal_strlit(" HTTP/1.1\r\n");
    let m = if head { "HEAD"@ } else { "GET"@ };
    let e = url_extension(mime);
    let p = "/media/"@ + (token + e);
    let tail = " HTTP/1.1\r\n"@;
    let line = m + " "@ + p + tail;
    lemma_url_extension_shape(mime);
    assert forall|k: int| 0 <= k < token.len() implies token[k] != '/' && token[k] != '.' by {
        assert(is_hex_digit_char(token[k]));
    }
    assert forall|k: int| 0 <= k < m.len() implies !is_ws(#[trigger] m[k]) by {}
    assert forall|k: int| 0 <= k < p.len() implies !is_ws(#[trigger] p[k]) by {
        if k < 7 {
            assert(p[k] == "/media/"@[k]);
        } else if k < 7 + token.len() {
            assert(p[k] == token[k - 7]);
            assert(is_hex_digit_char(token[k - 7]));
        } else if k >= 7 + token.len() {
            assert(p[k] == e[k - 7 - token.len()]);
        }
    }
    assert(line =~= m + (" "@ + p + tail));
    lemma_next_word_at(m, " "@ + p + tail);
    assert(" "@ + p + tail =~= seq![' '] + p + tail);
    lemma_next_word_after_space(p, tail);
    assert(request_words(line) == (m, p));
    assert(method_is(m, m));
    if head {
        assert(!method_is(m, "OPTIONS"@));
        assert(!method_is(m, "GET"@));
    } else {
        assert(!method_is(m, "OPTIONS"@));
    }
    assert(p.subrange(0, 7) =~= "/media/"@);
    assert(p.subrange(7, p.len() as int) =~= token + e);
    lemma_media_address_routes_back("127.0.0.1"@, token, mime);
}


/// A request for a segment address of a playlist reaches that segment: for a token of
/// hexadecimal digits, `GET /media/<token>/segment/<index>.ts HTTP/1.1` is routed to `token`
/// and `index`.
pub proof fn lemma_request_for_segment_address(token: Seq<char>, index: usize)
    requires
        forall|k: int| 0 <= k < token.len() ==> is_hex_digit_char(#[trigger] token[k]),
    ensures
        route_of("GET "@ + ("/media/"@ + (token + "/segment/"@ + decimal(index as nat) + ".ts"@)) + " HTTP/1.1\r\n"@)
            == (RequestMethod::Get, Some((token, Some(index)))),
{
    reveal_strlit("GET ");
    reveal_strlit("GET");
    reveal_strlit(" ");
    reveal_strlit("OPTIONS");
    reveal_strlit("/media/");
    reveal_strlit("/segment/");
    reveal_strlit(".ts");
    reveal_strlit(" HTTP/1.1\r\n");
    let m = "GET"@;
    let d = decimal(index as nat);
    let q = token + "/segment/"@ + d + ".ts"@;
    let p = "/media/"@ + q;
    let tail = " HTTP/1.1\r\n"@;
    let line = "GET "@ + p + tail;
    lemma_decimal_reads_back(index as nat);
    assert forall|k: int| 0 <= k < token.len() implies token[k] != '/' && token[k] != '.' by {
        assert(is_hex_digit_char(token[k]));
    }
    assert forall|k: int| 0 <= k < m.len() implies !is_ws(#[trigger] m[k]) by {}
    assert forall|k: int| 0 <= k < p.len() implies !is_ws(#[trigger] p[k]) by {
        let t = token.len() as int;
        if k < 7 {
            assert(p[k] == "/media/"@[k]);
        } else if k < 7 + t {
            assert(p[k] == token[k - 7]);
            assert(is_hex_digit_char(token[k - 7]));
        } else if k < 7 + t + 9 {
            assert(p[k] == "/segment/"@[k - 7 - t]);
        } else if k < 7 + t + 9 + d.len() {
            assert(p[k] == d[k - 7 - t - 9]);
            assert(crate::text::is_digit(d[k - 7 - t - 9]));
        } else {
            assert(p[k] == ".ts"@[k - 7 - t - 9 - d.len()]);
        }
    }
    assert(line =~= m + (" "@ + p + tail));
    lemma_next_word_at(m, " "@ + p + tail);
    assert(" "@ + p + tail =~= seq![' '] + p + tail);
    lemma_next_word_after_space(p, tail);
    assert(request_words(line) == (m, p));
    assert(method_is(m, m));
    assert(!method_is(m, "OPTIONS"@));
    assert(p.subrange(0, 7) =~= "/media/"@);
    assert(p.subrange(7, p.len() as int) =~= q);
    lemma_segment_address_routes_back(token, index);
}

/// Routes a request by its request line (`<method> <path> ...`).
pub fn route_request(request_line: &str) -> (r: MediaRoute)
    ensures
        ({
            let (method, media) = route_of(request_line@);
            match r {
                MediaRoute::Options => method == RequestMethod::Options,
                MediaRoute::MethodNotAllowed => method == RequestMethod::Other,
                MediaRoute::NotFound => (method == RequestMethod::Get || method == RequestMethod::Head) && media is None,
                MediaRoute::Media { token, segment, head_only } => (method == RequestMethod::Get || method == RequestMethod::Head)
                    && media == Some((token@, segment)) && head_only == (method == RequestMethod::Head),
            }
        }),
{
    let v = chars_of(request_line);
    let (method_token, path) = match next_word_exec(&v, 0) {
        None => (Vec::new(), Vec::new()),
        Some((a, b)) => {
            let m = sub_chars(&v, a, b);
            match next_word_exec(&v, b) {
                None => (m, Vec::new()),
                Some((c, d)) => (m, sub_chars(&v, c, d)),
            }
        },
    };
    proof {
        assert(v@.subrange(0, v@.len() as int) =~= v@);
        assert(method_token@ == request_words(request_line@).0);
        assert(path@ == request_words(request_line@).1);
    }
    let method = request_method(&method_token);
    match method {
        RequestMethod::Options => return MediaRoute::Options,
        RequestMethod::Other => return MediaRoute::MethodNotAllowed,
        _ => {},
    }
    let rest = match strip_prefix_text(&path, "/media/") {
        Some(r) => r,
        None => return MediaRoute::NotFound,
    };
    proof {
        reveal_strlit("/media/");
    }
    let rest_text = string_of(&rest);
    let (token, segment) = parse_media_request_path(rest_text.as_str());
    MediaRoute::Media { token, segment, head_only: method == RequestMethod::Head }
}

/// Whether a header line read from a request ends the header block: nothing was read, or the
/// line is empty.
pub fn is_header_end(bytes_read: usize, line: &str) -> (r: bool)
    ensures
        r == (bytes_read == 0 || line@ == "\r\n"@ || line@ == "\n"@),
{
    if bytes_read == 0 {
        return true;
    }
    let v = chars_of(line);
    eq_text(&v, "\r\n") || eq_text(&v, "\n")
}

/// The trimmed value of a `Range` header line (its name compared without regard to ASCII case),
/// or `None` for any other line.
pub open spec fn range_header_of(line: Seq<char>) -> Option<Seq<char>> {
    match split_once(line, ':') {
        Some((name, value)) => if ascii_lower(name) == "range"@ {
            Some(trim(value))
        } else {
            None
        },
        None => None,
    }
}

pub fn range_header_value(line: &str) -> (r: Option<String>)
    ensures
        match range_header_of(line@) {
            Some(v) => r matches Some(s) && s@ == v,
            None => r is None,
        },
{
    let v = chars_of(line);
    match split_once_chars(&v, ':') {
        Some((name, value)) => {
            let lower = to_ascii_lower(&name);
            if eq_text(&lower, "range") {
                Some(string_of(&trim_chars(&value)))
            } else {
                None
            }
        },
        None => None,
    }
}

/// The status line of a media response.
pub open spec fn status_line(partial: bool) -> Seq<char> {
    if partial {
        "HTTP/1.1 206 Partial Content"@
    } else {
        "HTTP/1.1 200 OK"@
    }
}

/// `Content-Range: bytes <start>-<end>/<size>` and its line break.
pub open spec fn content_range_line(start: u64, end: u64, size: u64) -> Seq<char> {
    "Content-Range: bytes "@ + decimal(start as nat) + "-"@ + decimal(end as nat) + "/"@
        + decimal(size as nat) + "\r\n"@
}

/// The headers of a media response for the byte range `start..=end` of a body of `size` bytes
/// served as `mime`.
pub open spec fn media_headers_text(mime: Seq<char>, size: u64, start: u64, end: u64, partial: bool) -> Seq<char> {
    status_line(partial) + "\r\nContent-Type: "@ + mime + "\r\nContent-Length: "@ + decimal(
        content_length_of(start, end) as nat,
    ) + "\r\nAccept-Ranges: bytes\r\nAccess-Control-Allow-Origin: *\r\nAccess-Control-Allow-Headers: Range\r\nAccess-Control-Expose-Headers: Content-Length, Content-Range, Accept-Ranges\r\n"@
        + (if partial {
        content_range_line(start, end, size)
    } else {
        Seq::empty()
    }) + "Connection: close\r\n\r\n"@
}

/// A partial (206) media or segment response names in its last header, just before the blank
/// line that ends the head, the range it serves and the size of the whole body:
/// `Content-Range: bytes <start>-<end>/<size>`, whatever the length of the range.
pub proof fn lemma_partial_headers_name_whole_size(mime: Seq<char>, size: u64, start: u64, end: u64)
    ensures
        ({
            let range = "Content-Range: bytes "@ + decimal(start as nat) + "-"@ + decimal(end as nat)
                + "/"@ + decimal(size as nat) + "\r\n"@;
            let media = media_headers_text(mime, size, start, end, true);
            let media_tail = range + "Connection: close\r\n\r\n"@;
            let segment = segment_headers_text(size, start, end, true);
            let segment_tail = range + "Cache-Control: no-cache\r\nConnection: close\r\n\r\n"@;
            &&& media.len() >= media_tail.len()
            &&& media.subrange(media.len() - media_tail.len(), media.len() as int) == media_tail
            &&& segment.len() >= segment_tail.len()
            &&& segment.subrange(segment.len() - segment_tail.len(), segment.len() as int) == segment_tail
        }),
{
    let range = "Content-Range: bytes "@ + decimal(start as nat) + "-"@ + decimal(end as nat)
        + "/"@ + decimal(size as nat) + "\r\n"@;
    let media = media_headers_text(mime, size, start, end, true);
    let media_tail = range + "Connection: close\r\n\r\n"@;
    let media_head = status_line(true) + "\r\nContent-Type: "@ + mime + "\r\nContent-Length: "@ + decimal(
        content_length_of(start, end) as nat,
    ) + "\r\nAccept-Ranges: bytes\r\nAccess-Control-Allow-Origin: *\r\nAccess-Control-Allow-Headers: Range\r\nAccess-Control-Expose-Headers: Content-Length, Content-Range, Accept-Ranges\r\n"@;
    assert(range =~= content_range_line(start, end, size));
    assert(media =~= media_head + media_tail);
    assert(media.subrange(media.len() - media_tail.len(), media.len() as int) =~= media_tail);
    let segment = segment_headers_text(size, start, end, true);
    let segment_tail = range + "Cache-Control: no-cache\r\nConnection: close\r\n\r\n"@;
    let segment_head = status_line(true) + "\r\nContent-Type: video/mp2t\r\nContent-Length: "@ + decimal(
        content_length_of(start, end) as nat,
    ) + "\r\nAccept-Ranges: bytes\r\nAccess-Control-Allow-Origin: *\r\nAccess-Control-Allow-Headers: Range\r\nAccess-Control-Expose-Headers: Content-Length, Content-Range, Accept-Ranges\r\n"@;
    assert(segment =~= segment_head + segment_tail);
    assert(segment.subrange(segment.len() - segment_tail.len(), segment.len() as int) =~= segment_tail);
}

fn push_decimal(s: &mut String, n: u64)
    ensures
        final(s)@ == old(s)@ + decimal(n as nat),
{
    let d = decimal_string(n);
    push_text(s, d.as_str());
}

fn push_content_range(s: &mut String, start: u64, end: u64, size: u64)
    ensures
        final(s)@ == old(s)@ + content_range_line(start, end, size),
{
    push_text(s, "Content-Range: bytes ");
    push_decimal(s, start);
    push_text(s, "-");
    push_decimal(s, end);
    push_text(s, "/");
    push_decimal(s, size);
    push_text(s, "\r\n");
    assert(s@ =~= old(s)@ + content_range_line(start, end, size));
}

/// The headers of a media response (see `media_headers_text`).
pub fn media_response_headers(mime: &str, size: u64, start: u64, end: u64, partial: bool) -> (r: String)
    ensures
        r@ == media_headers_text(mime@, size, start, end, partial),
{
    let mut s = String::new();
    push_text(&mut s, if partial { "HTTP/1.1 206 Partial Content" } else { "HTTP/1.1 200 OK" });
    push_text(&mut s, "\r\nContent-Type: ");
    push_text(&mut s, mime);
    push_text(&mut s, "\r\nContent-Length: ");
    push_decimal(&mut s, content_length(start, end));
    push_text(&mut s, "\r\nAccept-Ranges: bytes\r\nAccess-Control-Allow-Origin: *\r\nAccess-Control-Allow-Headers: Range\r\nAccess-Control-Expose-Headers: Content-Length, Content-Range, Accept-Ranges\r\n");
    let ghost before_range = s@;
    if partial {
        push_content_range(&mut s, start, end, size);
    }
    push_text(&mut s, "Connection: close\r\n\r\n");
    assert(s@ =~= media_headers_text(mime@, size, start, end, partial));
    s
}

/// The headers of an HLS segment response for the range `start..=end` of a segment of `size`
/// bytes.
pub open spec fn segment_headers_text(size: u64, start: u64, end: u64, partial: bool) -> Seq<char> {
    status_line(partial) + "\r\nContent-Type: video/mp2t\r\nContent-Length: "@ + decimal(
        content_length_of(start, end) as nat,
    ) + "\r\nAccept-Ranges: bytes\r\nAccess-Control-Allow-Origin: *\r\nAccess-Control-Allow-Headers: Range\r\nAccess-Control-Expose-Headers: Content-Length, Content-Range, Accept-Ranges\r\n"@
        + (if partial {
        content_range_line(start, end, size)
    } else {
        Seq::empty()
    }) + "Cache-Control: no-cache\r\nConnection: close\r\n\r\n"@
}

pub fn segment_response_headers(size: u64, start: u64, end: u64, partial: bool) -> (r: String)
    ensures
        r@ == segment_headers_text(size, start, end, partial),
{
    let mut s = String::new();
    push_text(&mut s, if partial { "HTTP/1.1 206 Partial Content" } else { "HTTP/1.1 200 OK" });
    push_text(&mut s, "\r\nContent-Type: video/mp2t\r\nContent-Length: ");
    push_decimal(&mut s, content_length(start, end));
    push_text(&mut s, "\r\nAccept-Ranges: bytes\r\nAccess-Control-Allow-Origin: *\r\nAccess-Control-Allow-Headers: Range\r\nAccess-Control-Expose-Headers: Content-Length, Content-Range, Accept-Ranges\r\n");
    if partial {
        push_content_range(&mut s, start, end, size);
    }
    push_text(&mut s, "Cache-Control: no-cache\r\nConnection: close\r\n\r\n");
    assert(s@ =~= segment_headers_text(size, start, end, partial));
    s
}

/// The headers of a response whose whole body (`body_len` bytes) is held in memory.
pub open spec fn memory_headers_text(content_type: Seq<char>, body_len: usize) -> Seq<char> {
    "HTTP/1.1 200 OK\r\nContent-Type: "@ + content_type + "\r\nContent-Length: "@ + decimal(
        body_len as nat,
    ) + "\r\nAccess-Control-Allow-Origin: *\r\nAccess-Control-Allow-Headers: Range\r\nCache-Control: no-cache\r\nConnection: close\r\n\r\n"@
}

pub fn memory_response_headers(content_type: &str, body_len: usize) -> (r: String)
    ensures
        r@ == memory_headers_text(content_type@, body_len),
{
    let mut s = String::new();
    push_text(&mut s, "HTTP/1.1 200 OK\r\nContent-Type: ");
    push_text(&mut s, content_type);
    push_text(&mut s, "\r\nContent-Length: ");
    push_decimal(&mut s, body_len as u64);
    push_text(&mut s, "\r\nAccess-Control-Allow-Origin: *\r\nAccess-Control-Allow-Headers: Range\r\nCache-Control: no-cache\r\nConnection: close\r\n\r\n");
    assert(s@ =~= memory_headers_text(content_type@, body_len));
    s
}

/// The head of an error response with status `code` and reason `text`, whose body is `text`.
pub open spec fn error_headers_text(code: u16, text: &str) -> Seq<char> {
    "HTTP/1.1 "@ + decimal(code as nat) + " "@ + text@
        + "\r\nContent-Type: text/plain; charset=utf-8\r\nContent-Length: "@ + decimal(text.len() as nat) + "\r\nAccess-Control-Allow-Origin: *\r\nConnection: close\r\n\r\n"@
}

pub fn error_response_headers(code: u16, text: &str) -> (r: String)
    ensures
        r@ == error_headers_text(code, text),
{
    let mut s = String::new();
    push_text(&mut s, "HTTP/1.1 ");
    push_decimal(&mut s, code as u64);
    push_text(&mut s, " ");
    push_text(&mut s, text);
    push_text(&mut s, "\r\nContent-Type: text/plain; charset=utf-8\r\nContent-Length: ");
    push_decimal(&mut s, text.len() as u64);
    push_text(&mut s, "\r\nAccess-Control-Allow-Origin: *\r\nConnection: close\r\n\r\n");
    assert(s@ =~= error_headers_text(code, text));
    s
}

/// The whole response to a CORS preflight.
pub fn options_response() -> (r: &'static str)
    ensures
        r@ == "HTTP/1.1 204 No Content\r\nAccess-Control-Allow-Origin: *\r\nAccess-Control-Allow-Methods: GET, HEAD, OPTIONS\r\nAccess-Control-Allow-Headers: Range\r\nAccess-Control-Max-Age: 86400\r\nConnection: close\r\n\r\n"@,
{
    "HTTP/1.1 204 No Content\r\nAccess-Control-Allow-Origin: *\r\nAccess-Control-Allow-Methods: GET, HEAD, OPTIONS\r\nAccess-Control-Allow-Headers: Range\r\nAccess-Control-Max-Age: 86400\r\nConnection: close\r\n\r\n"
}

} // verus!

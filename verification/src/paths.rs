//! Path text as the user and the player see it, and the identifiers made from paths.
use vstd::prelude::*;
use crate::text::{
    ascii_lower, chars_of, concat_text, eq_ignore_ascii_case, hex_lower, hex_string, starts_with,
    string_of, strip_prefix_text, to_ascii_lower, trim, trim_char, trim_chars, trim_matching_char,
};

verus! {

/// `t` with a Windows extended-length prefix removed: `\\?\UNC\server\share` becomes
/// `\\server\share` and `\\?\C:\dir` becomes `C:\dir`.
pub open spec fn without_verbatim_prefix(t: Seq<char>) -> Seq<char> {
    if starts_with(t, "\\\\?\\UNC\\"@) {
        "\\\\"@ + t.subrange(8, t.len() as int)
    } else if starts_with(t, "\\\\?\\"@) {
        t.subrange(4, t.len() as int)
    } else {
        t
    }
}

/// A path typed or pasted by the user, as the media server opens it: trimmed, unquoted, and
/// without an extended-length prefix.
pub open spec fn normalized_media_path(p: Seq<char>) -> Seq<char> {
    without_verbatim_prefix(trim_char(trim(p), '"'))
}

pub(crate) fn strip_verbatim_prefix(t: &Vec<char>) -> (r: String)
    ensures
        r@ == without_verbatim_prefix(t@),
{
    proof {
        reveal_strlit("\\\\?\\UNC\\");
        reveal_strlit("\\\\?\\");
        reveal_strlit("\\\\");
    }
    if let Some(rest) = strip_prefix_text(t, "\\\\?\\UNC\\") {
        let s = string_of(&rest);
        return concat_text("\\\\", s.as_str());
    }
    match strip_prefix_text(t, "\\\\?\\") {
        Some(rest) => string_of(&rest),
        None => string_of(t),
    }
}

/// The path the media server opens for `path` (see `normalized_media_path`).
pub fn normalize_path(path: &str) -> (r: String)
    ensures
        r@ == normalized_media_path(path@),
{
    let v = chars_of(path);
    let t = trim_matching_char(&trim_chars(&v), '"');
    strip_verbatim_prefix(&t)
}

/// The text of a path as it is shown and stored, without `\\?\`.
pub open spec fn display_text(p: Seq<char>) -> Seq<char> {
    if starts_with(p, "\\\\?\\"@) {
        p.subrange(4, p.len() as int)
    } else {
        p
    }
}

pub fn display_path(path: &str) -> (r: String)
    ensures
        r@ == display_text(path@),
{
    proof {
        reveal_strlit("\\\\?\\");
    }
    let v = chars_of(path);
    match strip_prefix_text(&v, "\\\\?\\") {
        Some(rest) => string_of(&rest),
        None => string_of(&v),
    }
}

/// Names the library never shows: dot files and Windows' `System Volume Information`.
pub open spec fn hidden_name(name: Seq<char>) -> bool {
    (name.len() > 0 && name[0] == '.') || eq_ignore_ascii_case(name, "System Volume Information"@)
}

pub fn is_hidden_name(name: &str) -> (r: bool)
    ensures
        r == hidden_name(name@),
{
    let v = chars_of(name);
    if v.len() > 0 && v[0] == '.' {
        return true;
    }
    let lower = to_ascii_lower(&v);
    let r = crate::text::eq_text(&lower, "system volume information");
    proof {
        reveal_strlit("System Volume Information");
        reveal_strlit("system volume information");
        assert(ascii_lower("System Volume Information"@) =~= "system volume information"@);
    }
    r
}

/// What the standard library's `DefaultHasher` (a fixed-key SipHash) finishes with after
/// hashing the text `s`.
pub uninterp spec fn text_hash(s: Seq<char>) -> u64;

/// Hashes `s` with a fresh `std::collections::hash_map::DefaultHasher` (`BuildHasher::hash_one`,
/// which hashes `s` and finishes, as `DefaultHasher::new()`, `str::hash` and `finish` do). The result is named `text_hash`: the hasher's keys are fixed and `str`
/// feeds it its UTF-8 bytes, so the same text gives the same number; what that number is,
/// nothing here states.
#[verifier::external_body]
fn hash_text(s: &str) -> (r: u64)
    ensures
        r == text_hash(s@),
{
    let state = std::hash::BuildHasherDefault::<std::collections::hash_map::DefaultHasher>::default();
    std::hash::BuildHasher::hash_one(&state, s)
}

/// The identifier of a library node: the path's hash in lower-case hexadecimal.
pub fn stable_id(path: &str) -> (r: String)
    ensures
        r@ == hex_lower(text_hash(path@) as nat),
{
    let h = hash_text(path);
    hex_string(h)
}

/// Hashes a path, a size and a time in nanoseconds, in that order, with a fresh `DefaultHasher`
/// (`BuildHasher::hash_one` on the tuple). The number
/// depends on the machine's byte order (integers are hashed in native order), so no contract
/// names it.
#[verifier::external_body]
fn hash_token_parts(path: &str, size: u64, nanos: u128) -> (r: u64) {
    let state = std::hash::BuildHasherDefault::<std::collections::hash_map::DefaultHasher>::default();
    std::hash::BuildHasher::hash_one(&state, (path, size, nanos))
}

/// A lower-case hexadecimal digit.
pub open spec fn is_hex_digit_char(c: char) -> bool {
    ('0' <= c && c <= '9') || ('a' <= c && c <= 'f')
}

/// Hexadecimal text is never empty and holds nothing but hexadecimal digits.
pub proof fn lemma_hex_lower_digits(n: nat)
    ensures
        hex_lower(n).len() > 0,
        forall|i: int| 0 <= i < hex_lower(n).len() ==> is_hex_digit_char(#[trigger] hex_lower(n)[i]),
    decreases n,
{
    if n >= 16 {
        lemma_hex_lower_digits(n / 16);
        let t = hex_lower(n / 16).push(crate::text::hex_digit(n % 16));
        assert forall|i: int| 0 <= i < t.len() implies is_hex_digit_char(#[trigger] t[i]) by {
            if i < t.len() - 1 {
                assert(t[i] == hex_lower(n / 16)[i]);
            }
        }
    }
}

/// The token under which the media server serves a file: a hash of its path, its size and the
/// time (`nanos`, nanoseconds since the Unix epoch), in lower-case hexadecimal. Nothing of the
/// path shows in it: it is hexadecimal digits only.
pub fn media_token(path: &str, size: u64, nanos: u128) -> (r: String)
    ensures
        exists|h: u64| r@ == hex_lower(h as nat),
        r@.len() > 0,
        forall|i: int| 0 <= i < r@.len() ==> is_hex_digit_char(#[trigger] r@[i]),
{
    let h = hash_token_parts(path, size, nanos);
    proof {
        lemma_hex_lower_digits(h as nat);
    }
    hex_string(h)
}

} // verus!

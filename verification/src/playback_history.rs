//! The playback history kept between sessions: the library roots the user opened, the active
//! root, the last media file and when it was saved.
use vstd::prelude::*;
use crate::text::{chars_of, is_blank, is_blank_chars};

verus! {

/// What is remembered between sessions.
#[derive(Clone, Debug)]
pub struct PlaybackHistory {
    pub roots: Vec<String>,
    pub active_root_path: Option<String>,
    pub last_media_path: Option<String>,
    /// Seconds since the Unix epoch when the history was last saved.
    pub updated_at: Option<u64>,
}

impl Default for PlaybackHistory {
    /// The history of a first session: nothing remembered.
    fn default() -> (r: Self)
        ensures
            r.roots@.len() == 0,
            r.active_root_path is None,
            r.last_media_path is None,
            r.updated_at is None,
    {
        PlaybackHistory { roots: Vec::new(), active_root_path: None, last_media_path: None, updated_at: None }
    }
}

/// The texts of a list of strings.
pub open spec fn texts(v: Seq<String>) -> Seq<Seq<char>> {
    v.map_values(|s: String| s@)
}

/// The roots that are kept, in order: blank entries are dropped, and of equal entries only the
/// first.
pub open spec fn normalized_roots(s: Seq<Seq<char>>) -> Seq<Seq<char>>
    decreases s.len(),
{
    if s.len() == 0 {
        Seq::empty()
    } else {
        let r = normalized_roots(s.drop_last());
        if is_blank(s.last()) || r.contains(s.last()) {
            r
        } else {
            r.push(s.last())
        }
    }
}

/// The roots to remember: `roots` without blank entries and without repeats, in their order
/// (see `normalized_roots`).
pub fn normalize_roots(roots: Vec<String>) -> (r: Vec<String>)
    ensures
        texts(r@) == normalized_roots(texts(roots@)),
{
    let mut result: Vec<String> = Vec::new();
    let mut i: usize = 0;
    while i < roots.len()
        invariant
            i <= roots@.len(),
            texts(result@) == normalized_roots(texts(roots@).take(i as int)),
        decreases roots.len() - i,
    {
        let root = &roots[i];
        let ghost s = texts(roots@).take(i as int + 1);
        proof {
            assert(s.drop_last() =~= texts(roots@).take(i as int));
            assert(s.last() == root@);
        }
        let blank = is_blank_chars(&chars_of(root.as_str()));
        let mut seen = false;
        let mut j: usize = 0;
        while j < result.len()
            invariant
                j <= result@.len(),
                seen == (exists|k: int| 0 <= k < j && texts(result@)[k] == root@),
            decreases result.len() - j,
        {
            if result[j] == *root {
                seen = true;
            }
            proof {
                assert(texts(result@)[j as int] == result@[j as int]@);
            }
            j += 1;
        }
        proof {
            assert(seen == texts(result@).contains(root@));
        }
        if !blank && !seen {
            result.push(root.clone());
            proof {
                assert(texts(result@) =~= normalized_roots(s));
            }
        }
        i += 1;
    }
    proof {
        assert(texts(roots@).take(roots@.len() as int) =~= texts(roots@));
    }
    result
}

/// The history as it is saved at `now_secs` (seconds since the Unix epoch): its roots
/// normalized and its time set.
pub fn prepare_history_for_save(history: PlaybackHistory, now_secs: u64) -> (r: PlaybackHistory)
    ensures
        texts(r.roots@) == normalized_roots(texts(history.roots@)),
        r.active_root_path == history.active_root_path,
        r.last_media_path == history.last_media_path,
        r.updated_at == Some(now_secs),
{
    let PlaybackHistory { roots, active_root_path, last_media_path, updated_at: _ } = history;
    PlaybackHistory {
        roots: normalize_roots(roots),
        active_root_path,
        last_media_path,
        updated_at: Some(now_secs),
    }
}

/// A root is kept exactly when it occurs in the input and is not blank.
pub proof fn lemma_normalized_roots_members(s: Seq<Seq<char>>, x: Seq<char>)
    ensures
        normalized_roots(s).contains(x) <==> (s.contains(x) && !is_blank(x)),
    decreases s.len(),
{
    if s.len() > 0 {
        let r = normalized_roots(s.drop_last());
        lemma_normalized_roots_members(s.drop_last(), x);
        if s.drop_last().contains(x) {
            let k = choose|k: int| 0 <= k < s.drop_last().len() && s.drop_last()[k] == x;
            assert(s[k] == x);
        }
        if s.contains(x) && x != s.last() {
            let k = choose|k: int| 0 <= k < s.len() && s[k] == x;
            assert(s.drop_last()[k] == x);
        }
        if !(is_blank(s.last()) || r.contains(s.last())) {
            if r.push(s.last()).contains(x) && x != s.last() {
                let k = choose|k: int| 0 <= k < r.push(s.last()).len() && r.push(s.last())[k] == x;
                assert(r[k] == x);
            }
            if r.contains(x) {
                let k = choose|k: int| 0 <= k < r.len() && r[k] == x;
                assert(r.push(s.last())[k] == x);
            }
            assert(r.push(s.last())[r.len() as int] == s.last());
        }
        assert(s[s.len() - 1] == s.last());
    }
}

/// No root is kept twice, and none is blank.
pub proof fn lemma_normalized_roots_distinct(s: Seq<Seq<char>>)
    ensures
        normalized_roots(s).no_duplicates(),
        forall|i: int| 0 <= i < normalized_roots(s).len() ==> !is_blank(#[trigger] normalized_roots(s)[i]),
    decreases s.len(),
{
    if s.len() > 0 {
        lemma_normalized_roots_distinct(s.drop_last());
        let r = normalized_roots(s.drop_last());
        if !(is_blank(s.last()) || r.contains(s.last())) {
            let t = r.push(s.last());
            assert forall|i: int, j: int| 0 <= i < t.len() && 0 <= j < t.len() && i != j implies t[i] != t[j] by {
                if i == r.len() {
                    assert(t[j] == r[j]);
                } else if j == r.len() {
                    assert(t[i] == r[i]);
                }
            }
        }
    }
}

/// A list without blank entries and repeats is kept as it is.
pub proof fn lemma_normalized_roots_fixed(s: Seq<Seq<char>>)
    requires
        s.no_duplicates(),
        forall|i: int| 0 <= i < s.len() ==> !is_blank(#[trigger] s[i]),
    ensures
        normalized_roots(s) == s,
    decreases s.len(),
{
    if s.len() > 0 {
        let d = s.drop_last();
        assert forall|i: int| 0 <= i < d.len() implies !is_blank(#[trigger] d[i]) by {
            assert(d[i] == s[i]);
        }
        lemma_normalized_roots_fixed(d);
        if d.contains(s.last()) {
            let k = choose|k: int| 0 <= k < d.len() && d[k] == s.last();
            assert(s[k] == s[s.len() - 1]);
        }
        assert(!is_blank(s[s.len() - 1]));
        assert(d.push(s.last()) =~= s);
    }
}

/// Normalizing twice keeps what normalizing once kept.
pub proof fn lemma_normalize_roots_idempotent(s: Seq<Seq<char>>)
    ensures
        normalized_roots(normalized_roots(s)) == normalized_roots(s),
{
    lemma_normalized_roots_distinct(s);
    lemma_normalized_roots_fixed(normalized_roots(s));
}

/// The roots kept from the first `k` entries come first, in the same order: normalizing keeps
/// the order in which roots were first added.
pub proof fn lemma_normalized_roots_prefix(s: Seq<Seq<char>>, k: int)
    requires
        0 <= k <= s.len(),
    ensures
        normalized_roots(s.take(k)).len() <= normalized_roots(s).len(),
        normalized_roots(s).take(normalized_roots(s.take(k)).len() as int) == normalized_roots(s.take(k)),
    decreases s.len() - k,
{
    if k == s.len() {
        assert(s.take(k) =~= s);
        assert(normalized_roots(s).take(normalized_roots(s).len() as int) =~= normalized_roots(s));
    } else {
        lemma_normalized_roots_prefix(s, k + 1);
        let a = normalized_roots(s.take(k));
        let b = normalized_roots(s.take(k + 1));
        assert(s.take(k + 1).drop_last() =~= s.take(k));
        let full = normalized_roots(s);
        assert(full.take(b.len() as int) == b);
        assert(b.take(a.len() as int) =~= a);
        assert(full.take(a.len() as int) =~= full.take(b.len() as int).take(a.len() as int));
    }
}

} // verus!

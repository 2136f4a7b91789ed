//! The course library tree: which directory entries are shown, in what order, and the nodes
//! made for folders and media files.
use vstd::prelude::*;
use crate::media_types::{class_view, Classification};
use crate::paths::{display_path, display_text, hidden_name, is_hidden_name, stable_id, text_hash};
use crate::text::{chars_of, hex_lower, push_text};

verus! {

/// A node of the library tree: a folder with its children, or a file the player knows.
#[derive(Debug)]
pub struct MediaTreeNode {
    pub id: String,
    pub name: String,
    pub path: String,
    pub kind: String,
    pub playable: bool,
    pub engine: String,
    pub children: Option<Vec<MediaTreeNode>>,
}

/// How deep below the root the library looks.
pub open spec fn max_scan_depth() -> usize {
    8
}

/// Whether a directory at `depth` below the root is past the depth the library looks at (it
/// then counts as empty).
pub fn scan_depth_exceeded(depth: usize) -> (r: bool)
    ensures
        r == (depth > max_scan_depth()),
{
    depth > 8
}

fn text_of(s: &str) -> (r: String)
    ensures
        r@ == s@,
{
    let mut r = String::new();
    push_text(&mut r, s);
    r
}

/// The node of a folder at `path` (its canonical path) named `name` holding `children`; a
/// folder with nothing to show is left out.
pub fn folder_node(path: &str, name: String, children: Vec<MediaTreeNode>) -> (r: Option<MediaTreeNode>)
    ensures
        children@.len() == 0 ==> r is None,
        children@.len() > 0 ==> (r matches Some(n) && {
            &&& n.id@ == hex_lower(text_hash(path@) as nat)
            &&& n.name@ == name@
            &&& n.path@ == display_text(path@)
            &&& n.kind@ == "folder"@
            &&& !n.playable
            &&& n.engine@ == "unsupported"@
            &&& n.children == Some(children)
        }),
{
    if children.len() == 0 {
        return None;
    }
    Some(MediaTreeNode {
        id: stable_id(path),
        name,
        path: display_path(path),
        kind: text_of("folder"),
        playable: false,
        engine: text_of("unsupported"),
        children: Some(children),
    })
}

/// The node of a file at `path` (its canonical path) named `name` and classified as
/// `classification`; a file of unknown kind is left out.
pub fn file_node(path: &str, name: String, classification: Classification) -> (r: Option<MediaTreeNode>)
    ensures
        class_view(classification).0 == "unknown"@ ==> r is None,
        class_view(classification).0 != "unknown"@ ==> (r matches Some(n) && {
            &&& n.id@ == hex_lower(text_hash(path@) as nat)
            &&& n.name@ == name@
            &&& n.path@ == display_text(path@)
            &&& n.kind@ == class_view(classification).0
            &&& n.playable == classification.playable
            &&& n.engine@ == class_view(classification).2
            &&& n.children is None
        }),
{
    if crate::text::eq_text(&chars_of(classification.kind), "unknown") {
        return None;
    }
    Some(MediaTreeNode {
        id: stable_id(path),
        name,
        path: display_path(path),
        kind: text_of(classification.kind),
        playable: classification.playable,
        engine: text_of(classification.engine),
        children: None,
    })
}

/// What `str::to_lowercase` gives for `s` (full Unicode lower-casing).
pub uninterp spec fn lowercase_text(s: Seq<char>) -> Seq<char>;

/// Lower-cases `s` with `str::to_lowercase`. The result is named `lowercase_text`: it depends
/// on the text alone, through the Unicode tables of the standard library; nothing here states
/// those tables.
#[verifier::external_body]
fn lowercase(s: &str) -> (r: String)
    ensures
        r@ == lowercase_text(s@),
{
    s.to_lowercase()
}

/// Code-point order of texts (the order of `String`'s `Ord`).
pub open spec fn text_le(a: Seq<char>, b: Seq<char>) -> bool
    decreases a.len(),
{
    if a.len() == 0 {
        true
    } else if b.len() == 0 {
        false
    } else if a[0] != b[0] {
        a[0] < b[0]
    } else {
        text_le(a.drop_first(), b.drop_first())
    }
}

/// The order of entries: folders (and anything else that is not a file) before files, then by
/// lower-cased name.
pub open spec fn entry_key_le(a: (bool, Seq<char>), b: (bool, Seq<char>)) -> bool {
    (!a.0 && b.0) || (a.0 == b.0 && text_le(a.1, b.1))
}

/// The index `x` inserted into `sorted` after every index whose key is not greater than its
/// own, so that equal keys keep their order.
pub open spec fn insert_by_key(sorted: Seq<int>, x: int, keys: Seq<(bool, Seq<char>)>) -> Seq<int>
    decreases sorted.len(),
{
    if sorted.len() == 0 {
        seq![x]
    } else if entry_key_le(keys[sorted.last()], keys[x]) {
        sorted.push(x)
    } else {
        insert_by_key(sorted.drop_last(), x, keys).push(sorted.last())
    }
}

/// The indices `idx` stably sorted by their keys.
pub open spec fn sort_by_key(idx: Seq<int>, keys: Seq<(bool, Seq<char>)>) -> Seq<int>
    decreases idx.len(),
{
    if idx.len() == 0 {
        Seq::empty()
    } else {
        insert_by_key(sort_by_key(idx.drop_last(), keys), idx.last(), keys)
    }
}

/// The indices below `n` of the entries that are shown (not hidden), in order.
pub open spec fn visible_indices(names: Seq<Seq<char>>, n: int) -> Seq<int>
    decreases n,
{
    if n <= 0 {
        Seq::empty()
    } else {
        let v = visible_indices(names, n - 1);
        if hidden_name(names[n - 1]) {
            v
        } else {
            v.push(n - 1)
        }
    }
}

/// The sort key of each entry: whether it is a file, and its lower-cased name.
pub open spec fn entry_keys(entries: Seq<(String, bool)>) -> Seq<(bool, Seq<char>)> {
    Seq::new(entries.len(), |i: int| (entries[i].1, lowercase_text(entries[i].0@)))
}

pub open spec fn entry_names(entries: Seq<(String, bool)>) -> Seq<Seq<char>> {
    Seq::new(entries.len(), |i: int| entries[i].0@)
}

/// The order in which the entries of a directory are shown: hidden names left out, the rest
/// stably sorted by `entry_key_le`.
pub open spec fn scan_order_of(entries: Seq<(String, bool)>) -> Seq<int> {
    sort_by_key(visible_indices(entry_names(entries), entries.len() as int), entry_keys(entries))
}


proof fn lemma_text_le_total(a: Seq<char>, b: Seq<char>)
    ensures
        text_le(a, b) || text_le(b, a),
    decreases a.len(),
{
    if a.len() > 0 && b.len() > 0 && a[0] == b[0] {
        lemma_text_le_total(a.drop_first(), b.drop_first());
    }
}

proof fn lemma_entry_key_le_total(a: (bool, Seq<char>), b: (bool, Seq<char>))
    ensures
        entry_key_le(a, b) || entry_key_le(b, a),
{
    lemma_text_le_total(a.1, b.1);
}

/// Keys in order along neighbouring positions.
pub open spec fn keys_in_order(s: Seq<int>, keys: Seq<(bool, Seq<char>)>) -> bool {
    forall|k: int| 0 <= k < s.len() - 1 ==> entry_key_le(#[trigger] keys[s[k]], keys[s[k + 1]])
}

proof fn lemma_insert_by_key_last(s: Seq<int>, x: int, keys: Seq<(bool, Seq<char>)>)
    ensures
        insert_by_key(s, x, keys).len() == s.len() + 1,
        insert_by_key(s, x, keys).last() == x || (s.len() > 0 && insert_by_key(s, x, keys).last() == s.last()),
        s.len() == 0 || entry_key_le(keys[s.last()], keys[x]) ==> insert_by_key(s, x, keys).last() == x,
    decreases s.len(),
{
    if s.len() > 0 && !entry_key_le(keys[s.last()], keys[x]) {
        lemma_insert_by_key_last(s.drop_last(), x, keys);
    }
}

proof fn lemma_insert_by_key_sorted(s: Seq<int>, x: int, keys: Seq<(bool, Seq<char>)>)
    requires
        keys_in_order(s, keys),
    ensures
        keys_in_order(insert_by_key(s, x, keys), keys),
        insert_by_key(s, x, keys).to_multiset() =~= s.to_multiset().insert(x),
    decreases s.len(),
{
    broadcast use vstd::seq_lib::group_to_multiset_ensures;
    if s.len() == 0 {
        assert(seq![x] =~= Seq::<int>::empty().push(x));
    } else if entry_key_le(keys[s.last()], keys[x]) {
        let u = s.push(x);
        assert forall|k: int| 0 <= k < u.len() - 1 implies entry_key_le(#[trigger] keys[u[k]], keys[u[k + 1]]) by {
            if k + 1 < s.len() {
                assert(u[k] == s[k] && u[k + 1] == s[k + 1]);
            } else {
                assert(u[k] == s.last());
            }
        }
    } else {
        let d = s.drop_last();
        assert(keys_in_order(d, keys)) by {
            assert forall|k: int| 0 <= k < d.len() - 1 implies entry_key_le(#[trigger] keys[d[k]], keys[d[k + 1]]) by {
                assert(d[k] == s[k] && d[k + 1] == s[k + 1]);
            }
        }
        lemma_insert_by_key_sorted(d, x, keys);
        lemma_insert_by_key_last(d, x, keys);
        lemma_entry_key_le_total(keys[s.last()], keys[x]);
        let t = insert_by_key(d, x, keys);
        let u = t.push(s.last());
        assert forall|k: int| 0 <= k < u.len() - 1 implies entry_key_le(#[trigger] keys[u[k]], keys[u[k + 1]]) by {
            if k + 1 < t.len() {
                assert(u[k] == t[k] && u[k + 1] == t[k + 1]);
            } else {
                assert(u[k] == t.last());
                if t.last() != x {
                    assert(t.last() == d.last());
                    assert(d.last() == s[s.len() - 2]);
                    assert(s[s.len() - 2 + 1] == s.last());
                }
            }
        }
        assert(s =~= d.push(s.last()));
        assert(u.to_multiset() =~= t.to_multiset().insert(s.last()));
        assert(s.to_multiset() =~= d.to_multiset().insert(s.last()));
    }
}

proof fn lemma_sort_by_key(idx: Seq<int>, keys: Seq<(bool, Seq<char>)>)
    ensures
        keys_in_order(sort_by_key(idx, keys), keys),
        sort_by_key(idx, keys).to_multiset() =~= idx.to_multiset(),
    decreases idx.len(),
{
    broadcast use vstd::seq_lib::group_to_multiset_ensures;
    if idx.len() > 0 {
        lemma_sort_by_key(idx.drop_last(), keys);
        lemma_insert_by_key_sorted(sort_by_key(idx.drop_last(), keys), idx.last(), keys);
        assert(idx =~= idx.drop_last().push(idx.last()));
    } else {
        assert(idx.to_multiset() =~= vstd::multiset::Multiset::empty());
    }
}

proof fn lemma_visible_count(names: Seq<Seq<char>>, n: int, i: int)
    requires
        0 <= n <= names.len(),
    ensures
        visible_indices(names, n).to_multiset().count(i) == (if 0 <= i < n && !hidden_name(names[i]) { 1nat } else { 0nat }),
    decreases n,
{
    broadcast use vstd::seq_lib::group_to_multiset_ensures;
    if n <= 0 {
        assert(visible_indices(names, n).to_multiset() =~= vstd::multiset::Multiset::empty());
    } else {
        lemma_visible_count(names, n - 1, i);
    }
}

/// The shown entries of a directory: each entry whose name is not hidden appears exactly once,
/// no hidden entry appears, and neighbours are in order (folders before files, then by
/// lower-cased name).
pub proof fn lemma_scan_order(entries: Seq<(String, bool)>)
    ensures
        forall|i: int| 0 <= i < entries.len() ==> #[trigger] scan_order_of(entries).to_multiset().count(i)
            == (if hidden_name(entries[i].0@) { 0nat } else { 1nat }),
        forall|k: int| 0 <= k < scan_order_of(entries).len() ==> 0 <= #[trigger] scan_order_of(entries)[k] < entries.len(),
        keys_in_order(scan_order_of(entries), entry_keys(entries)),
{
    broadcast use vstd::seq_lib::group_to_multiset_ensures;
    let names = entry_names(entries);
    let v = visible_indices(names, entries.len() as int);
    lemma_sort_by_key(v, entry_keys(entries));
    assert forall|i: int| 0 <= i < entries.len() implies #[trigger] scan_order_of(entries).to_multiset().count(i)
        == (if hidden_name(entries[i].0@) { 0nat } else { 1nat }) by {
        lemma_visible_count(names, entries.len() as int, i);
    }
    assert forall|k: int| 0 <= k < scan_order_of(entries).len() implies 0 <= #[trigger] scan_order_of(entries)[k] < entries.len() by {
        let x = scan_order_of(entries)[k];
        assert(scan_order_of(entries).contains(x));
        assert(scan_order_of(entries).to_multiset().count(x) > 0);
        lemma_visible_count(names, entries.len() as int, x);
    }
}

fn text_le_exec(a: &Vec<char>, b: &Vec<char>) -> (r: bool)
    ensures
        r == text_le(a@, b@),
{
    let mut i: usize = 0;
    assert(a@.skip(0) =~= a@ && b@.skip(0) =~= b@);
    while i < a.len() && i < b.len() && a[i] == b[i]
        invariant
            i <= a@.len(),
            i <= b@.len(),
            text_le(a@, b@) == text_le(a@.skip(i as int), b@.skip(i as int)),
        decreases a.len() - i,
    {
        proof {
            assert(a@.skip(i as int).drop_first() =~= a@.skip(i + 1));
            assert(b@.skip(i as int).drop_first() =~= b@.skip(i + 1));
        }
        i += 1;
    }
    if i == a.len() {
        return true;
    }
    if i == b.len() {
        return false;
    }
    a[i] < b[i]
}

fn key_le_exec(a: &(bool, Vec<char>), b: &(bool, Vec<char>)) -> (r: bool)
    ensures
        r == entry_key_le((a.0, a.1@), (b.0, b.1@)),
{
    (!a.0 && b.0) || (a.0 == b.0 && text_le_exec(&a.1, &b.1))
}

pub open spec fn keys_view(k: Seq<(bool, Vec<char>)>) -> Seq<(bool, Seq<char>)> {
    k.map_values(|p: (bool, Vec<char>)| (p.0, p.1@))
}

pub open spec fn index_view(v: Seq<usize>) -> Seq<int> {
    v.map_values(|i: usize| i as int)
}

fn insert_index(sorted: &mut Vec<usize>, x: usize, keys: &Vec<(bool, Vec<char>)>)
    requires
        x < keys@.len(),
        forall|k: int| 0 <= k < old(sorted)@.len() ==> #[trigger] old(sorted)@[k] < keys@.len(),
    ensures
        index_view(final(sorted)@) == insert_by_key(index_view(old(sorted)@), x as int, keys_view(keys@)),
        forall|k: int| 0 <= k < final(sorted)@.len() ==> #[trigger] final(sorted)@[k] < keys@.len(),
{
    let ghost kv = keys_view(keys@);
    let mut tail: Vec<usize> = Vec::new();
    loop
        invariant
            x < keys@.len(),
            kv == keys_view(keys@),
            forall|k: int| 0 <= k < sorted@.len() ==> #[trigger] sorted@[k] < keys@.len(),
            forall|k: int| 0 <= k < tail@.len() ==> #[trigger] tail@[k] < keys@.len(),
            insert_by_key(index_view(old(sorted)@), x as int, kv)
                == insert_by_key(index_view(sorted@), x as int, kv) + index_view(tail@.reverse()),
            index_view(sorted@) + index_view(tail@.reverse()) == index_view(old(sorted)@),
        ensures
            forall|k: int| 0 <= k < sorted@.len() ==> #[trigger] sorted@[k] < keys@.len(),
            forall|k: int| 0 <= k < tail@.len() ==> #[trigger] tail@[k] < keys@.len(),
            insert_by_key(index_view(old(sorted)@), x as int, kv)
                == insert_by_key(index_view(sorted@), x as int, kv) + index_view(tail@.reverse()),
            sorted@.len() > 0 ==> entry_key_le(kv[sorted@.last() as int], kv[x as int]),
        decreases sorted@.len(),
    {
        if sorted.len() == 0 {
            break;
        }
        let last = sorted[sorted.len() - 1];
        if key_le_exec(&keys[last], &keys[x]) {
            break;
        }
        let ghost before = sorted@;
        let popped = sorted.pop().unwrap();
        proof {
            assert(before.drop_last() == sorted@);
            assert(index_view(before).drop_last() =~= index_view(sorted@));
            assert(index_view(before).last() == popped as int);
            assert(insert_by_key(index_view(before), x as int, kv) == insert_by_key(index_view(sorted@), x as int, kv).push(popped as int));
        }
        let ghost old_tail = tail@;
        tail.push(popped);
        proof {
            assert(index_view(tail@.reverse()) =~= seq![popped as int] + index_view(old_tail.reverse()));
            assert(insert_by_key(index_view(sorted@), x as int, kv).push(popped as int) + index_view(old_tail.reverse())
                =~= insert_by_key(index_view(sorted@), x as int, kv) + index_view(tail@.reverse()));
            assert(index_view(sorted@) + index_view(tail@.reverse()) =~= index_view(before) + index_view(old_tail.reverse()));
        }
    }
    let ghost base = sorted@;
    proof {
        if base.len() > 0 {
            assert(index_view(base).last() == base.last() as int);
            assert(insert_by_key(index_view(base), x as int, kv) == index_view(base).push(x as int));
        } else {
            assert(insert_by_key(index_view(base), x as int, kv) == seq![x as int]);
        }
    }
    sorted.push(x);
    proof {
        assert(index_view(sorted@) =~= index_view(base).push(x as int));
        if base.len() == 0 {
            assert(index_view(base).push(x as int) =~= seq![x as int]);
        }
    }
    while tail.len() > 0
        invariant
            forall|k: int| 0 <= k < sorted@.len() ==> #[trigger] sorted@[k] < keys@.len(),
            forall|k: int| 0 <= k < tail@.len() ==> #[trigger] tail@[k] < keys@.len(),
            insert_by_key(index_view(old(sorted)@), x as int, kv) == index_view(sorted@) + index_view(tail@.reverse()),
        decreases tail@.len(),
    {
        let ghost before_tail = tail@;
        let ghost before_sorted = sorted@;
        let t = tail.pop().unwrap();
        proof {
            assert(index_view(before_tail.reverse()) =~= seq![t as int] + index_view(tail@.reverse()));
        }
        sorted.push(t);
        proof {
            assert(index_view(sorted@) =~= index_view(before_sorted).push(t as int));
            assert(index_view(before_sorted) + index_view(before_tail.reverse()) =~= index_view(sorted@) + index_view(tail@.reverse()));
        }
    }
    proof {
        assert(index_view(tail@.reverse()) =~= Seq::<int>::empty());
        assert(index_view(sorted@) + index_view(tail@.reverse()) =~= index_view(sorted@));
    }
}

/// The order in which the entries of a directory are shown (see `scan_order_of`): `entries`
/// pairs each entry's name with whether it is a file, and the result lists indices into it.
pub fn scan_order(entries: &Vec<(String, bool)>) -> (r: Vec<usize>)
    ensures
        index_view(r@) == scan_order_of(entries@),
{
    let n = entries.len();
    let mut keys: Vec<(bool, Vec<char>)> = Vec::new();
    let mut i: usize = 0;
    while i < n
        invariant
            n == entries@.len(),
            i <= n,
            keys@.len() == i,
            forall|k: int| 0 <= k < i ==> #[trigger] keys_view(keys@)[k] == entry_keys(entries@)[k],
        decreases n - i,
    {
        let lower = lowercase(entries[i].0.as_str());
        let ghost before = keys@;
        keys.push((entries[i].1, chars_of(lower.as_str())));
        proof {
            assert forall|k: int| 0 <= k < i + 1 implies #[trigger] keys_view(keys@)[k] == entry_keys(entries@)[k] by {
                if k < i {
                    assert(keys@[k] == before[k]);
                    assert(keys_view(before)[k] == entry_keys(entries@)[k]);
                }
            }
        }
        i += 1;
    }
    let ghost kv = keys_view(keys@);
    assert(kv =~= entry_keys(entries@));
    let ghost names = entry_names(entries@);
    let mut order: Vec<usize> = Vec::new();
    let mut j: usize = 0;
    while j < n
        invariant
            n == entries@.len(),
            j <= n,
            keys@.len() == n,
            kv == keys_view(keys@),
            kv == entry_keys(entries@),
            names == entry_names(entries@),
            forall|k: int| 0 <= k < order@.len() ==> #[trigger] order@[k] < keys@.len(),
            index_view(order@) == sort_by_key(visible_indices(names, j as int), kv),
        decreases n - j,
    {
        assert(names[j as int] == entries@[j as int].0@);
        if !is_hidden_name(entries[j].0.as_str()) {
            proof {
                let v = visible_indices(names, j as int);
                assert(visible_indices(names, j + 1) == v.push(j as int));
                assert(v.push(j as int).drop_last() =~= v);
            }
            insert_index(&mut order, j, &keys);
        }
        j += 1;
    }
    order
}

} // verus!

//! MPEG transport streams: runs of packets, packet ids, and timestamps.
use vstd::prelude::*;

verus! {

/// A stretch of consecutive transport packets of one size: `data[start..end]`.
#[derive(Clone, Copy, Debug)]
pub struct TsPacketRun {
    pub packet_size: usize,
    pub start: usize,
    pub end: usize,
}

/// The fewest consecutive packets that count as a run.
pub open spec fn MIN_RUN_PACKETS() -> int {
    32
}

/// Where the chain of sync bytes (`0x47`), one every `ps` bytes from `i`, ends: the first
/// position that does not start a whole packet with a sync byte.
pub open spec fn sync_end(data: Seq<u8>, ps: int, i: int) -> int
    decreases data.len() - i,
{
    if ps > 0 && 0 <= i && i + ps <= data.len() && data[i] == 0x47 {
        sync_end(data, ps, i + ps)
    } else {
        i
    }
}

/// The runs of at least 32 packets of size `ps` found by scanning `data` from `index`.
pub open spec fn scan_runs(data: Seq<u8>, ps: int, index: int) -> Seq<TsPacketRun>
    decreases data.len() + 1 - index,
{
    if ps <= 0 || index < 0 || index + ps > data.len() {
        Seq::empty()
    } else if data[index] != 0x47 {
        scan_runs(data, ps, index + 1)
    } else {
        let end = sync_end(data, ps, index);
        proof {
            lemma_sync_end_bounds(data, ps, index);
        }
        let here = if end - index >= MIN_RUN_PACKETS() * ps {
            seq![TsPacketRun { packet_size: ps as usize, start: index as usize, end: end as usize }]
        } else {
            Seq::empty()
        };
        here + scan_runs(data, ps, end + 1)
    }
}

pub proof fn lemma_sync_end_bounds(data: Seq<u8>, ps: int, i: int)
    requires
        ps > 0,
        0 <= i,
    ensures
        i <= sync_end(data, ps, i),
        sync_end(data, ps, i) <= if i <= data.len() { data.len() as int } else { i },
    decreases data.len() - i,
{
    if i + ps <= data.len() && data[i] == 0x47 {
        lemma_sync_end_bounds(data, ps, i + ps);
    }
}

/// Run length in packets: its byte length over the packet size.
pub open spec fn run_len(r: TsPacketRun) -> int {
    r.end - r.start
}

/// The runs for each packet size, in the order the scan meets them.
pub open spec fn all_scanned_runs(data: Seq<u8>) -> Seq<TsPacketRun> {
    scan_runs(data, 188, 0) + scan_runs(data, 192, 0) + scan_runs(data, 204, 0)
}

/// `a` sorts no later than `b`: by start, and at equal starts the longer first.
pub open spec fn run_key_le(a: TsPacketRun, b: TsPacketRun) -> bool {
    a.start < b.start || (a.start == b.start && run_len(a) >= run_len(b))
}

/// `x` inserted into `sorted` after every element whose key is not greater than its own (so
/// that equal keys keep their order).
pub open spec fn insert_run(sorted: Seq<TsPacketRun>, x: TsPacketRun) -> Seq<TsPacketRun>
    decreases sorted.len(),
{
    if sorted.len() == 0 {
        seq![x]
    } else if run_key_le(sorted.last(), x) {
        sorted.push(x)
    } else {
        insert_run(sorted.drop_last(), x).push(sorted.last())
    }
}

/// `runs` stably sorted by `(start, longest first)`.
pub open spec fn sort_runs(runs: Seq<TsPacketRun>) -> Seq<TsPacketRun>
    decreases runs.len(),
{
    if runs.len() == 0 {
        Seq::empty()
    } else {
        insert_run(sort_runs(runs.drop_last()), runs.last())
    }
}

/// One step of the selection: a run that starts inside the last kept run replaces it if it
/// is longer and is dropped otherwise; any other run is kept.
pub open spec fn select_step(selected: Seq<TsPacketRun>, run: TsPacketRun) -> Seq<TsPacketRun> {
    if selected.len() > 0 && run.start < selected.last().end {
        if run_len(run) > run_len(selected.last()) {
            selected.update(selected.len() - 1, run)
        } else {
            selected
        }
    } else {
        selected.push(run)
    }
}

pub open spec fn select_runs(sorted: Seq<TsPacketRun>) -> Seq<TsPacketRun>
    decreases sorted.len(),
{
    if sorted.len() == 0 {
        Seq::empty()
    } else {
        select_step(select_runs(sorted.drop_last()), sorted.last())
    }
}

/// The packet runs of `data`: the runs of each packet size, sorted, with overlaps resolved in
/// favour of the longer run.
pub open spec fn packet_runs(data: Seq<u8>) -> Seq<TsPacketRun> {
    select_runs(sort_runs(all_scanned_runs(data)))
}

/// Records a run of `count` packets of `packet_size` bytes from `start`, if it has at least 32.
pub fn push_ts_run(runs: &mut Vec<TsPacketRun>, packet_size: usize, start: usize, count: usize)
    requires
        start + count * packet_size <= usize::MAX,
    ensures
        count >= 32 ==> final(runs)@ == old(runs)@.push(
            TsPacketRun { packet_size, start, end: (start + count * packet_size) as usize },
        ),
        count < 32 ==> final(runs)@ == old(runs)@,
{
    if count >= 32 {
        runs.push(TsPacketRun { packet_size, start, end: start + count * packet_size });
    }
}

fn scan_packet_size(data: &[u8], packet_size: usize, runs: &mut Vec<TsPacketRun>)
    requires
        packet_size == 188 || packet_size == 192 || packet_size == 204,
    ensures
        final(runs)@ == old(runs)@ + scan_runs(data@, packet_size as int, 0),
{
    let n = data.len();
    let mut index: usize = 0;
    let ghost ps = packet_size as int;
    while index <= n && n - index >= packet_size
        invariant
            ps == packet_size as int,
            n == data@.len(),
            packet_size == 188 || packet_size == 192 || packet_size == 204,
            index <= n + 1,
            old(runs)@ + scan_runs(data@, ps, 0) == runs@ + scan_runs(data@, ps, index as int),
        decreases n + 1 - index,
    {
        if data[index] != 0x47 {
            index += 1;
            continue;
        }
        let start = index;
        let mut count: usize = 0;
        proof {
            lemma_sync_end_bounds(data@, ps, start as int);
        }
        while index <= n && n - index >= packet_size && data[index] == 0x47
            invariant
                ps == packet_size as int,
                n == data@.len(),
                packet_size == 188 || packet_size == 192 || packet_size == 204,
                start <= index <= n,
                index == start + count * packet_size,
                sync_end(data@, ps, start as int) == sync_end(data@, ps, index as int),
            decreases n - index,
        {
            assert(index + packet_size == start + (count + 1) * packet_size) by (nonlinear_arith)
                requires
                    index == start + count * packet_size,
            ;
            count += 1;
            index += packet_size;
        }
        assert(sync_end(data@, ps, index as int) == index);
        let ghost old_runs = runs@;
        push_ts_run(runs, packet_size, start, count);
        proof {
            let here = if index - start >= MIN_RUN_PACKETS() * ps {
                seq![TsPacketRun { packet_size: ps as usize, start: start as usize, end: index as usize }]
            } else {
                Seq::empty()
            };
            assert(count >= 32 <==> index - start >= MIN_RUN_PACKETS() * ps) by (nonlinear_arith)
                requires
                    index == start + count * packet_size,
                    packet_size > 0,
                    ps == packet_size as int,
                    MIN_RUN_PACKETS() == 32,
            ;
            assert(scan_runs(data@, ps, start as int) == here + scan_runs(data@, ps, index + 1));
            assert(runs@ == old_runs + here);
            assert(old_runs + scan_runs(data@, ps, start as int) =~= runs@ + scan_runs(data@, ps, index + 1));
        }
        if index == n {
            assert(scan_runs(data@, ps, index + 1) =~= Seq::<TsPacketRun>::empty());
            assert(runs@ + scan_runs(data@, ps, index + 1) =~= runs@);
            return;
        }
        index = index + 1;
    }
    proof {
        assert(scan_runs(data@, ps, index as int) =~= Seq::<TsPacketRun>::empty());
    }
    assert(runs@ + scan_runs(data@, ps, index as int) =~= runs@);
}

/// Runs that come in order of start.
pub open spec fn starts_sorted(s: Seq<TsPacketRun>) -> bool {
    forall|i: int, j: int| 0 <= i < j < s.len() ==> s[i].start <= s[j].start
}

/// Runs that are non-empty, in order, and do not overlap.
pub open spec fn runs_disjoint(s: Seq<TsPacketRun>) -> bool {
    &&& forall|i: int| 0 <= i < s.len() ==> (#[trigger] s[i]).start < s[i].end
    &&& forall|i: int, j: int| 0 <= i < j < s.len() ==> s[i].end <= s[j].start
}

pub proof fn lemma_insert_members(s: Seq<TsPacketRun>, x: TsPacketRun)
    ensures
        insert_run(s, x).len() == s.len() + 1,
        forall|k: int| 0 <= k < insert_run(s, x).len() ==> (#[trigger] insert_run(s, x)[k] == x || s.contains(insert_run(s, x)[k])),
    decreases s.len(),
{
    if s.len() == 0 {
    } else if run_key_le(s.last(), x) {
        assert forall|k: int| 0 <= k < insert_run(s, x).len() implies (#[trigger] insert_run(s, x)[k] == x || s.contains(insert_run(s, x)[k])) by {
            if k < s.len() {
                assert(insert_run(s, x)[k] == s[k]);
            }
        }
    } else {
        lemma_insert_members(s.drop_last(), x);
        let t = insert_run(s.drop_last(), x);
        assert forall|k: int| 0 <= k < insert_run(s, x).len() implies (#[trigger] insert_run(s, x)[k] == x || s.contains(insert_run(s, x)[k])) by {
            if k < t.len() {
                assert(insert_run(s, x)[k] == t[k]);
                if t[k] != x {
                    let m = choose|m: int| 0 <= m < s.drop_last().len() && s.drop_last()[m] == t[k];
                    assert(s[m] == t[k]);
                }
            } else {
                assert(insert_run(s, x)[k] == s[s.len() - 1]);
            }
        }
    }
}

pub proof fn lemma_insert_sorted(s: Seq<TsPacketRun>, x: TsPacketRun)
    requires
        starts_sorted(s),
    ensures
        starts_sorted(insert_run(s, x)),
    decreases s.len(),
{
    if s.len() == 0 {
    } else if run_key_le(s.last(), x) {
        let t = s.push(x);
        assert forall|i: int, j: int| 0 <= i < j < t.len() implies t[i].start <= t[j].start by {
            if j == s.len() {
                assert(s[i].start <= s.last().start);
            }
        }
    } else {
        let d = s.drop_last();
        assert(starts_sorted(d));
        lemma_insert_sorted(d, x);
        lemma_insert_members(d, x);
        let t = insert_run(d, x);
        let u = t.push(s.last());
        assert forall|i: int, j: int| 0 <= i < j < u.len() implies u[i].start <= u[j].start by {
            if j == t.len() {
                assert(u[i] == t[i]);
                if t[i] != x {
                    let m = choose|m: int| 0 <= m < d.len() && d[m] == t[i];
                    assert(s[m] == t[i]);
                }
            } else {
                assert(u[i] == t[i]);
                assert(u[j] == t[j]);
            }
        }
    }
}

pub proof fn lemma_sort_runs(runs: Seq<TsPacketRun>)
    ensures
        starts_sorted(sort_runs(runs)),
        sort_runs(runs).len() == runs.len(),
        forall|k: int| 0 <= k < sort_runs(runs).len() ==> runs.contains(#[trigger] sort_runs(runs)[k]),
    decreases runs.len(),
{
    if runs.len() > 0 {
        let d = runs.drop_last();
        lemma_sort_runs(d);
        lemma_insert_sorted(sort_runs(d), runs.last());
        lemma_insert_members(sort_runs(d), runs.last());
        let t = sort_runs(runs);
        assert forall|k: int| 0 <= k < t.len() implies runs.contains(#[trigger] t[k]) by {
            if t[k] == runs.last() {
                assert(runs[runs.len() - 1] == t[k]);
            } else {
                let m = choose|m: int| 0 <= m < sort_runs(d).len() && sort_runs(d)[m] == t[k];
                assert(d.contains(sort_runs(d)[m]));
                let q = choose|q: int| 0 <= q < d.len() && d[q] == sort_runs(d)[m];
                assert(runs[q] == t[k]);
            }
        }
    }
}

pub proof fn lemma_select_disjoint(sorted: Seq<TsPacketRun>)
    requires
        starts_sorted(sorted),
        forall|k: int| 0 <= k < sorted.len() ==> (#[trigger] sorted[k]).start < sorted[k].end,
    ensures
        runs_disjoint(select_runs(sorted)),
        forall|k: int| 0 <= k < select_runs(sorted).len() ==> sorted.contains(#[trigger] select_runs(sorted)[k]),
    decreases sorted.len(),
{
    if sorted.len() > 0 {
        let d = sorted.drop_last();
        let r = sorted.last();
        assert forall|k: int| 0 <= k < d.len() implies (#[trigger] d[k]).start < d[k].end by {
            assert(d[k] == sorted[k]);
        }
        lemma_select_disjoint(d);
        let sel = select_runs(d);
        let out = select_step(sel, r);
        assert(r.start < r.end);
        assert forall|k: int| 0 <= k < sel.len() implies (#[trigger] sel[k]).start <= r.start by {
            let m = choose|m: int| 0 <= m < d.len() && d[m] == sel[k];
            assert(sorted[m] == sel[k]);
        }
        if sel.len() > 0 && r.start < sel.last().end {
            if run_len(r) > run_len(sel.last()) {
                let n = sel.len() - 1;
                assert(sel[n].start <= r.start);
                assert forall|i: int, j: int| 0 <= i < j < out.len() implies out[i].end <= out[j].start by {
                    if j == n {
                        assert(sel[i].end <= sel[n].start);
                    }
                }
                assert forall|k: int| 0 <= k < out.len() implies sorted.contains(#[trigger] out[k]) by {
                    if k == n {
                        assert(sorted[sorted.len() - 1] == out[k]);
                    } else {
                        let m = choose|m: int| 0 <= m < d.len() && d[m] == sel[k];
                        assert(sorted[m] == out[k]);
                    }
                }
            } else {
                assert forall|k: int| 0 <= k < out.len() implies sorted.contains(#[trigger] out[k]) by {
                    let m = choose|m: int| 0 <= m < d.len() && d[m] == sel[k];
                    assert(sorted[m] == out[k]);
                }
            }
        } else {
            assert forall|i: int, j: int| 0 <= i < j < out.len() implies out[i].end <= out[j].start by {
                if j == sel.len() {
                    if i < sel.len() - 1 {
                        assert(sel[i].end <= sel[sel.len() - 1].start);
                    }
                }
            }
            assert forall|k: int| 0 <= k < out.len() implies sorted.contains(#[trigger] out[k]) by {
                if k == sel.len() {
                    assert(sorted[sorted.len() - 1] == out[k]);
                } else {
                    let m = choose|m: int| 0 <= m < d.len() && d[m] == sel[k];
                    assert(sorted[m] == out[k]);
                }
            }
        }
    }
}

fn key_le(a: TsPacketRun, b: TsPacketRun) -> (r: bool)
    requires
        a.start <= a.end,
        b.start <= b.end,
    ensures
        r == run_key_le(a, b),
{
    a.start < b.start || (a.start == b.start && a.end - a.start >= b.end - b.start)
}

pub open spec fn ordered_run(r: TsPacketRun) -> bool {
    r.start <= r.end
}

pub proof fn lemma_scan_ordered(data: Seq<u8>, ps: int, index: int)
    requires
        0 < ps <= 204,
        0 <= index,
        data.len() <= usize::MAX,
    ensures
        forall|k: int| 0 <= k < scan_runs(data, ps, index).len() ==> ordered_run(#[trigger] scan_runs(data, ps, index)[k]) && scan_runs(data, ps, index)[k].start + MIN_RUN_PACKETS() * ps <= scan_runs(data, ps, index)[k].end && scan_runs(data, ps, index)[k].end <= data.len() && scan_runs(data, ps, index)[k].packet_size == ps,
    decreases data.len() + 1 - index,
{
    if ps <= 0 || index < 0 || index + ps > data.len() {
    } else if data[index] != 0x47 {
        lemma_scan_ordered(data, ps, index + 1);
        assert(scan_runs(data, ps, index) == scan_runs(data, ps, index + 1));
    } else {
        let end = sync_end(data, ps, index);
        lemma_sync_end_bounds(data, ps, index);
        lemma_scan_ordered(data, ps, end + 1);
        let rest = scan_runs(data, ps, end + 1);
        let here = if end - index >= MIN_RUN_PACKETS() * ps {
            seq![TsPacketRun { packet_size: ps as usize, start: index as usize, end: end as usize }]
        } else {
            Seq::empty()
        };
        let all = here + rest;
        assert forall|k: int| 0 <= k < all.len() implies ordered_run(#[trigger] all[k]) && all[k].start + MIN_RUN_PACKETS() * ps <= all[k].end && all[k].end <= data.len() && all[k].packet_size == ps by {
            if k >= here.len() {
                assert(all[k] == rest[k - here.len()]);
            }
        }
        assert(scan_runs(data, ps, index) == all);
    }
}

fn insert_sorted(sorted: &mut Vec<TsPacketRun>, x: TsPacketRun)
    requires
        ordered_run(x),
        forall|k: int| 0 <= k < old(sorted)@.len() ==> ordered_run(#[trigger] old(sorted)@[k]),
    ensures
        final(sorted)@ == insert_run(old(sorted)@, x),
        forall|k: int| 0 <= k < final(sorted)@.len() ==> ordered_run(#[trigger] final(sorted)@[k]),
{
    let mut tail: Vec<TsPacketRun> = Vec::new();
    loop
        invariant
            ordered_run(x),
            forall|k: int| 0 <= k < sorted@.len() ==> ordered_run(#[trigger] sorted@[k]),
            forall|k: int| 0 <= k < tail@.len() ==> ordered_run(#[trigger] tail@[k]),
            insert_run(old(sorted)@, x) == insert_run(sorted@, x) + tail@.reverse(),
            sorted@ + tail@.reverse() == old(sorted)@,
        ensures
            ordered_run(x),
            forall|k: int| 0 <= k < sorted@.len() ==> ordered_run(#[trigger] sorted@[k]),
            forall|k: int| 0 <= k < tail@.len() ==> ordered_run(#[trigger] tail@[k]),
            insert_run(old(sorted)@, x) == insert_run(sorted@, x) + tail@.reverse(),
            sorted@.len() > 0 ==> run_key_le(sorted@.last(), x),
        decreases sorted@.len(),
    {
        if sorted.len() == 0 {
            break;
        }
        let last = sorted[sorted.len() - 1];
        if key_le(last, x) {
            break;
        }
        let ghost before = sorted@;
        let popped = sorted.pop().unwrap();
        assert(before.drop_last() == sorted@);
        assert(insert_run(before, x) == insert_run(sorted@, x).push(popped));
        let ghost old_tail = tail@;
        tail.push(popped);
        assert(tail@.reverse() =~= seq![popped] + old_tail.reverse());
        assert(insert_run(sorted@, x).push(popped) + old_tail.reverse() =~= insert_run(sorted@, x) + tail@.reverse());
        assert(sorted@ + tail@.reverse() =~= before + old_tail.reverse());
    }
    let ghost base = sorted@;
    proof {
        if base.len() > 0 {
            assert(run_key_le(base.last(), x));
            assert(insert_run(base, x) == base.push(x));
        } else {
            assert(insert_run(base, x) == seq![x]);
            assert(base.push(x) =~= seq![x]);
        }
    }
    sorted.push(x);
    while tail.len() > 0
        invariant
            forall|k: int| 0 <= k < sorted@.len() ==> ordered_run(#[trigger] sorted@[k]),
            forall|k: int| 0 <= k < tail@.len() ==> ordered_run(#[trigger] tail@[k]),
            insert_run(old(sorted)@, x) == sorted@ + tail@.reverse(),
        decreases tail@.len(),
    {
        let ghost before_tail = tail@;
        let ghost before_sorted = sorted@;
        let t = tail.pop().unwrap();
        assert(before_tail.reverse() =~= seq![t] + tail@.reverse());
        sorted.push(t);
        assert(before_sorted + before_tail.reverse() =~= sorted@ + tail@.reverse());
    }
    assert(tail@.reverse() =~= Seq::<TsPacketRun>::empty());
    assert(sorted@ + tail@.reverse() =~= sorted@);
}

fn select(sorted: &Vec<TsPacketRun>) -> (r: Vec<TsPacketRun>)
    requires
        forall|k: int| 0 <= k < sorted@.len() ==> ordered_run(#[trigger] sorted@[k]),
    ensures
        r@ == select_runs(sorted@),
{
    let mut selected: Vec<TsPacketRun> = Vec::new();
    let mut i: usize = 0;
    while i < sorted.len()
        invariant
            i <= sorted@.len(),
            forall|k: int| 0 <= k < sorted@.len() ==> ordered_run(#[trigger] sorted@[k]),
            forall|k: int| 0 <= k < selected@.len() ==> ordered_run(#[trigger] selected@[k]),
            selected@ == select_runs(sorted@.take(i as int)),
        decreases sorted.len() - i,
    {
        let run = sorted[i];
        assert(sorted@.take(i + 1).drop_last() =~= sorted@.take(i as int));
        assert(sorted@.take(i + 1).last() == run);
        let n = selected.len();
        if n > 0 && run.start < selected[n - 1].end {
            let previous = selected[n - 1];
            if run.end - run.start > previous.end - previous.start {
                selected.set(n - 1, run);
            }
        } else {
            selected.push(run);
        }
        i += 1;
    }
    assert(sorted@.take(sorted@.len() as int) =~= sorted@);
    selected
}

/// The packet runs of `data` (see `packet_runs`): for each packet size of 188, 192 and 204
/// bytes, every chain of at least 32 packets that each start with the sync byte `0x47`; then
/// sorted by start (longer first at equal starts), keeping of runs that start inside the
/// previously kept one only the longest.
pub fn detect_ts_packet_runs(data: &[u8]) -> (r: Vec<TsPacketRun>)
    ensures
        r@ == packet_runs(data@),
        runs_disjoint(r@),
        forall|k: int| 0 <= k < r@.len() ==> all_scanned_runs(data@).contains(#[trigger] r@[k]),
{
    let _n = data.len();
    let mut runs: Vec<TsPacketRun> = Vec::new();
    scan_packet_size(data, 188, &mut runs);
    scan_packet_size(data, 192, &mut runs);
    scan_packet_size(data, 204, &mut runs);
    assert(runs@ =~= all_scanned_runs(data@));
    proof {
        lemma_scan_ordered(data@, 188, 0);
        lemma_scan_ordered(data@, 192, 0);
        lemma_scan_ordered(data@, 204, 0);
        assert forall|k: int| 0 <= k < runs@.len() implies ordered_run(#[trigger] runs@[k]) by {
            let a = scan_runs(data@, 188, 0);
            let b = scan_runs(data@, 192, 0);
            if k < a.len() {
                assert(runs@[k] == a[k]);
            } else if k < a.len() + b.len() {
                assert(runs@[k] == b[k - a.len()]);
            } else {
                assert(runs@[k] == scan_runs(data@, 204, 0)[k - a.len() - b.len()]);
            }
        }
    }
    let mut sorted: Vec<TsPacketRun> = Vec::new();
    let mut i: usize = 0;
    while i < runs.len()
        invariant
            i <= runs@.len(),
            forall|k: int| 0 <= k < runs@.len() ==> ordered_run(#[trigger] runs@[k]),
            forall|k: int| 0 <= k < sorted@.len() ==> ordered_run(#[trigger] sorted@[k]),
            sorted@ == sort_runs(runs@.take(i as int)),
        decreases runs.len() - i,
    {
        assert(runs@.take(i + 1).drop_last() =~= runs@.take(i as int));
        assert(runs@.take(i + 1).last() == runs@[i as int]);
        insert_sorted(&mut sorted, runs[i]);
        i += 1;
    }
    assert(runs@.take(runs@.len() as int) =~= runs@);
    proof {
        lemma_packet_runs_disjoint(data@);
    }
    select(&sorted)
}

/// The packet runs of any buffer come in order and do not overlap, and each is one of the
/// runs that the scan found.
pub proof fn lemma_packet_runs_disjoint(data: Seq<u8>)
    requires
        data.len() <= usize::MAX,
    ensures
        runs_disjoint(packet_runs(data)),
        forall|k: int| 0 <= k < packet_runs(data).len() ==> all_scanned_runs(data).contains(#[trigger] packet_runs(data)[k]),
{
    let all = all_scanned_runs(data);
    lemma_scan_ordered(data, 188, 0);
    lemma_scan_ordered(data, 192, 0);
    lemma_scan_ordered(data, 204, 0);
    assert forall|k: int| 0 <= k < all.len() implies (#[trigger] all[k]).start < all[k].end by {
        let a = scan_runs(data, 188, 0);
        let b = scan_runs(data, 192, 0);
        if k < a.len() {
            assert(all[k] == a[k]);
        } else if k < a.len() + b.len() {
            assert(all[k] == b[k - a.len()]);
        } else {
            assert(all[k] == scan_runs(data, 204, 0)[k - a.len() - b.len()]);
        }
    }
    lemma_sort_runs(all);
    let sorted = sort_runs(all);
    assert forall|k: int| 0 <= k < sorted.len() implies (#[trigger] sorted[k]).start < sorted[k].end by {
        assert(all.contains(sorted[k]));
    }
    lemma_select_disjoint(sorted);
    assert forall|k: int| 0 <= k < packet_runs(data).len() implies all.contains(#[trigger] packet_runs(data)[k]) by {
        assert(sorted.contains(packet_runs(data)[k]));
        let m = choose|m: int| 0 <= m < sorted.len() && sorted[m] == packet_runs(data)[k];
        assert(all.contains(sorted[m]));
    }
}


/// The byte length of a run (zero where it is reversed).
pub open spec fn run_bytes(r: TsPacketRun) -> int {
    if r.end >= r.start {
        r.end - r.start
    } else {
        0
    }
}

pub fn run_size(run: &TsPacketRun) -> (r: u64)
    ensures
        r == run_bytes(*run),
{
    run.end.saturating_sub(run.start) as u64
}

/// Total byte length of `runs`.
pub open spec fn runs_total(runs: Seq<TsPacketRun>) -> int
    decreases runs.len(),
{
    if runs.len() == 0 {
        0
    } else {
        runs_total(runs.drop_last()) + run_bytes(runs.last())
    }
}

pub proof fn lemma_runs_total_prefix(runs: Seq<TsPacketRun>, i: int)
    requires
        0 <= i <= runs.len(),
    ensures
        0 <= runs_total(runs.take(i)) <= runs_total(runs),
    decreases runs.len() - i,
{
    if i < runs.len() {
        lemma_runs_total_prefix(runs, i + 1);
        assert(runs.take(i + 1).drop_last() =~= runs.take(i));
        lemma_runs_total_nonneg(runs.take(i));
    } else {
        assert(runs.take(i) =~= runs);
        lemma_runs_total_nonneg(runs);
    }
}

pub proof fn lemma_runs_total_nonneg(runs: Seq<TsPacketRun>)
    ensures
        runs_total(runs) >= 0,
    decreases runs.len(),
{
    if runs.len() > 0 {
        lemma_runs_total_nonneg(runs.drop_last());
    }
}

/// The size of the stream served from `runs` alone: the sum of their byte lengths.
pub fn ts_virtual_size(runs: &[TsPacketRun]) -> (r: u64)
    requires
        runs_total(runs@) <= u64::MAX,
    ensures
        r == runs_total(runs@),
{
    let mut total: u64 = 0;
    let mut i: usize = 0;
    while i < runs.len()
        invariant
            i <= runs@.len(),
            runs_total(runs@) <= u64::MAX,
            total == runs_total(runs@.take(i as int)),
        decreases runs.len() - i,
    {
        proof {
            lemma_runs_total_prefix(runs@, i + 1);
            assert(runs@.take(i + 1).drop_last() =~= runs@.take(i as int));
        }
        total = total + run_size(&runs[i]);
        i += 1;
    }
    assert(runs@.take(runs@.len() as int) =~= runs@);
    total
}

/// The 13-bit packet id of a transport packet (missing header bytes read as zero).
pub open spec fn packet_pid(packet: Seq<u8>) -> u16 {
    let b1: u8 = if packet.len() > 1 { packet[1] } else { 0 };
    let b2: u8 = if packet.len() > 2 { packet[2] } else { 0 };
    ((((b1 & 0x1f) as u16) << 8u16) | (b2 as u16)) as u16
}

pub fn ts_packet_pid(packet: &[u8]) -> (r: u16)
    ensures
        r == packet_pid(packet@),
{
    let b1: u8 = if packet.len() > 1 { packet[1] } else { 0 };
    let b2: u8 = if packet.len() > 2 { packet[2] } else { 0 };
    (((b1 & 0x1f) as u16) << 8u16) | (b2 as u16)
}

/// The 33-bit timestamp held in the five bytes of a PES `PTS` field.
pub open spec fn pts_value(b: Seq<u8>) -> u64 {
    (((((b[0] >> 1u8) as u64) & 0x07) << 30u64) | ((b[1] as u64) << 22u64) | (((
    (b[2] >> 1u8) as u64) & 0x7f) << 15u64) | ((b[3] as u64) << 7u64) | (((b[4] >> 1u8) as u64)
        & 0x7f)) as u64
}

pub fn decode_pts(bytes: &[u8]) -> (r: Option<u64>)
    ensures
        r == (if bytes@.len() == 5 {
            Some(pts_value(bytes@))
        } else {
            None
        }),
{
    if bytes.len() != 5 {
        return None;
    }
    Some(
        ((((bytes[0] >> 1u8) as u64) & 0x07) << 30u64) | ((bytes[1] as u64) << 22u64) | ((((bytes[2]
            >> 1u8) as u64) & 0x7f) << 15u64) | ((bytes[3] as u64) << 7u64) | (((bytes[4] >> 1u8)
            as u64) & 0x7f),
    )
}

/// The presentation timestamp of a transport packet that starts a PES packet with one.
pub open spec fn packet_pts(packet: Seq<u8>) -> Option<u64> {
    if packet.len() < 19 || packet[0] != 0x47 {
        None
    } else if packet[1] & 0x40 == 0 {
        None
    } else {
        let adaptation_control = (packet[3] >> 4u8) & 0x03;
        if adaptation_control == 0 || adaptation_control == 2 {
            None
        } else {
            let payload_start: int = if adaptation_control == 3 {
                4 + 1 + packet[4] as int
            } else {
                4
            };
            if payload_start + 14 > packet.len() {
                None
            } else if packet[payload_start] != 0 || packet[payload_start + 1] != 0 || packet[payload_start + 2] != 1 {
                None
            } else if (packet[payload_start + 7] >> 6u8) & 0x03 == 0 {
                None
            } else {
                Some(pts_value(packet.subrange(payload_start + 9, payload_start + 14)))
            }
        }
    }
}

pub fn parse_ts_packet_pts(packet: &[u8]) -> (r: Option<u64>)
    ensures
        r == packet_pts(packet@),
{
    if packet.len() < 19 || packet[0] != 0x47 {
        return None;
    }
    let payload_unit_start = packet[1] & 0x40 != 0;
    if !payload_unit_start {
        return None;
    }
    let adaptation_control = (packet[3] >> 4u8) & 0x03;
    if adaptation_control == 0 || adaptation_control == 2 {
        return None;
    }
    let mut payload_start: usize = 4;
    if adaptation_control == 3 {
        let length = packet[4] as usize;
        payload_start = payload_start + 1 + length;
    }
    if payload_start > packet.len() || packet.len() - payload_start < 14 {
        return None;
    }
    if packet[payload_start] != 0 || packet[payload_start + 1] != 0 || packet[payload_start + 2] != 1 {
        return None;
    }
    let pts_dts_flags = (packet[payload_start + 7] >> 6u8) & 0x03;
    if pts_dts_flags == 0 {
        return None;
    }
    let b = [packet[payload_start + 9], packet[payload_start + 10], packet[payload_start + 11], packet[payload_start + 12], packet[payload_start + 13]];
    assert(b@ =~= packet@.subrange(payload_start + 9, payload_start + 14));
    decode_pts(&b)
}

/// The program clock reference of a transport packet whose adaptation field carries one, as
/// its 33-bit base (90 kHz) and 9-bit extension (27 MHz).
pub open spec fn packet_pcr(packet: Seq<u8>) -> Option<(u64, u64)> {
    if packet.len() < 12 || packet[0] != 0x47 {
        None
    } else {
        let adaptation_control = (packet[3] >> 4u8) & 0x03;
        if adaptation_control != 2 && adaptation_control != 3 {
            None
        } else if (packet[4] as int) < 7 || 5 + packet[4] as int > packet.len() {
            None
        } else if packet[5] & 0x10 == 0 {
            None
        } else {
            Some(pcr_parts(packet.subrange(6, 12)))
        }
    }
}

pub open spec fn pcr_parts(p: Seq<u8>) -> (u64, u64) {
    (
        (((p[0] as u64) << 25u64) | ((p[1] as u64) << 17u64) | ((p[2] as u64) << 9u64) | ((p[3] as u64) << 1u64) | ((p[4] as u64) >> 7u64)) as u64,
        ((((p[4] as u64) & 0x01) << 8u64) | (p[5] as u64)) as u64,
    )
}

/// The program clock reference of a transport packet, as `(base, extension)`; in seconds it is
/// `base / 90_000 + extension / 27_000_000`.
pub fn parse_ts_packet_pcr(packet: &[u8]) -> (r: Option<(u64, u64)>)
    ensures
        r == packet_pcr(packet@),
{
    if packet.len() < 12 || packet[0] != 0x47 {
        return None;
    }
    let adaptation_control = (packet[3] >> 4u8) & 0x03;
    if adaptation_control != 2 && adaptation_control != 3 {
        return None;
    }
    let adaptation_length = packet[4] as usize;
    if adaptation_length < 7 || 5 + adaptation_length > packet.len() {
        return None;
    }
    if packet[5] & 0x10 == 0 {
        return None;
    }
    let base = ((packet[6] as u64) << 25u64) | ((packet[7] as u64) << 17u64) | ((packet[8] as u64) << 9u64)
        | ((packet[9] as u64) << 1u64) | ((packet[10] as u64) >> 7u64);
    let extension = (((packet[10] as u64) & 0x01) << 8u64) | (packet[11] as u64);
    proof {
        let p = packet@.subrange(6, 12);
        assert(p[0] == packet@[6] && p[1] == packet@[7] && p[2] == packet@[8] && p[3] == packet@[9] && p[4] == packet@[10] && p[5] == packet@[11]);
    }
    Some((base, extension))
}

} // verus!

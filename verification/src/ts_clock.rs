//! How long a run of transport packets plays, from the presentation timestamps its packets
//! carry: per packet id, the first and the last timestamp seen.
use vstd::prelude::*;
use crate::mpegts::{packet_pid, packet_pts, parse_ts_packet_pts, ts_packet_pid, TsPacketRun};

verus! {

/// The timestamps seen on one packet id: the first, the last, and whether there was more
/// than one.
#[derive(Clone, Copy, Debug)]
pub struct PtsSummary {
    pub pid: u16,
    pub first: u64,
    pub last: u64,
    pub repeated: bool,
}

/// Index of the summary of `pid`, if it has one.
pub open spec fn pid_index(t: Seq<PtsSummary>, pid: u16) -> Option<int>
    decreases t.len(),
{
    if t.len() == 0 {
        None
    } else if t.last().pid == pid {
        match pid_index(t.drop_last(), pid) {
            Some(i) => Some(i),
            None => Some(t.len() - 1),
        }
    } else {
        pid_index(t.drop_last(), pid)
    }
}

/// The summaries after a timestamp `v` is seen on `pid`.
pub open spec fn pts_add(t: Seq<PtsSummary>, pid: u16, v: u64) -> Seq<PtsSummary> {
    match pid_index(t, pid) {
        Some(i) => t.update(i, PtsSummary { pid, first: t[i].first, last: v, repeated: true }),
        None => t.push(PtsSummary { pid, first: v, last: v, repeated: false }),
    }
}

/// The summaries after walking the packets of `run` in `data` from `index` on: each whole
/// packet inside both the run and the data that starts with the sync byte and carries a
/// timestamp adds it to its packet id's summary.
pub open spec fn pts_from(data: Seq<u8>, run: TsPacketRun, index: int, t: Seq<PtsSummary>) -> Seq<PtsSummary>
    decreases run.end - index,
{
    let ps = run.packet_size as int;
    if ps == 0 || index < 0 || index + ps > run.end || index + ps > data.len() {
        t
    } else {
        let packet = data.subrange(index, index + ps);
        let next = if packet[0] == 0x47 {
            match packet_pts(packet) {
                Some(v) => pts_add(t, packet_pid(packet), v),
                None => t,
            }
        } else {
            t
        };
        pts_from(data, run, index + ps, next)
    }
}

/// The timestamp summaries of the packets of `run`.
pub open spec fn run_pts_summaries(data: Seq<u8>, run: TsPacketRun) -> Seq<PtsSummary> {
    pts_from(data, run, run.start as int, Seq::empty())
}

proof fn lemma_pid_index(t: Seq<PtsSummary>, pid: u16)
    ensures
        match pid_index(t, pid) {
            Some(i) => 0 <= i < t.len() && t[i].pid == pid && forall|j: int| 0 <= j < i ==> t[j].pid != pid,
            None => forall|j: int| 0 <= j < t.len() ==> t[j].pid != pid,
        },
    decreases t.len(),
{
    if t.len() > 0 {
        lemma_pid_index(t.drop_last(), pid);
        assert forall|j: int| 0 <= j < t.len() - 1 implies t[j] == t.drop_last()[j] by {}
    }
}

fn find_pid(t: &Vec<PtsSummary>, pid: u16) -> (r: Option<usize>)
    ensures
        match pid_index(t@, pid) {
            Some(i) => r == Some(i as usize),
            None => r is None,
        },
{
    let _n = t.len();
    proof {
        lemma_pid_index(t@, pid);
    }
    let mut i: usize = 0;
    while i < t.len()
        invariant
            i <= t@.len(),
            forall|j: int| 0 <= j < i ==> t@[j].pid != pid,
        decreases t.len() - i,
    {
        if t[i].pid == pid {
            proof {
                lemma_pid_index(t@, pid);
            }
            return Some(i);
        }
        i += 1;
    }
    None
}

/// The timestamp summaries of the packets of `run` in `data` (see `run_pts_summaries`); the
/// run's packet size must not be zero.
pub fn ts_run_pts_summaries(data: &[u8], run: TsPacketRun) -> (r: Vec<PtsSummary>)
    requires
        run.packet_size > 0,
    ensures
        r@ == run_pts_summaries(data@, run),
        forall|i: int| 0 <= i < r@.len() ==> (#[trigger] r@[i]).first < pts_wrap() && r@[i].last < pts_wrap(),
{
    proof {
        lemma_pts_summaries_in_range(data@, run, run.start as int, Seq::empty());
    }
    let n = data.len();
    let ps = run.packet_size;
    let mut t: Vec<PtsSummary> = Vec::new();
    let mut index = run.start;
    while index <= run.end && run.end - index >= ps && index <= n && n - index >= ps
        invariant
            n == data@.len(),
            ps == run.packet_size,
            ps > 0,
            pts_from(data@, run, index as int, t@) == run_pts_summaries(data@, run),
        decreases run.end - index,
    {
        let packet = &data[index..index + ps];
        assert(packet@ == data@.subrange(index as int, index + ps));
        let ghost t0 = t@;
        let ghost next = if packet@[0] == 0x47 {
            match packet_pts(packet@) {
                Some(v) => pts_add(t0, packet_pid(packet@), v),
                None => t0,
            }
        } else {
            t0
        };
        if packet[0] == 0x47 {
            if let Some(v) = parse_ts_packet_pts(packet) {
                let pid = ts_packet_pid(packet);
                let _m = t.len();
                proof {
                    lemma_pid_index(t@, pid);
                }
                match find_pid(&t, pid) {
                    Some(i) => {
                        let old = t[i];
                        t.set(i, PtsSummary { pid, first: old.first, last: v, repeated: true });
                        assert(pid_index(t0, pid) == Some(i as int));
                        assert(t@ =~= pts_add(t0, pid, v));
                    },
                    None => {
                        t.push(PtsSummary { pid, first: v, last: v, repeated: false });
                        assert(t@ =~= pts_add(t0, pid, v));
                    },
                }
            }
        }
        assert(t@ =~= next);
        assert(pts_from(data@, run, index as int, t0) == pts_from(data@, run, index + ps, next));
        index = index + ps;
    }
    t
}

/// Two to the 33rd: where the 33-bit timestamp wraps.
pub open spec fn pts_wrap() -> int {
    0x2_0000_0000
}

/// The ticks (of 90 kHz) from a summary's first to its last timestamp, across one wrap of the
/// clock where the last is below the first.
pub open spec fn pts_span(s: PtsSummary) -> int {
    if s.last < s.first {
        s.last + pts_wrap() - s.first
    } else {
        s.last - s.first
    }
}

/// The longest positive span of a packet id seen more than once, if any.
pub open spec fn best_pts_span(t: Seq<PtsSummary>) -> Option<int>
    decreases t.len(),
{
    if t.len() == 0 {
        None
    } else {
        let rest = best_pts_span(t.drop_last());
        let s = t.last();
        if s.repeated && pts_span(s) > 0 {
            match rest {
                Some(m) => Some(if pts_span(s) > m { pts_span(s) } else { m }),
                None => Some(pts_span(s)),
            }
        } else {
            rest
        }
    }
}

/// The run's length in 90 kHz ticks from its timestamps (see `best_pts_span`); in seconds it
/// is the ticks over 90 000. Each timestamp is below two to the 33rd, as a PTS is.
pub fn best_pts_ticks(t: &Vec<PtsSummary>) -> (r: Option<u64>)
    requires
        forall|i: int| 0 <= i < t@.len() ==> (#[trigger] t@[i]).first < pts_wrap() && t@[i].last < pts_wrap(),
    ensures
        match best_pts_span(t@) {
            Some(m) => r == Some(m as u64),
            None => r is None,
        },
{
    let mut best: Option<u64> = None;
    let mut i: usize = 0;
    while i < t.len()
        invariant
            i <= t@.len(),
            forall|k: int| 0 <= k < t@.len() ==> (#[trigger] t@[k]).first < pts_wrap() && t@[k].last < pts_wrap(),
            match best_pts_span(t@.take(i as int)) {
                Some(m) => best == Some(m as u64) && 0 < m < pts_wrap(),
                None => best is None,
            },
        decreases t.len() - i,
    {
        let s = t[i];
        proof {
            assert(t@.take(i + 1).drop_last() =~= t@.take(i as int));
            assert(t@.take(i + 1).last() == s);
        }
        let span: u64 = if s.last < s.first {
            s.last + 0x2_0000_0000 - s.first
        } else {
            s.last - s.first
        };
        if s.repeated && span > 0 {
            best = match best {
                Some(m) => Some(if span > m { span } else { m }),
                None => Some(span),
            };
        }
        i += 1;
    }
    assert(t@.take(t@.len() as int) =~= t@);
    best
}

/// Every timestamp a summary holds is a 33-bit PTS.
pub proof fn lemma_pts_summaries_in_range(data: Seq<u8>, run: TsPacketRun, index: int, t: Seq<PtsSummary>)
    requires
        forall|i: int| 0 <= i < t.len() ==> (#[trigger] t[i]).first < pts_wrap() && t[i].last < pts_wrap(),
    ensures
        forall|i: int| 0 <= i < pts_from(data, run, index, t).len() ==> (#[trigger] pts_from(data, run, index, t)[i]).first < pts_wrap()
            && pts_from(data, run, index, t)[i].last < pts_wrap(),
    decreases run.end - index,
{
    let ps = run.packet_size as int;
    if ps == 0 || index < 0 || index + ps > run.end || index + ps > data.len() {
    } else {
        let packet = data.subrange(index, index + ps);
        let next = if packet[0] == 0x47 {
            match packet_pts(packet) {
                Some(v) => pts_add(t, packet_pid(packet), v),
                None => t,
            }
        } else {
            t
        };
        if packet[0] == 0x47 {
            match packet_pts(packet) {
                Some(v) => {
                    lemma_pts_value_range(packet);
                    lemma_pid_index(t, packet_pid(packet));
                },
                None => {},
            }
        }
        lemma_pts_summaries_in_range(data, run, index + ps, next);
        assert(pts_from(data, run, index, t) == pts_from(data, run, index + ps, next));
    }
}

proof fn lemma_pts_value_range(packet: Seq<u8>)
    ensures
        match packet_pts(packet) {
            Some(v) => v < pts_wrap(),
            None => true,
        },
{
    match packet_pts(packet) {
        Some(v) => {
            let adaptation_control = (packet[3] >> 4u8) & 0x03;
            let payload_start: int = if adaptation_control == 3 {
                4 + 1 + packet[4] as int
            } else {
                4
            };
            let b = packet.subrange(payload_start + 9, payload_start + 14);
            let b0 = b[0];
            let b1 = b[1];
            let b2 = b[2];
            let b3 = b[3];
            let b4 = b[4];
            assert(((((((b0 >> 1u8) as u64) & 0x07) << 30u64) | ((b1 as u64) << 22u64) | (((
            (b2 >> 1u8) as u64) & 0x7f) << 15u64) | ((b3 as u64) << 7u64) | (((b4 >> 1u8) as u64)
                & 0x7f)) as u64) < 0x2_0000_0000u64) by (bit_vector);
        },
        None => {},
    }
}

} // verus!

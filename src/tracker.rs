use vstd::prelude::*;
use std::collections::HashMap;
use crate::cpu_calculator::{
    CpuSample, average_percent, calculate_average_cpu_percentage, lemma_average_is_mean_over_cores,
    passes_threshold,
};
use crate::extra_info::{extra_info_text, extract_extra_info};
use crate::process_info::{ProcessInfo, ProcessInfoView, ProcessSnapshot, info_views};
use crate::ranking::{distinct_pids, is_ranking, lemma_reordering_keeps_members, rank_processes};
use crate::sample_store::{SampleStore, appended, cutoff, histories_wf, pruned};
use crate::trend::{TREND_THRESHOLD, Trend, classify_trend, trend_of};

verus! {

broadcast use vstd::std_specs::hash::group_hash_axioms;

/// Retention window used when none is configured, in seconds.
pub const DEFAULT_RETENTION_SECONDS: i64 = 60;

/// Display threshold used when none is configured: 1%, in hundredths of a percent.
pub const DEFAULT_CPU_THRESHOLD: u32 = 100;

/// The histories after one sample per process of `snap`, taken at `now`, is appended.
pub open spec fn appended_all(
    hist: Seq<(u32, Seq<CpuSample>)>,
    snap: Seq<ProcessSnapshot>,
    now: i64,
) -> Seq<(u32, Seq<CpuSample>)>
    decreases snap.len(),
{
    if snap.len() == 0 {
        hist
    } else {
        appended(
            appended_all(hist, snap.drop_last(), now),
            snap.last().pid,
            CpuSample { timestamp: now, cpu_usage: snap.last().cpu_usage },
        )
    }
}

/// The process ids of a snapshot, in order.
pub open spec fn pids_of(snap: Seq<ProcessSnapshot>) -> Seq<u32> {
    Seq::new(snap.len(), |i: int| snap[i].pid)
}

/// Index of the last process of `snap` with id `pid`, or -1.
pub open spec fn snapshot_index(snap: Seq<ProcessSnapshot>, pid: u32) -> int
    decreases snap.len(),
{
    if snap.len() == 0 {
        -1
    } else if snap.last().pid == pid {
        snap.len() - 1
    } else {
        snapshot_index(snap.drop_last(), pid)
    }
}

/// The record reported for process `p` at `percent`.
pub open spec fn record_for(p: ProcessSnapshot, percent: u32, titles: Map<u32, Vec<String>>) -> ProcessInfoView {
    ProcessInfoView {
        name: p.name@,
        pid: p.pid,
        cpu_percent: percent,
        memory_bytes: Some(p.memory_bytes),
        extra_info: extra_info_text(p, titles),
    }
}

/// One record per history, in history order, for the processes whose
/// average reaches `threshold` and that `snap` still holds.
pub open spec fn expected_records(
    hist: Seq<(u32, Seq<CpuSample>)>,
    snap: Seq<ProcessSnapshot>,
    titles: Map<u32, Vec<String>>,
    cpu_count: int,
    threshold: u32,
) -> Seq<ProcessInfoView>
    decreases hist.len(),
{
    if hist.len() == 0 {
        Seq::empty()
    } else {
        let rest = expected_records(hist.drop_last(), snap, titles, cpu_count, threshold);
        let pid = hist.last().0;
        let percent = average_percent(hist.last().1, cpu_count);
        let k = snapshot_index(snap, pid);
        if percent >= threshold && k >= 0 {
            rest.push(record_for(snap[k], percent as u32, titles))
        } else {
            rest
        }
    }
}

/// Process `p` has a history whose average reaches `threshold`, and `snap`
/// still holds it.
pub open spec fn qualifies(
    hist: Seq<(u32, Seq<CpuSample>)>,
    snap: Seq<ProcessSnapshot>,
    cpu_count: int,
    threshold: u32,
    p: u32,
) -> bool {
    exists|j: int|
        0 <= j < hist.len() && #[trigger] hist[j].0 == p && average_percent(hist[j].1, cpu_count) >= threshold
            && snapshot_index(snap, p) >= 0
}

/// Process `p` has a history whose average is `percent`.
pub open spec fn history_average_is(
    hist: Seq<(u32, Seq<CpuSample>)>,
    cpu_count: int,
    p: u32,
    percent: u32,
) -> bool {
    exists|j: int| 0 <= j < hist.len() && #[trigger] hist[j].0 == p && percent as int == average_percent(hist[j].1, cpu_count)
}

/// Some record of `s` is of process `p`.
pub open spec fn reports_pid(s: Seq<ProcessInfo>, p: u32) -> bool {
    exists|i: int| 0 <= i < s.len() && #[trigger] s[i].pid == p
}

/// Every record of the expected report comes from a qualifying history and
/// carries its average; every qualifying process is reported; no process is
/// reported twice.
pub proof fn lemma_expected_records(
    hist: Seq<(u32, Seq<CpuSample>)>,
    snap: Seq<ProcessSnapshot>,
    titles: Map<u32, Vec<String>>,
    cpu_count: int,
    threshold: u32,
)
    requires
        histories_wf(hist),
        cpu_count >= 1,
    ensures
        forall|i: int| 0 <= i < expected_records(hist, snap, titles, cpu_count, threshold).len() ==> {
            let v = #[trigger] expected_records(hist, snap, titles, cpu_count, threshold)[i];
            &&& qualifies(hist, snap, cpu_count, threshold, v.pid)
            &&& history_average_is(hist, cpu_count, v.pid, v.cpu_percent)
        },
        forall|p: u32| #[trigger] qualifies(hist, snap, cpu_count, threshold, p) ==> exists|i: int|
            0 <= i < expected_records(hist, snap, titles, cpu_count, threshold).len()
                && #[trigger] expected_records(hist, snap, titles, cpu_count, threshold)[i].pid == p,
        forall|i: int, k: int| 0 <= i < k < expected_records(hist, snap, titles, cpu_count, threshold).len()
            ==> expected_records(hist, snap, titles, cpu_count, threshold)[i].pid
                != expected_records(hist, snap, titles, cpu_count, threshold)[k].pid,
    decreases hist.len(),
{
    if hist.len() > 0 {
        let prev = hist.drop_last();
        assert(histories_wf(prev)) by {
            assert forall|i: int, j: int| 0 <= i < j < prev.len() implies prev[i].0 != prev[j].0 by {
                assert(hist[i].0 != hist[j].0);
            }
            assert forall|i: int| 0 <= i < prev.len() implies prev[i].1.len() > 0 by {
                assert(hist[i].1.len() > 0);
            }
        }
        lemma_expected_records(prev, snap, titles, cpu_count, threshold);
        let e0 = expected_records(prev, snap, titles, cpu_count, threshold);
        let e = expected_records(hist, snap, titles, cpu_count, threshold);
        let last = hist.last();
        let n = hist.len() - 1;
        assert(last == hist[n]);
        lemma_average_is_mean_over_cores(last.1, cpu_count);
        lemma_index_bounds(snap, last.0);
        // facts of the shorter history carry over
        assert forall|p: u32| qualifies(prev, snap, cpu_count, threshold, p) implies qualifies(
            hist,
            snap,
            cpu_count,
            threshold,
            p,
        ) by {
            let j = choose|j: int|
                0 <= j < prev.len() && #[trigger] prev[j].0 == p && average_percent(prev[j].1, cpu_count)
                    >= threshold && snapshot_index(snap, p) >= 0;
            assert(hist[j] == prev[j]);
        }
        assert forall|p: u32, c: u32| history_average_is(prev, cpu_count, p, c) implies history_average_is(
            hist,
            cpu_count,
            p,
            c,
        ) by {
            let j = choose|j: int|
                0 <= j < prev.len() && #[trigger] prev[j].0 == p && c as int == average_percent(prev[j].1, cpu_count);
            assert(hist[j] == prev[j]);
        }
        // no earlier record is of the last history's process
        assert forall|i: int| 0 <= i < e0.len() implies e0[i].pid != last.0 by {
            assert(qualifies(prev, snap, cpu_count, threshold, e0[i].pid));
            let j = choose|j: int|
                0 <= j < prev.len() && #[trigger] prev[j].0 == e0[i].pid && average_percent(prev[j].1, cpu_count)
                    >= threshold && snapshot_index(snap, e0[i].pid) >= 0;
            assert(hist[j].0 != hist[n].0);
        }
        let percent = average_percent(last.1, cpu_count);
        let k = snapshot_index(snap, last.0);
        if percent >= threshold && k >= 0 {
            assert(e == e0.push(record_for(snap[k], percent as u32, titles)));
            assert(e[e.len() - 1].pid == last.0);
            assert(qualifies(hist, snap, cpu_count, threshold, last.0)) by {
                assert(hist[n].0 == last.0);
            }
            assert(history_average_is(hist, cpu_count, last.0, percent as u32)) by {
                assert(hist[n].0 == last.0);
            }
            assert forall|p: u32| #[trigger] qualifies(hist, snap, cpu_count, threshold, p) implies exists|i: int|
                0 <= i < e.len() && #[trigger] e[i].pid == p by {
                if p == last.0 {
                    assert(e[e.len() - 1].pid == p);
                } else {
                    let j = choose|j: int|
                        0 <= j < hist.len() && #[trigger] hist[j].0 == p && average_percent(hist[j].1, cpu_count)
                            >= threshold && snapshot_index(snap, p) >= 0;
                    assert(prev[j] == hist[j]);
                    assert(qualifies(prev, snap, cpu_count, threshold, p));
                    let i = choose|i: int| 0 <= i < e0.len() && #[trigger] e0[i].pid == p;
                    assert(e[i] == e0[i]);
                }
            }
        } else {
            assert(e == e0);
            assert forall|p: u32| #[trigger] qualifies(hist, snap, cpu_count, threshold, p) implies exists|i: int|
                0 <= i < e.len() && #[trigger] e[i].pid == p by {
                let j = choose|j: int|
                    0 <= j < hist.len() && #[trigger] hist[j].0 == p && average_percent(hist[j].1, cpu_count)
                        >= threshold && snapshot_index(snap, p) >= 0;
                if j == n {
                    assert(false);
                }
                assert(prev[j] == hist[j]);
                assert(qualifies(prev, snap, cpu_count, threshold, p));
            }
        }
    }
}

/// The percentage held for `pid` in a previous-cycle map.
pub open spec fn previous_of(m: Map<u32, u32>, pid: u32) -> Option<u32> {
    if m.contains_key(pid) {
        Some(m[pid])
    } else {
        None
    }
}

/// Each reported process's percentage, by process id.
pub open spec fn percent_map(s: Seq<ProcessInfo>) -> Map<u32, u32>
    decreases s.len(),
{
    if s.len() == 0 {
        Map::empty()
    } else {
        percent_map(s.drop_last()).insert(s.last().pid, s.last().cpu_percent)
    }
}

/// The map of a report holds exactly the reported processes, and, when no
/// process is reported twice, each at its reported percentage.
pub proof fn lemma_percent_map(s: Seq<ProcessInfo>)
    ensures
        forall|p: u32| #[trigger] percent_map(s).contains_key(p) <==> reports_pid(s, p),
        distinct_pids(s) ==> forall|i: int| 0 <= i < s.len() ==> #[trigger] percent_map(s)[s[i].pid]
            == s[i].cpu_percent,
    decreases s.len(),
{
    if s.len() > 0 {
        let prev = s.drop_last();
        lemma_percent_map(prev);
        let n = s.len() - 1;
        let m0 = percent_map(prev);
        assert(percent_map(s) == m0.insert(s[n].pid, s[n].cpu_percent));
        assert forall|p: u32| #[trigger] percent_map(s).contains_key(p) <==> reports_pid(s, p) by {
            assert(m0.contains_key(p) <==> reports_pid(prev, p));
            if reports_pid(s, p) && p != s[n].pid {
                let i = choose|i: int| 0 <= i < s.len() && #[trigger] s[i].pid == p;
                assert(prev[i] == s[i]);
                assert(reports_pid(prev, p));
            }
            if reports_pid(prev, p) {
                let i = choose|i: int| 0 <= i < prev.len() && #[trigger] prev[i].pid == p;
                assert(s[i] == prev[i]);
            }
            if p == s[n].pid {
                assert(reports_pid(s, p));
            }
        }
        if distinct_pids(s) {
            assert(distinct_pids(prev));
            assert forall|i: int| 0 <= i < s.len() implies #[trigger] percent_map(s)[s[i].pid] == s[i].cpu_percent by {
                if i < n {
                    assert(prev[i] == s[i]);
                    assert(s[i].pid != s[n].pid);
                    assert(m0[prev[i].pid] == prev[i].cpu_percent);
                }
            }
        }
    }
}

/// The trend of each record of `ranked` against the previous-cycle map.
pub open spec fn trends_against(ranked: Seq<ProcessInfo>, previous: Map<u32, u32>) -> Seq<Trend> {
    Seq::new(
        ranked.len(),
        |i: int| trend_of(ranked[i].cpu_percent as int, previous_of(previous, ranked[i].pid), TREND_THRESHOLD as int),
    )
}

proof fn lemma_index_suffix(snap: Seq<ProcessSnapshot>, i: int, pid: u32)
    requires
        0 <= i <= snap.len(),
        forall|j: int| i <= j < snap.len() ==> snap[j].pid != pid,
    ensures
        snapshot_index(snap, pid) == snapshot_index(snap.take(i), pid),
    decreases snap.len(),
{
    if snap.len() == i {
        assert(snap.take(i) =~= snap);
    } else {
        lemma_index_suffix(snap.drop_last(), i, pid);
        assert(snap.drop_last().take(i) =~= snap.take(i));
    }
}

proof fn lemma_index_bounds(snap: Seq<ProcessSnapshot>, pid: u32)
    ensures
        -1 <= snapshot_index(snap, pid) < snap.len(),
        snapshot_index(snap, pid) >= 0 ==> snap[snapshot_index(snap, pid)].pid == pid,
    decreases snap.len(),
{
    if snap.len() > 0 {
        lemma_index_bounds(snap.drop_last(), pid);
    }
}

fn find_process(snapshot: &Vec<ProcessSnapshot>, pid: u32) -> (r: Option<usize>)
    ensures
        r.is_none() <==> snapshot_index(snapshot@, pid) < 0,
        r.is_some() ==> r.unwrap() as int == snapshot_index(snapshot@, pid) && r.unwrap() < snapshot@.len(),
{
    let mut i: usize = snapshot.len();
    while i > 0
        invariant
            i <= snapshot@.len(),
            forall|j: int| i <= j < snapshot@.len() ==> snapshot@[j].pid != pid,
        decreases i,
    {
        i = i - 1;
        if snapshot[i].pid == pid {
            proof {
                lemma_index_suffix(snapshot@, i + 1, pid);
            }
            return Some(i);
        }
    }
    proof {
        lemma_index_suffix(snapshot@, 0, pid);
    }
    None
}

/// Keeps per-process CPU histories across refresh cycles, turns them into a
/// ranked report, and remembers the last report for trends.
pub struct ProcessTracker {
    store: SampleStore,
    previous_cpu_burn: HashMap<u32, u32>,
    retention_seconds: i64,
    cpu_count: i64,
    cpu_threshold: u32,
}

impl ProcessTracker {
    pub closed spec fn spec_history(&self) -> Seq<(u32, Seq<CpuSample>)> {
        self.store@
    }

    pub closed spec fn spec_previous(&self) -> Map<u32, u32> {
        self.previous_cpu_burn@
    }

    pub closed spec fn spec_retention(&self) -> i64 {
        self.retention_seconds
    }

    pub closed spec fn spec_cpu_count(&self) -> i64 {
        self.cpu_count
    }

    pub closed spec fn spec_threshold(&self) -> u32 {
        self.cpu_threshold
    }

    pub closed spec fn wf(&self) -> bool {
        self.store.wf() && self.cpu_count >= 1
    }

    /// A tracker with no history. A core count below one is taken as one.
    pub fn new(retention_seconds: i64, cpu_threshold: u32, cpu_count: i64) -> (r: Self)
        ensures
            r.wf(),
            r.spec_history().len() == 0,
            r.spec_previous() == Map::<u32, u32>::empty(),
            r.spec_retention() == retention_seconds,
            r.spec_threshold() == cpu_threshold,
            r.spec_cpu_count() == if cpu_count < 1 { 1 } else { cpu_count },
    {
        ProcessTracker {
            store: SampleStore::new(),
            previous_cpu_burn: HashMap::new(),
            retention_seconds,
            cpu_count: if cpu_count < 1 { 1 } else { cpu_count },
            cpu_threshold,
        }
    }

    /// Record one sample per process of `snapshot` at `now` (milliseconds),
    /// then drop samples older than the retention window and the histories of
    /// processes that are not in `snapshot` or have no sample left.
    pub fn update(&mut self, now: i64, snapshot: &Vec<ProcessSnapshot>)
        requires
            old(self).wf(),
        ensures
            final(self).wf(),
            final(self).spec_history() == pruned(
                appended_all(old(self).spec_history(), snapshot@, now),
                cutoff(now as int, old(self).spec_retention() as int),
                pids_of(snapshot@),
            ),
            final(self).spec_previous() == old(self).spec_previous(),
            final(self).spec_retention() == old(self).spec_retention(),
            final(self).spec_cpu_count() == old(self).spec_cpu_count(),
            final(self).spec_threshold() == old(self).spec_threshold(),
    {
        let ghost start = self.store@;
        let mut pids: Vec<u32> = Vec::new();
        let mut i: usize = 0;
        while i < snapshot.len()
            invariant
                i <= snapshot@.len(),
                self.store.wf(),
                self.store@ == appended_all(start, snapshot@.take(i as int), now),
                pids@ == pids_of(snapshot@.take(i as int)),
                self.previous_cpu_burn == old(self).previous_cpu_burn,
                self.retention_seconds == old(self).retention_seconds,
                self.cpu_count == old(self).cpu_count,
                self.cpu_threshold == old(self).cpu_threshold,
                start == old(self).store@,
            decreases snapshot@.len() - i,
        {
            let p = &snapshot[i];
            self.store.append(p.pid, CpuSample::new(now, p.cpu_usage));
            pids.push(p.pid);
            proof {
                assert(snapshot@.take(i + 1).drop_last() =~= snapshot@.take(i as int));
                assert(pids@ =~= pids_of(snapshot@.take(i + 1)));
            }
            i = i + 1;
        }
        assert(snapshot@.take(i as int) =~= snapshot@);
        self.store.prune(now, self.retention_seconds, pids.as_slice());
    }

    /// One record per tracked process whose average reaches the threshold and
    /// that `snapshot` still holds, in history order.
    pub fn collect_records(&self, snapshot: &Vec<ProcessSnapshot>, titles: &HashMap<u32, Vec<String>>) -> (r: Vec<ProcessInfo>)
        requires
            self.wf(),
        ensures
            info_views(r@) == expected_records(
                self.spec_history(),
                snapshot@,
                titles@,
                self.spec_cpu_count() as int,
                self.spec_threshold(),
            ),
    {
        let ghost hist = self.store@;
        let histories = self.store.histories();
        let mut out: Vec<ProcessInfo> = Vec::new();
        let mut i: usize = 0;
        while i < histories.len()
            invariant
                hist == self.store@,
                histories@.len() == hist.len(),
                forall|j: int| 0 <= j < histories@.len() ==> (#[trigger] histories@[j].pid, histories@[j].samples@) == hist[j],
                i <= hist.len(),
                info_views(out@) == expected_records(
                    hist.take(i as int),
                    snapshot@,
                    titles@,
                    self.cpu_count as int,
                    self.cpu_threshold,
                ),
            decreases hist.len() - i,
        {
            let h = &histories[i];
            assert((h.pid, h.samples@) == hist[i as int]);
            let ghost before = out@;
            let percent = calculate_average_cpu_percentage(h.samples.as_slice(), self.cpu_count);
            proof {
                assert(hist.take(i + 1).drop_last() =~= hist.take(i as int));
                assert(hist.take(i + 1).last() == hist[i as int]);
                lemma_index_bounds(snapshot@, h.pid);
            }
            if passes_threshold(percent, self.cpu_threshold) {
                if let Some(k) = find_process(snapshot, h.pid) {
                    let p = &snapshot[k];
                    let info = ProcessInfo {
                        name: p.name.clone(),
                        pid: h.pid,
                        cpu_percent: percent,
                        memory_bytes: Some(p.memory_bytes),
                        extra_info: extract_extra_info(p, titles),
                    };
                    out.push(info);
                    assert(info_views(out@) =~= info_views(before).push(record_for(snapshot@[k as int], percent, titles@)));
                }
            }
            i = i + 1;
        }
        assert(hist.take(i as int) =~= hist);
        out
    }

    /// The report of this cycle: the records of `collect_records`, ranked
    /// descending by percentage, ties in history order.
    pub fn calculate_cpu_burn(&self, snapshot: &Vec<ProcessSnapshot>, titles: &HashMap<u32, Vec<String>>) -> (r: Vec<ProcessInfo>)
        requires
            self.wf(),
        ensures
            exists|c: Seq<ProcessInfo>|
                info_views(c) == expected_records(
                    self.spec_history(),
                    snapshot@,
                    titles@,
                    self.spec_cpu_count() as int,
                    self.spec_threshold(),
                ) && is_ranking(r@, c),
            distinct_pids(r@),
            forall|p: u32| reports_pid(r@, p) <==> qualifies(
                self.spec_history(),
                snapshot@,
                self.spec_cpu_count() as int,
                self.spec_threshold(),
                p,
            ),
            forall|i: int| 0 <= i < r@.len() ==> history_average_is(
                self.spec_history(),
                self.spec_cpu_count() as int,
                #[trigger] r@[i].pid,
                r@[i].cpu_percent,
            ),
    {
        let records = self.collect_records(snapshot, titles);
        let ghost c = records@;
        let r = rank_processes(records);
        proof {
            let hist = self.store@;
            let cores = self.cpu_count as int;
            let th = self.cpu_threshold;
            let e = expected_records(hist, snapshot@, titles@, cores, th);
            lemma_expected_records(hist, snapshot@, titles@, cores, th);
            assert(info_views(c) == e);
            assert(c.len() == e.len());
            assert forall|i: int| 0 <= i < c.len() implies #[trigger] c[i].pid == e[i].pid && c[i].cpu_percent
                == e[i].cpu_percent by {
                assert(info_views(c)[i] == c[i]@);
            }
            assert(distinct_pids(c)) by {
                assert forall|i: int, j: int| 0 <= i < j < c.len() implies c[i].pid != c[j].pid by {
                    assert(c[i].pid == e[i].pid);
                    assert(c[j].pid == e[j].pid);
                }
            }
            lemma_reordering_keeps_members(r@, c);
            assert forall|i: int| 0 <= i < r@.len() implies qualifies(hist, snapshot@, cores, th, #[trigger] r@[i].pid)
                && history_average_is(hist, cores, r@[i].pid, r@[i].cpu_percent) by {
                assert(r@.contains(r@[i]));
                let a = choose|a: int| 0 <= a < c.len() && c[a] == r@[i];
                assert(c[a].pid == e[a].pid);
                let v = e[a];
                assert(qualifies(hist, snapshot@, cores, th, v.pid));
            }
            assert forall|p: u32| reports_pid(r@, p) <==> qualifies(hist, snapshot@, cores, th, p) by {
                if reports_pid(r@, p) {
                    let i = choose|i: int| 0 <= i < r@.len() && #[trigger] r@[i].pid == p;
                    assert(qualifies(hist, snapshot@, cores, th, r@[i].pid));
                }
                if qualifies(hist, snapshot@, cores, th, p) {
                    let i = choose|i: int| 0 <= i < e.len() && #[trigger] e[i].pid == p;
                    assert(c[i].pid == p);
                    assert(c.contains(c[i]));
                    assert(r@.contains(c[i]));
                    let b = choose|b: int| 0 <= b < r@.len() && r@[b] == c[i];
                    assert(r@[b].pid == p);
                }
            }
        }
        r
    }

    /// Classify each record's trend against the previous cycle, then make
    /// `ranked` the previous cycle.
    pub fn record_cycle(&mut self, ranked: &Vec<ProcessInfo>) -> (r: Vec<Trend>)
        requires
            old(self).wf(),
        ensures
            final(self).wf(),
            r@ == trends_against(ranked@, old(self).spec_previous()),
            final(self).spec_previous() == percent_map(ranked@),
            forall|p: u32| #[trigger] final(self).spec_previous().contains_key(p) <==> reports_pid(ranked@, p),
            distinct_pids(ranked@) ==> forall|i: int| 0 <= i < ranked@.len()
                ==> #[trigger] final(self).spec_previous()[ranked@[i].pid] == ranked@[i].cpu_percent,
            final(self).spec_history() == old(self).spec_history(),
            final(self).spec_retention() == old(self).spec_retention(),
            final(self).spec_cpu_count() == old(self).spec_cpu_count(),
            final(self).spec_threshold() == old(self).spec_threshold(),
    {
        let mut trends: Vec<Trend> = Vec::new();
        let mut current: HashMap<u32, u32> = HashMap::new();
        let mut i: usize = 0;
        while i < ranked.len()
            invariant
                i <= ranked@.len(),
                trends@ == trends_against(ranked@.take(i as int), self.previous_cpu_burn@),
                current@ == percent_map(ranked@.take(i as int)),
            decreases ranked@.len() - i,
        {
            let info = &ranked[i];
            let previous = match self.previous_cpu_burn.get(&info.pid) {
                Some(p) => Some(*p),
                None => None,
            };
            trends.push(classify_trend(info.cpu_percent, previous, TREND_THRESHOLD));
            current.insert(info.pid, info.cpu_percent);
            proof {
                assert(ranked@.take(i + 1).drop_last() =~= ranked@.take(i as int));
                assert(trends@ =~= trends_against(ranked@.take(i + 1), self.previous_cpu_burn@));
            }
            i = i + 1;
        }
        assert(ranked@.take(i as int) =~= ranked@);
        proof {
            lemma_percent_map(ranked@);
        }
        self.previous_cpu_burn = current;
        trends
    }

    /// One refresh cycle: record `snapshot` taken at `now`, build the ranked
    /// report, classify each record's trend, and keep the report for the next
    /// cycle.
    pub fn run_cycle(&mut self, now: i64, snapshot: &Vec<ProcessSnapshot>, titles: &HashMap<u32, Vec<String>>) -> (r: (Vec<ProcessInfo>, Vec<Trend>))
        requires
            old(self).wf(),
        ensures
            final(self).wf(),
            final(self).spec_history() == pruned(
                appended_all(old(self).spec_history(), snapshot@, now),
                cutoff(now as int, old(self).spec_retention() as int),
                pids_of(snapshot@),
            ),
            exists|c: Seq<ProcessInfo>|
                info_views(c) == expected_records(
                    final(self).spec_history(),
                    snapshot@,
                    titles@,
                    old(self).spec_cpu_count() as int,
                    old(self).spec_threshold(),
                ) && is_ranking(r.0@, c),
            distinct_pids(r.0@),
            forall|p: u32| reports_pid(r.0@, p) <==> qualifies(
                final(self).spec_history(),
                snapshot@,
                old(self).spec_cpu_count() as int,
                old(self).spec_threshold(),
                p,
            ),
            forall|i: int| 0 <= i < r.0@.len() ==> history_average_is(
                final(self).spec_history(),
                old(self).spec_cpu_count() as int,
                #[trigger] r.0@[i].pid,
                r.0@[i].cpu_percent,
            ),
            r.1@ == trends_against(r.0@, old(self).spec_previous()),
            final(self).spec_previous() == percent_map(r.0@),
            forall|i: int| 0 <= i < r.0@.len() ==> #[trigger] final(self).spec_previous()[r.0@[i].pid]
                == r.0@[i].cpu_percent,
            forall|p: u32| #[trigger] final(self).spec_previous().contains_key(p) <==> reports_pid(r.0@, p),
            final(self).spec_retention() == old(self).spec_retention(),
            final(self).spec_cpu_count() == old(self).spec_cpu_count(),
            final(self).spec_threshold() == old(self).spec_threshold(),
    {
        self.update(now, snapshot);
        let ranked = self.calculate_cpu_burn(snapshot, titles);
        let trends = self.record_cycle(&ranked);
        (ranked, trends)
    }

    /// The percentage recorded for `pid` in the last cycle, if it was reported.
    pub fn previous_percent(&self, pid: u32) -> (r: Option<u32>)
        ensures
            r == previous_of(self.spec_previous(), pid),
    {
        match self.previous_cpu_burn.get(&pid) {
            Some(p) => Some(*p),
            None => None,
        }
    }

    /// The sample histories.
    pub fn history(&self) -> (r: &SampleStore)
        requires
            self.wf(),
        ensures
            r@ == self.spec_history(),
            r.wf(),
    {
        &self.store
    }
}

} // verus!

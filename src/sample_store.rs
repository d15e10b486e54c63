use vstd::prelude::*;
use crate::cpu_calculator::CpuSample;

verus! {

/// The retained samples of one process, oldest first.
#[derive(Debug, Clone)]
pub struct ProcessHistory {
    pub pid: u32,
    pub samples: Vec<CpuSample>,
}

/// Per-process sample histories, in the order in which each process was first seen.
pub struct SampleStore {
    entries: Vec<ProcessHistory>,
}

/// Earliest timestamp (in milliseconds) kept at `now` under a retention
/// window of `retention_seconds`.
pub open spec fn cutoff(now: int, retention_seconds: int) -> int {
    now - retention_seconds * 1000
}

pub open spec fn is_recent(cut: int) -> spec_fn(CpuSample) -> bool {
    |s: CpuSample| s.timestamp >= cut
}

/// The samples taken at or after `cut`, in their order.
pub open spec fn retained(samples: Seq<CpuSample>, cut: int) -> Seq<CpuSample> {
    samples.filter(is_recent(cut))
}

/// The histories left by a prune: each history loses its samples older than
/// `cut`, and is dropped when none is left or its process is not in `live`.
pub open spec fn pruned(entries: Seq<(u32, Seq<CpuSample>)>, cut: int, live: Seq<u32>) -> Seq<
    (u32, Seq<CpuSample>),
>
    decreases entries.len(),
{
    if entries.len() == 0 {
        entries
    } else {
        let rest = pruned(entries.drop_last(), cut, live);
        let pid = entries.last().0;
        let kept = retained(entries.last().1, cut);
        if kept.len() > 0 && live.contains(pid) {
            rest.push((pid, kept))
        } else {
            rest
        }
    }
}

/// The histories after `sample` is appended for `pid`.
pub open spec fn appended(entries: Seq<(u32, Seq<CpuSample>)>, pid: u32, sample: CpuSample) -> Seq<
    (u32, Seq<CpuSample>),
> {
    if exists|i: int| 0 <= i < entries.len() && entries[i].0 == pid {
        let i = choose|i: int| 0 <= i < entries.len() && entries[i].0 == pid;
        entries.update(i, (pid, entries[i].1.push(sample)))
    } else {
        entries.push((pid, seq![sample]))
    }
}

/// Each process has at most one history, and no history is empty.
pub open spec fn histories_wf(entries: Seq<(u32, Seq<CpuSample>)>) -> bool {
    &&& forall|i: int, j: int|
        0 <= i < j < entries.len() ==> entries[i].0 != entries[j].0
    &&& forall|i: int| 0 <= i < entries.len() ==> entries[i].1.len() > 0
}

impl View for SampleStore {
    type V = Seq<(u32, Seq<CpuSample>)>;

    closed spec fn view(&self) -> Seq<(u32, Seq<CpuSample>)> {
        Seq::new(self.entries@.len(), |i: int| (self.entries@[i].pid, self.entries@[i].samples@))
    }
}

fn contains_pid(pids: &[u32], pid: u32) -> (r: bool)
    ensures
        r == pids@.contains(pid),
{
    let mut i: usize = 0;
    while i < pids.len()
        invariant
            i <= pids@.len(),
            forall|j: int| 0 <= j < i ==> pids@[j] != pid,
        decreases pids@.len() - i,
    {
        if pids[i] == pid {
            return true;
        }
        i = i + 1;
    }
    false
}

impl SampleStore {
    pub open spec fn wf(&self) -> bool {
        histories_wf(self@)
    }

    pub fn new() -> (r: Self)
        ensures
            r.wf(),
            r@ == Seq::<(u32, Seq<CpuSample>)>::empty(),
    {
        SampleStore { entries: Vec::new() }
    }

    /// The histories, in order.
    pub fn histories(&self) -> (r: &Vec<ProcessHistory>)
        ensures
            r@.len() == self@.len(),
            forall|i: int| 0 <= i < r@.len() ==> (#[trigger] r@[i].pid, r@[i].samples@) == self@[i],
    {
        &self.entries
    }

    /// Number of processes with a history.
    pub fn len(&self) -> (r: usize)
        ensures
            r == self@.len(),
    {
        self.entries.len()
    }

    /// The samples held for `pid`, if any.
    pub fn samples_of(&self, pid: u32) -> (r: Option<&Vec<CpuSample>>)
        requires
            self.wf(),
        ensures
            r.is_none() <==> forall|i: int| 0 <= i < self@.len() ==> self@[i].0 != pid,
            forall|i: int| 0 <= i < self@.len() && self@[i].0 == pid ==> r.is_some() && r.unwrap()@ == self@[i].1,
    {
        let mut i: usize = 0;
        while i < self.entries.len()
            invariant
                self.wf(),
                i <= self@.len(),
                forall|j: int| 0 <= j < i ==> self@[j].0 != pid,
            decreases self@.len() - i,
        {
            if self.entries[i].pid == pid {
                assert(self@[i as int].0 == pid);
                assert forall|k: int| 0 <= k < self@.len() && self@[k].0 == pid implies k == i by {
                    if k < i {
                        assert(self@[k].0 != self@[i as int].0);
                    } else if k > i {
                        assert(self@[i as int].0 != self@[k].0);
                    }
                }
                return Some(&self.entries[i].samples);
            }
            i = i + 1;
        }
        None
    }

    /// Append `sample` at the end of the history of `pid`, creating the history if absent.
    pub fn append(&mut self, pid: u32, sample: CpuSample)
        requires
            old(self).wf(),
        ensures
            final(self).wf(),
            final(self)@ == appended(old(self)@, pid, sample),
    {
        let ghost before = self@;
        let mut i: usize = 0;
        while i < self.entries.len()
            invariant
                self@ == before,
                before == old(self)@,
                histories_wf(before),
                i <= before.len(),
                forall|j: int| 0 <= j < i ==> before[j].0 != pid,
            decreases before.len() - i,
        {
            if self.entries[i].pid == pid {
                let mut entry = self.entries.remove(i);
                entry.samples.push(sample);
                self.entries.insert(i, entry);
                proof {
                    assert(before[i as int].0 == pid);
                    let j = choose|j: int| 0 <= j < before.len() && before[j].0 == pid;
                    assert(j == i);
                    assert(self@ =~= before.update(i as int, (pid, before[i as int].1.push(sample))));
                    assert(self@ == appended(before, pid, sample));
                }
                return;
            }
            i = i + 1;
        }
        let mut samples: Vec<CpuSample> = Vec::new();
        samples.push(sample);
        self.entries.push(ProcessHistory { pid, samples });
        assert(samples@ =~= seq![sample]);
        assert(self@ =~= before.push((pid, seq![sample])));
    }

    /// Drop every sample taken more than `retention_seconds` before `now`
    /// (milliseconds, as the samples' timestamps), then every history that is
    /// left empty or whose process is not in `live`.
    pub fn prune(&mut self, now: i64, retention_seconds: i64, live: &[u32])
        requires
            old(self).wf(),
        ensures
            final(self).wf(),
            final(self)@ == pruned(old(self)@, cutoff(now as int, retention_seconds as int), live@),
            forall|i: int| 0 <= i < final(self)@.len() ==> live@.contains(#[trigger] final(self)@[i].0),
            forall|i: int, j: int|
                0 <= i < final(self)@.len() && 0 <= j < final(self)@[i].1.len()
                    ==> #[trigger] final(self)@[i].1[j].timestamp >= cutoff(now as int, retention_seconds as int),
    {
        let ghost before = self@;
        let ghost cut = cutoff(now as int, retention_seconds as int);
        let cut_ms: i128 = now as i128 - retention_seconds as i128 * 1000;
        let mut kept_entries: Vec<ProcessHistory> = Vec::new();
        let mut i: usize = 0;
        while i < self.entries.len()
            invariant
                self@ == before,
                before == old(self)@,
                histories_wf(before),
                cut_ms == cut,
                i <= before.len(),
                ({
                    let kv = Seq::new(kept_entries@.len(), |a: int| (kept_entries@[a].pid, kept_entries@[a].samples@));
                    &&& kv == pruned(before.take(i as int), cut, live@)
                    &&& histories_wf(kv)
                    &&& forall|a: int| 0 <= a < kv.len() ==> exists|j: int| 0 <= j < i && #[trigger] kv[a].0 == before[j].0
                    &&& forall|a: int| 0 <= a < kv.len() ==> live@.contains(#[trigger] kv[a].0)
                    &&& forall|a: int, b: int| 0 <= a < kv.len() && 0 <= b < kv[a].1.len() ==> #[trigger] kv[a].1[b].timestamp >= cut
                }),
            decreases before.len() - i,
        {
            let entry = &self.entries[i];
            let ghost old_kv = Seq::new(kept_entries@.len(), |a: int| (kept_entries@[a].pid, kept_entries@[a].samples@));
            let mut kept: Vec<CpuSample> = Vec::new();
            let mut j: usize = 0;
            while j < entry.samples.len()
                invariant
                    entry.samples@ == before[i as int].1,
                    cut_ms == cut,
                    j <= entry.samples@.len(),
                    kept@ == retained(entry.samples@.take(j as int), cut),
                    forall|b: int| 0 <= b < kept@.len() ==> #[trigger] kept@[b].timestamp >= cut,
                decreases entry.samples@.len() - j,
            {
                let s = entry.samples[j];
                proof {
                    assert(entry.samples@.take(j + 1) =~= entry.samples@.take(j as int).push(s));
                    entry.samples@.take(j as int).lemma_filter_push(s, is_recent(cut));
                }
                if s.timestamp as i128 >= cut_ms {
                    kept.push(s);
                }
                j = j + 1;
            }
            assert(entry.samples@.take(j as int) =~= entry.samples@);
            let alive = contains_pid(live, entry.pid);
            proof {
                assert(before.take(i + 1).drop_last() =~= before.take(i as int));
            }
            if kept.len() > 0 && alive {
                kept_entries.push(ProcessHistory { pid: entry.pid, samples: kept });
                proof {
                    let kv = Seq::new(kept_entries@.len(), |a: int| (kept_entries@[a].pid, kept_entries@[a].samples@));
                    assert(kv =~= old_kv.push((before[i as int].0, kept@)));
                    assert forall|a: int| 0 <= a < kv.len() implies exists|j: int| 0 <= j < i + 1 && #[trigger] kv[a].0 == before[j].0 by {
                        if a == kv.len() - 1 {
                            assert(kv[a].0 == before[i as int].0);
                        } else {
                            assert(old_kv[a] == kv[a]);
                        }
                    }
                    assert forall|a: int, b: int| 0 <= a < b < kv.len() implies kv[a].0 != kv[b].0 by {
                        if b == kv.len() - 1 {
                            assert(old_kv[a] == kv[a]);
                            let w = choose|w: int| 0 <= w < i && #[trigger] old_kv[a].0 == before[w].0;
                            assert(before[w].0 != before[i as int].0);
                        } else {
                            assert(old_kv[a] == kv[a]);
                            assert(old_kv[b] == kv[b]);
                        }
                    }
                    assert forall|a: int, b: int| 0 <= a < kv.len() && 0 <= b < kv[a].1.len() implies #[trigger] kv[a].1[b].timestamp >= cut by {
                        if a < kv.len() - 1 {
                            assert(old_kv[a] == kv[a]);
                        }
                    }
                    assert forall|a: int| 0 <= a < kv.len() implies live@.contains(#[trigger] kv[a].0) by {
                        if a < kv.len() - 1 {
                            assert(old_kv[a] == kv[a]);
                        }
                    }
                }
            } else {
                proof {
                    let kv = Seq::new(kept_entries@.len(), |a: int| (kept_entries@[a].pid, kept_entries@[a].samples@));
                    assert(kv =~= old_kv);
                    assert forall|a: int| 0 <= a < kv.len() implies exists|j: int| 0 <= j < i + 1 && #[trigger] kv[a].0 == before[j].0 by {
                        let w = choose|w: int| 0 <= w < i && #[trigger] old_kv[a].0 == before[w].0;
                        assert(kv[a].0 == before[w].0);
                    }
                }
            }
            i = i + 1;
        }
        assert(before.take(i as int) =~= before);
        self.entries = kept_entries;
    }
}

} // verus!

use vstd::prelude::*;
use crate::process_info::ProcessInfo;

verus! {

/// Descending by CPU percentage.
pub open spec fn sorted_descending(s: Seq<ProcessInfo>) -> bool {
    forall|i: int, j: int| 0 <= i < j < s.len() ==> s[i].cpu_percent >= s[j].cpu_percent
}

pub open spec fn percent_is(k: u32) -> spec_fn(ProcessInfo) -> bool {
    |r: ProcessInfo| r.cpu_percent == k
}

/// The records of `s` at percentage `k`, in their order in `s`.
pub open spec fn with_percent(s: Seq<ProcessInfo>, k: u32) -> Seq<ProcessInfo> {
    s.filter(percent_is(k))
}

/// `out` is `inp` sorted descending by percentage, records of equal
/// percentage keeping their relative order.
pub open spec fn is_ranking(out: Seq<ProcessInfo>, inp: Seq<ProcessInfo>) -> bool {
    &&& sorted_descending(out)
    &&& forall|k: u32| #[trigger] with_percent(out, k) == with_percent(inp, k)
}

proof fn lemma_filter_none(s: Seq<ProcessInfo>, k: u32)
    requires
        forall|j: int| 0 <= j < s.len() ==> s[j].cpu_percent != k,
    ensures
        with_percent(s, k) == Seq::<ProcessInfo>::empty(),
    decreases s.len(),
{
    reveal(Seq::filter);
    if s.len() > 0 {
        lemma_filter_none(s.drop_last(), k);
    }
}

proof fn lemma_insert_ranked(out: Seq<ProcessInfo>, p: int, x: ProcessInfo, k: u32)
    requires
        0 <= p <= out.len(),
        forall|j: int| p <= j < out.len() ==> out[j].cpu_percent < x.cpu_percent,
    ensures
        with_percent(out.insert(p, x), k) == if x.cpu_percent == k {
            with_percent(out, k).push(x)
        } else {
            with_percent(out, k)
        },
{
    let pre = out.subrange(0, p);
    let post = out.subrange(p, out.len() as int);
    let pred = percent_is(k);
    assert(out.insert(p, x) =~= pre.push(x) + post);
    assert(out =~= pre + post);
    Seq::filter_distributes_over_add(pre.push(x), post, pred);
    Seq::filter_distributes_over_add(pre, post, pred);
    pre.lemma_filter_push(x, pred);
    if x.cpu_percent == k {
        lemma_filter_none(post, k);
        assert(pre.filter(pred) + post.filter(pred) =~= pre.filter(pred));
        assert(pre.filter(pred).push(x) + post.filter(pred) =~= pre.filter(pred).push(x));
    }
}

proof fn lemma_split_last(s: Seq<ProcessInfo>, k: u32)
    requires
        s.len() > 0,
    ensures
        with_percent(s, k) == if s.last().cpu_percent == k {
            with_percent(s.drop_last(), k).push(s.last())
        } else {
            with_percent(s.drop_last(), k)
        },
{
    assert(s =~= s.drop_last().push(s.last()));
    s.drop_last().lemma_filter_push(s.last(), percent_is(k));
}

/// A sorted sequence holding a record at percentage `k` ends at or below `k`.
proof fn lemma_last_is_lowest(s: Seq<ProcessInfo>, t: Seq<ProcessInfo>, k: u32)
    requires
        sorted_descending(s),
        s.len() > 0,
        t.len() > 0,
        t.last().cpu_percent == k,
        with_percent(s, k) == with_percent(t, k),
    ensures
        s.last().cpu_percent <= k,
{
    lemma_split_last(t, k);
    assert(with_percent(t, k).len() > 0);
    if !(exists|j: int| 0 <= j < s.len() && #[trigger] s[j].cpu_percent == k) {
        lemma_filter_none(s, k);
        assert(false);
    }
    let j = choose|j: int| 0 <= j < s.len() && #[trigger] s[j].cpu_percent == k;
    let n = s.len() - 1;
    assert(s.last() == s[n]);
    if j < n {
        assert(s[j].cpu_percent >= s[n].cpu_percent);
    }
}

proof fn lemma_same_groups_equal(a: Seq<ProcessInfo>, b: Seq<ProcessInfo>)
    requires
        sorted_descending(a),
        sorted_descending(b),
        forall|k: u32| #[trigger] with_percent(a, k) == with_percent(b, k),
    ensures
        a == b,
    decreases a.len() + b.len(),
{
    if a.len() == 0 && b.len() > 0 {
        lemma_split_last(b, b.last().cpu_percent);
        assert(with_percent(a, b.last().cpu_percent) == with_percent(b, b.last().cpu_percent));
        assert(with_percent(a, b.last().cpu_percent).len() == 0) by {
            lemma_filter_none(a, b.last().cpu_percent);
        }
    } else if b.len() == 0 && a.len() > 0 {
        lemma_split_last(a, a.last().cpu_percent);
        assert(with_percent(a, a.last().cpu_percent) == with_percent(b, a.last().cpu_percent));
        assert(with_percent(b, a.last().cpu_percent).len() == 0) by {
            lemma_filter_none(b, a.last().cpu_percent);
        }
    } else if a.len() == 0 && b.len() == 0 {
        assert(a =~= b);
    } else {
        let ka = a.last().cpu_percent;
        let kb = b.last().cpu_percent;
        assert(with_percent(b, ka) == with_percent(a, ka));
        assert(with_percent(a, kb) == with_percent(b, kb));
        lemma_last_is_lowest(b, a, ka);
        lemma_last_is_lowest(a, b, kb);
        let k = ka;
        let a0 = a.drop_last();
        let b0 = b.drop_last();
        assert forall|q: u32| #[trigger] with_percent(a0, q) == with_percent(b0, q) by {
            assert(with_percent(a, q) == with_percent(b, q));
            lemma_split_last(a, q);
            lemma_split_last(b, q);
            if q == k {
                assert(with_percent(a0, q) =~= with_percent(a, q).drop_last());
                assert(with_percent(b0, q) =~= with_percent(b, q).drop_last());
            }
        }
        lemma_split_last(a, k);
        lemma_split_last(b, k);
        assert(with_percent(a, k) == with_percent(b, k));
        assert(with_percent(a, k).last() == a.last());
        assert(with_percent(b, k).last() == b.last());
        lemma_same_groups_equal(a0, b0);
        assert(a =~= a0.push(a.last()));
        assert(b =~= b0.push(b.last()));
    }
}

/// A ranking is determined by its input: two rankings of the same records
/// are the same sequence.
pub proof fn lemma_ranking_unique(a: Seq<ProcessInfo>, b: Seq<ProcessInfo>, inp: Seq<ProcessInfo>)
    requires
        is_ranking(a, inp),
        is_ranking(b, inp),
    ensures
        a == b,
{
    assert forall|k: u32| #[trigger] with_percent(a, k) == with_percent(b, k) by {
        assert(with_percent(a, k) == with_percent(inp, k));
        assert(with_percent(b, k) == with_percent(inp, k));
    }
    lemma_same_groups_equal(a, b);
}

/// Records that differ in process id.
pub open spec fn distinct_pids(s: Seq<ProcessInfo>) -> bool {
    forall|i: int, j: int| 0 <= i < j < s.len() ==> s[i].pid != s[j].pid
}

/// Reordering a sequence keeps its members, and keeps process ids distinct.
pub proof fn lemma_reordering_keeps_members(out: Seq<ProcessInfo>, inp: Seq<ProcessInfo>)
    requires
        out.to_multiset() == inp.to_multiset(),
    ensures
        forall|x: ProcessInfo| out.contains(x) <==> inp.contains(x),
        distinct_pids(inp) ==> distinct_pids(out),
{
    assert forall|x: ProcessInfo| out.contains(x) <==> inp.contains(x) by {
        vstd::seq_lib::to_multiset_contains(out, x);
        vstd::seq_lib::to_multiset_contains(inp, x);
    }
    if distinct_pids(inp) {
        assert(inp.no_duplicates()) by {
            assert forall|i: int, j: int| 0 <= i < inp.len() && 0 <= j < inp.len() && i != j
                implies inp[i] != inp[j] by {
                if i < j {
                    assert(inp[i].pid != inp[j].pid);
                } else {
                    assert(inp[j].pid != inp[i].pid);
                }
            }
        }
        inp.lemma_multiset_has_no_duplicates();
        out.lemma_multiset_has_no_duplicates_conv();
        assert forall|i: int, j: int| 0 <= i < j < out.len() implies out[i].pid != out[j].pid by {
            assert(out.contains(out[i]));
            assert(out.contains(out[j]));
            let a = choose|a: int| 0 <= a < inp.len() && inp[a] == out[i];
            let b = choose|b: int| 0 <= b < inp.len() && inp[b] == out[j];
            assert(out[i] != out[j]);
            if a < b {
                assert(inp[a].pid != inp[b].pid);
            } else if b < a {
                assert(inp[b].pid != inp[a].pid);
            }
        }
    }
}

/// Sort records descending by CPU percentage. The sort is stable: records of
/// equal percentage keep their relative order.
pub fn rank_processes(records: Vec<ProcessInfo>) -> (r: Vec<ProcessInfo>)
    ensures
        is_ranking(r@, records@),
        r@.to_multiset() == records@.to_multiset(),
        r@.len() == records@.len(),
{
    let ghost input = records@;
    let total: usize = records.len();
    let mut rest = records;
    let mut out: Vec<ProcessInfo> = Vec::new();
    let mut done: usize = 0;
    assert(input.take(0) =~= out@);
    while rest.len() > 0
        invariant
            done <= input.len(),
            input.len() == total,
            rest@ == input.skip(done as int),
            out@.len() == done,
            sorted_descending(out@),
            out@.to_multiset() == input.take(done as int).to_multiset(),
            forall|k: u32| #[trigger] with_percent(out@, k) == with_percent(input.take(done as int), k),
        decreases rest@.len(),
    {
        let x = rest.remove(0);
        assert(x == input[done as int]);
        let mut p: usize = 0;
        while p < out.len() && out[p].cpu_percent >= x.cpu_percent
            invariant
                p <= out@.len(),
                forall|j: int| 0 <= j < p ==> out@[j].cpu_percent >= x.cpu_percent,
            decreases out@.len() - p,
        {
            p = p + 1;
        }
        let ghost before = out@;
        assert(forall|j: int| p <= j < before.len() ==> before[j].cpu_percent < x.cpu_percent) by {
            assert forall|j: int| p <= j < before.len() implies before[j].cpu_percent
                < x.cpu_percent by {
                if p < before.len() {
                    assert(before[p as int].cpu_percent < x.cpu_percent);
                    assert(before[p as int].cpu_percent >= before[j].cpu_percent || p as int == j);
                }
            }
        }
        out.insert(p, x);
        proof {
            let next = input.take(done + 1);
            assert(next =~= input.take(done as int).push(x));
            assert forall|k: u32| #[trigger] with_percent(out@, k) == with_percent(next, k) by {
                lemma_insert_ranked(before, p as int, x, k);
                input.take(done as int).lemma_filter_push(x, percent_is(k));
            }
            assert forall|i: int, j: int| 0 <= i < j < out@.len() implies out@[i].cpu_percent
                >= out@[j].cpu_percent by {
                assert(out@[i] == if i < p { before[i] } else if i == p { x } else { before[i - 1] });
                assert(out@[j] == if j < p { before[j] } else if j == p { x } else { before[j - 1] });
            }
            assert(rest@ =~= input.skip(done + 1));
            vstd::seq_lib::to_multiset_insert(before, p as int, x);
            vstd::seq_lib::to_multiset_build(input.take(done as int), x);
        }
        done = done + 1;
    }
    assert(input.take(done as int) =~= input);
    out
}

} // verus!

use vstd::prelude::*;

verus! {

/// One CPU reading of one process.
///
/// `timestamp` is in milliseconds since the Unix epoch; `cpu_usage` is the raw
/// usage in hundredths of a percent, summed over all cores (so it may exceed
/// `10_000` on a multi-core host).
#[derive(Clone, Copy, Debug, PartialEq, Eq, Structural)]
pub struct CpuSample {
    pub timestamp: i64,
    pub cpu_usage: u32,
}

impl CpuSample {
    pub fn new(timestamp: i64, cpu_usage: u32) -> (r: Self)
        ensures
            r.timestamp == timestamp,
            r.cpu_usage == cpu_usage,
    {
        CpuSample { timestamp, cpu_usage }
    }
}

/// Sum of the raw usage of all samples.
pub open spec fn total_usage(samples: Seq<CpuSample>) -> nat
    decreases samples.len(),
{
    if samples.len() == 0 {
        0
    } else {
        total_usage(samples.drop_last()) + samples.last().cpu_usage as nat
    }
}

/// Mean raw usage divided by the core count, rounded down; zero when there is
/// nothing to average or the core count is not positive.
pub open spec fn average_percent(samples: Seq<CpuSample>, cpu_count: int) -> int {
    if samples.len() == 0 || cpu_count <= 0 {
        0
    } else {
        total_usage(samples) as int / (samples.len() * cpu_count)
    }
}

/// For a non-empty set of samples and a positive core count, the average
/// percentage is the mean raw usage (rounded down) divided by the core count
/// (rounded down), and it fits in a `u32`.
pub proof fn lemma_average_is_mean_over_cores(samples: Seq<CpuSample>, cpu_count: int)
    requires
        samples.len() > 0,
        cpu_count > 0,
    ensures
        average_percent(samples, cpu_count) == (total_usage(samples) as int / samples.len() as int)
            / cpu_count,
        0 <= average_percent(samples, cpu_count) <= u32::MAX,
{
    vstd::arithmetic::div_mod::lemma_div_denominator(
        total_usage(samples) as int,
        samples.len() as int,
        cpu_count,
    );
    lemma_total_usage_bound(samples);
    let t = total_usage(samples) as int;
    let n = samples.len() as int;
    let m = u32::MAX as int;
    assert(0 <= t / (n * cpu_count) <= m) by (nonlinear_arith)
        requires
            0 <= t <= n * m,
            n >= 1,
            cpu_count >= 1,
            m >= 0,
    ;
}

proof fn lemma_total_usage_bound(samples: Seq<CpuSample>)
    ensures
        total_usage(samples) <= samples.len() * (u32::MAX as nat),
    decreases samples.len(),
{
    if samples.len() > 0 {
        lemma_total_usage_bound(samples.drop_last());
        assert((samples.len() - 1) * (u32::MAX as nat) + u32::MAX as nat == samples.len() * (
        u32::MAX as nat)) by (nonlinear_arith);
    }
}

/// Average CPU percentage of a set of samples, normalised by the core count so
/// that `10_000` (100%) means one full core, in hundredths of a percent.
pub fn calculate_average_cpu_percentage(samples: &[CpuSample], cpu_count: i64) -> (r: u32)
    ensures
        r as int == average_percent(samples@, cpu_count as int),
        samples@.len() == 0 || cpu_count <= 0 ==> r == 0,
{
    let n = samples.len();
    if n == 0 || cpu_count <= 0 {
        return 0;
    }
    let mut total: u128 = 0;
    let mut i: usize = 0;
    while i < n
        invariant
            n == samples@.len(),
            i <= n,
            total == total_usage(samples@.take(i as int)),
            total <= i * (u32::MAX as nat),
        decreases n - i,
    {
        proof {
            assert(samples@.take(i + 1).drop_last() =~= samples@.take(i as int));
            assert((i + 1) * (u32::MAX as nat) == i * (u32::MAX as nat) + u32::MAX as nat)
                by (nonlinear_arith);
        }
        total = total + samples[i].cpu_usage as u128;
        i = i + 1;
    }
    assert(samples@.take(n as int) =~= samples@);
    proof {
        let a = n as int;
        let b = cpu_count as int;
        assert(0 < a * b < 0x1_0000_0000_0000_0000_0000_0000_0000_0000) by (nonlinear_arith)
            requires
                1 <= a <= usize::MAX,
                1 <= b <= i64::MAX,
        ;
    }
    let denominator: u128 = n as u128 * cpu_count as u128;
    let q = total / denominator;
    proof {
        let t = total as int;
        let d = denominator as int;
        let m = u32::MAX as int;
        assert(d >= n as int) by (nonlinear_arith)
            requires
                d == n as int * cpu_count as int,
                cpu_count >= 1,
                n >= 1,
        ;
        assert(q as int <= m) by (nonlinear_arith)
            requires
                q as int == t / d,
                t <= n as int * m,
                d >= n as int,
                n >= 1,
                m >= 0,
        ;
    }
    q as u32
}

/// Whether a process at `percent` is shown under `threshold`; the boundary is kept.
pub fn passes_threshold(percent: u32, threshold: u32) -> (r: bool)
    ensures
        r == (percent >= threshold),
{
    percent >= threshold
}

} // verus!

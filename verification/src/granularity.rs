//! Backtest bar resolutions, their length in milliseconds, and the time
//! arithmetic of converting bar series between resolutions.
use vstd::prelude::*;
use crate::int_math::div_i64;
use crate::kline::{interval_start, lemma_trunc_product_bounded};

verus! {

/// Resolution of backtest bars.
#[derive(Debug, Clone, Copy, PartialEq, Eq)]
pub enum TimeGranularity {
    Tick,
    Seconds(u32),
    Minutes(u32),
    Hours(u32),
    Days(u32),
}

/// Length of one bar in milliseconds; ticks have no fixed length.
pub open spec fn granularity_ms(g: TimeGranularity) -> Option<int> {
    match g {
        TimeGranularity::Tick => None,
        TimeGranularity::Seconds(s) => Some(s * 1_000),
        TimeGranularity::Minutes(m) => Some(m * 60_000),
        TimeGranularity::Hours(h) => Some(h * 3_600_000),
        TimeGranularity::Days(d) => Some(d * 86_400_000),
    }
}

impl TimeGranularity {
    pub fn to_ms(&self) -> (r: Option<u64>)
        ensures
            match granularity_ms(*self) {
                Some(ms) => r == Some(ms as u64) && ms <= u64::MAX,
                None => r is None,
            },
    {
        match self {
            TimeGranularity::Tick => None,
            TimeGranularity::Seconds(s) => Some(*s as u64 * 1_000),
            TimeGranularity::Minutes(m) => Some(*m as u64 * 60_000),
            TimeGranularity::Hours(h) => Some(*h as u64 * 3_600_000),
            TimeGranularity::Days(d) => Some(*d as u64 * 86_400_000),
        }
    }
}

/// Converts bar series between resolutions.
pub struct GranularityConverter;

/// A run of consecutive bars that fall in one bucket: positions
/// `[first, end)` and the start of their bucket.
#[derive(Debug, Clone, Copy, PartialEq, Eq)]
pub struct BucketRun {
    pub first: usize,
    pub end: usize,
    pub bucket_start: i64,
}

/// The maximal runs of equal neighbours in `b`, as `(first, end, value)`.
pub open spec fn bucket_runs(b: Seq<int>) -> Seq<(int, int, int)>
    decreases b.len(),
{
    if b.len() == 0 {
        Seq::empty()
    } else {
        let r = bucket_runs(b.drop_last());
        let n = b.len() - 1;
        if n > 0 && b[n - 1] == b[n] {
            r.update(r.len() - 1, (r.last().0, n + 1, b[n]))
        } else {
            r.push((n, n + 1, b[n]))
        }
    }
}

proof fn lemma_bucket_runs_nonempty(b: Seq<int>)
    ensures
        b.len() > 0 ==> bucket_runs(b).len() > 0 && bucket_runs(b).last().2 == b.last(),
    decreases b.len(),
{
    if b.len() > 1 {
        lemma_bucket_runs_nonempty(b.drop_last());
    }
}

/// The runs follow each other without gap from the first bar to the last,
/// each non-empty, neighbours in different buckets.
proof fn lemma_bucket_runs_tile(b: Seq<int>)
    ensures
        (b.len() == 0) == (bucket_runs(b).len() == 0),
        bucket_runs(b).len() > 0 ==> bucket_runs(b)[0].0 == 0 && bucket_runs(b).last().1 == b.len(),
        forall|k: int| 0 <= k < bucket_runs(b).len() ==> #[trigger] bucket_runs(b)[k].0 < bucket_runs(b)[k].1,
        forall|k: int|
            0 <= k < bucket_runs(b).len() - 1 ==> #[trigger] bucket_runs(b)[k].1 == bucket_runs(b)[k + 1].0
                && bucket_runs(b)[k].2 != bucket_runs(b)[k + 1].2,
    decreases b.len(),
{
    if b.len() > 0 {
        let p = b.drop_last();
        lemma_bucket_runs_tile(p);
        lemma_bucket_runs_nonempty(p);
        let r = bucket_runs(b);
        let q = bucket_runs(p);
        let n = b.len() - 1;
        if n > 0 && b[n - 1] == b[n] {
            assert(r.len() == q.len());
            assert forall|k: int| 0 <= k < r.len() implies #[trigger] r[k].0 < r[k].1 by {
                if k < q.len() - 1 {
                    assert(r[k] == q[k]);
                } else {
                    assert(q[k].0 < q[k].1);
                }
            }
            assert forall|k: int| 0 <= k < r.len() - 1 implies #[trigger] r[k].1 == r[k + 1].0 && r[k].2 != r[k + 1].2 by {
                assert(r[k] == q[k]);
                assert(q[k].1 == q[k + 1].0 && q[k].2 != q[k + 1].2);
                if k + 1 == r.len() - 1 {
                    assert(q.last().2 == p.last());
                }
            }
        } else {
            assert forall|k: int| 0 <= k < r.len() implies #[trigger] r[k].0 < r[k].1 by {
                if k < q.len() {
                    assert(r[k] == q[k]);
                }
            }
            assert forall|k: int| 0 <= k < r.len() - 1 implies #[trigger] r[k].1 == r[k + 1].0 && r[k].2 != r[k + 1].2 by {
                assert(r[k] == q[k]);
                if k + 1 < q.len() {
                    assert(r[k + 1] == q[k + 1]);
                } else {
                    assert(q.last().2 == p.last());
                }
            }
        }
    }
}

/// Bar `j` of run `k` lies in the run's bucket.
proof fn lemma_bucket_run_member(b: Seq<int>, k: int, j: int)
    requires
        0 <= k < bucket_runs(b).len(),
        bucket_runs(b)[k].0 <= j < bucket_runs(b)[k].1,
    ensures
        b[j] == bucket_runs(b)[k].2,
    decreases b.len(),
{
    let p = b.drop_last();
    let r = bucket_runs(b);
    let q = bucket_runs(p);
    let n = b.len() - 1;
    lemma_bucket_runs_tile(p);
    lemma_bucket_runs_nonempty(p);
    if n > 0 && b[n - 1] == b[n] {
        assert(r == q.update(q.len() - 1, (q.last().0, n + 1, b[n])));
        if k < q.len() - 1 {
            assert(r[k] == q[k]);
            lemma_runs_ends_ordered(p, k);
            lemma_runs_start_nonneg(p, k);
            lemma_bucket_run_member(p, k, j);
            assert(p[j] == b[j]);
        } else if j < n {
            assert(r[k] == (q.last().0, n + 1, b[n]));
            assert(q[k] == q.last());
            lemma_runs_start_nonneg(p, k);
            lemma_bucket_run_member(p, k, j);
            assert(p[j] == b[j]);
            assert(p.last() == b[n - 1]);
        } else {
            assert(r[k] == (q.last().0, n + 1, b[n]));
        }
    } else {
        assert(r == q.push((n, n + 1, b[n])));
        if k < q.len() {
            assert(r[k] == q[k]);
            lemma_runs_ends_ordered(p, k);
            lemma_runs_start_nonneg(p, k);
            lemma_bucket_run_member(p, k, j);
            assert(p[j] == b[j]);
        } else {
            assert(r[k] == (n, n + 1, b[n]));
        }
    }
}

/// Every bar of a run lies in the run's bucket.
proof fn lemma_bucket_runs_members(b: Seq<int>)
    ensures
        forall|k: int, j: int|
            0 <= k < bucket_runs(b).len() && bucket_runs(b)[k].0 <= j < bucket_runs(b)[k].1 ==> #[trigger] b[j] == #[trigger] bucket_runs(b)[k].2,
{
    assert forall|k: int, j: int| 0 <= k < bucket_runs(b).len() && bucket_runs(b)[k].0 <= j < bucket_runs(b)[k].1 implies #[trigger] b[j] == #[trigger] bucket_runs(b)[k].2 by {
        lemma_bucket_run_member(b, k, j);
    }
}

/// Runs start at or after the first bar.
proof fn lemma_runs_start_nonneg(b: Seq<int>, k: int)
    requires
        0 <= k < bucket_runs(b).len(),
    ensures
        0 <= bucket_runs(b)[k].0,
    decreases k,
{
    lemma_bucket_runs_tile(b);
    if k > 0 {
        lemma_runs_start_nonneg(b, k - 1);
        assert(bucket_runs(b)[k - 1].1 == bucket_runs(b)[k].0);
        assert(bucket_runs(b)[k - 1].0 < bucket_runs(b)[k - 1].1);
    }
}

/// Run ends never pass the last run's end.
proof fn lemma_runs_ends_ordered(b: Seq<int>, k: int)
    requires
        0 <= k < bucket_runs(b).len(),
    ensures
        bucket_runs(b)[k].1 <= bucket_runs(b).last().1,
    decreases bucket_runs(b).len() - k,
{
    lemma_bucket_runs_tile(b);
    let r = bucket_runs(b);
    if k < r.len() - 1 {
        assert(r[k].1 == r[k + 1].0);
        assert(r[k + 1].0 < r[k + 1].1);
        lemma_runs_ends_ordered(b, k + 1);
    }
}

/// The runs partition the bars: they are non-empty, follow each other
/// without gap from the first bar to the last, every bar of a run lies in
/// the run's bucket, and neighbouring runs lie in different buckets.
pub proof fn lemma_bucket_runs_partition(b: Seq<int>)
    ensures
        (b.len() == 0) == (bucket_runs(b).len() == 0),
        bucket_runs(b).len() > 0 ==> bucket_runs(b)[0].0 == 0 && bucket_runs(b).last().1 == b.len(),
        forall|k: int| 0 <= k < bucket_runs(b).len() ==> #[trigger] bucket_runs(b)[k].0 < bucket_runs(b)[k].1,
        forall|k: int|
            0 <= k < bucket_runs(b).len() - 1 ==> #[trigger] bucket_runs(b)[k].1 == bucket_runs(b)[k + 1].0
                && bucket_runs(b)[k].2 != bucket_runs(b)[k + 1].2,
        forall|k: int, j: int|
            0 <= k < bucket_runs(b).len() && bucket_runs(b)[k].0 <= j < bucket_runs(b)[k].1 ==> #[trigger] b[j] == #[trigger] bucket_runs(b)[k].2,
{
    lemma_bucket_runs_tile(b);
    lemma_bucket_runs_members(b);
}

/// The buckets of width `period` that bars opening at `open_ts` fall in.
pub open spec fn buckets_of(open_ts: Seq<i64>, period: int) -> Seq<int> {
    Seq::new(open_ts.len(), |i: int| interval_start(open_ts[i] as int, period))
}

/// The view of a run.
pub open spec fn run_view(r: BucketRun) -> (int, int, int) {
    (r.first as int, r.end as int, r.bucket_start as int)
}

impl GranularityConverter {
    /// How bars opening at `open_ts` group when downsampled to buckets of
    /// `target_ms`: consecutive bars of one bucket form one coarse bar.
    pub fn downsample_runs(open_ts: &Vec<i64>, target_ms: u64) -> (r: Vec<BucketRun>)
        requires
            0 < target_ms <= i64::MAX,
        ensures
            r@.len() == bucket_runs(buckets_of(open_ts@, target_ms as int)).len(),
            forall|k: int| 0 <= k < r@.len() ==> #[trigger] run_view(r@[k]) == bucket_runs(buckets_of(open_ts@, target_ms as int))[k],
    {
        let period = target_ms as i64;
        let ghost b = buckets_of(open_ts@, target_ms as int);
        let mut out: Vec<BucketRun> = Vec::new();
        let mut i: usize = 0;
        while i < open_ts.len()
            invariant
                0 <= i <= open_ts@.len(),
                period == target_ms,
                0 < period,
                b == buckets_of(open_ts@, target_ms as int),
                out@.len() == bucket_runs(b.take(i as int)).len(),
                forall|k: int| 0 <= k < out@.len() ==> #[trigger] run_view(out@[k]) == bucket_runs(b.take(i as int))[k],
                forall|k: int| 0 <= k < out@.len() ==> out@[k].end <= i,
            decreases open_ts@.len() - i,
        {
            let ts = open_ts[i];
            proof {
                lemma_trunc_product_bounded(ts as int, period as int);
            }
            let bucket = div_i64(ts, period) * period;
            proof {
                assert(b.take(i as int + 1).drop_last() =~= b.take(i as int));
                assert(b[i as int] == bucket);
                lemma_bucket_runs_nonempty(b.take(i as int));
            }
            let n = out.len();
            let ghost r = bucket_runs(b.take(i as int));
            let ghost t = b.take(i as int + 1);
            proof {
                if n > 0 {
                    assert(run_view(out@[n - 1]) == r[n - 1]);
                }
            }
            if n > 0 && out[n - 1].bucket_start == bucket {
                let last = out.pop().unwrap();
                proof {
                    assert(b.take(i as int).last() == b[i - 1]);
                    assert(t[i - 1] == t[i as int]);
                    assert(bucket_runs(t) == r.update(r.len() - 1, (r.last().0, i + 1, t[i as int])));
                }
                out.push(BucketRun { first: last.first, end: i + 1, bucket_start: bucket });
                proof {
                    assert forall|k: int| 0 <= k < out@.len() implies #[trigger] run_view(out@[k]) == bucket_runs(t)[k] by {
                        if k < n - 1 {
                            assert(run_view(out@[k]) == r[k]);
                        }
                    }
                }
            } else {
                proof {
                    if i > 0 {
                        assert(b.take(i as int).last() == b[i - 1]);
                        assert(t[i - 1] != t[i as int]);
                    }
                    assert(bucket_runs(t) == r.push((i as int, i + 1, t[i as int])));
                }
                out.push(BucketRun { first: i, end: i + 1, bucket_start: bucket });
                proof {
                    assert forall|k: int| 0 <= k < out@.len() implies #[trigger] run_view(out@[k]) == bucket_runs(t)[k] by {
                        if k < n {
                            assert(run_view(out@[k]) == r[k]);
                        }
                    }
                }
            }
            i = i + 1;
        }
        proof {
            assert(b.take(open_ts@.len() as int) =~= b);
        }
        out
    }

    /// Opening times of the filler bars that close a gap after a bar closing
    /// at `prev_close_ts` and before one opening at `next_open_ts`: one every
    /// `period` from `prev_close_ts`, while before `next_open_ts`.
    pub fn fill_steps(prev_close_ts: i64, next_open_ts: i64, period: i64) -> (r: Vec<i64>)
        requires
            period > 0,
            next_open_ts as int - 1 + period <= i64::MAX,
        ensures
            forall|k: int| 0 <= k < r@.len() ==> #[trigger] r@[k] == prev_close_ts + k * period && r@[k] < next_open_ts,
            prev_close_ts + r@.len() * period >= next_open_ts,
    {
        let mut out: Vec<i64> = Vec::new();
        let mut fill_ts = prev_close_ts;
        proof {
            assert(prev_close_ts + 0 * period == prev_close_ts) by (nonlinear_arith);
        }
        while fill_ts < next_open_ts
            invariant
                period > 0,
                next_open_ts as int - 1 + period <= i64::MAX,
                fill_ts == prev_close_ts + out@.len() * period,
                forall|k: int| 0 <= k < out@.len() ==> #[trigger] out@[k] == prev_close_ts + k * period && out@[k] < next_open_ts,
            decreases if fill_ts < next_open_ts {
                next_open_ts - fill_ts
            } else {
                0
            },
        {
            out.push(fill_ts);
            proof {
                assert(prev_close_ts + out@.len() * period == fill_ts + period) by (nonlinear_arith)
                    requires
                        fill_ts == prev_close_ts + (out@.len() - 1) * period,
                ;
            }
            fill_ts = fill_ts + period;
        }
        out
    }
}

/// The bar a tick at `ts_ms` falls in, for bars of `granularity_ms` (read as
/// a signed number of milliseconds): it opens at `ts_ms` rounded toward zero
/// to a multiple of the length, and closes one length later.
pub fn tick_bar_bounds(ts_ms: i64, granularity_ms: u64) -> (r: (i64, i64))
    requires
        granularity_ms as i64 != 0,
        !(ts_ms == i64::MIN && granularity_ms as i64 == -1),
        interval_start(ts_ms as int, granularity_ms as i64 as int) + granularity_ms as i64 <= i64::MAX,
        interval_start(ts_ms as int, granularity_ms as i64 as int) + granularity_ms as i64 >= i64::MIN,
    ensures
        r.0 == interval_start(ts_ms as int, granularity_ms as i64 as int),
        r.1 == r.0 + granularity_ms as i64,
{
    let period = granularity_ms as i64;
    proof {
        lemma_trunc_product_bounded(ts_ms as int, period as int);
    }
    let bar_start = div_i64(ts_ms, period) * period;
    (bar_start, bar_start + period)
}

/// What resampling bars into longer periods does with the next bar.
#[derive(Debug, Clone, Copy, PartialEq, Eq, Structural)]
pub enum ResampleStep {
    /// The target is ticks: the bar is handed on as it is.
    PassThrough,
    /// No period is open: the bar opens one and nothing is emitted.
    Start,
    /// The bar falls in the open period, which stays open.
    Merge,
    /// The bar falls in the open period and closes it: the merged bar is
    /// emitted and no period stays open.
    MergeAndEmit,
    /// The bar closes after the open period: that period's bar is emitted
    /// and the new bar opens the next period.
    EmitAndStart,
}

/// The period bookkeeping of resampling bars into `target` bars: whether a
/// period is open and where it ends.
#[derive(Debug, Clone, Copy)]
pub struct ResamplePeriods {
    pub target: TimeGranularity,
    pub open: bool,
    pub period_end_ms: i64,
}

/// The end of the period a bar opening at `open_ts` starts, for periods of
/// `period` milliseconds aligned to multiples of the length.
pub open spec fn period_end(open_ts: i64, period: int) -> int {
    interval_start(open_ts as int, period) + period
}

/// The bar at hand opens a new period.
pub open spec fn opens_period(s: ResamplePeriods, close_ts: i64) -> bool {
    !s.open || close_ts > s.period_end_ms
}

/// The next step is defined: a period it opens has a non-zero length and an
/// end that fits in 64 bits.
pub open spec fn step_defined(s: ResamplePeriods, open_ts: i64, close_ts: i64) -> bool {
    match granularity_ms(s.target) {
        None => true,
        Some(p) => opens_period(s, close_ts) ==> p != 0 && period_end(open_ts, p) <= i64::MAX,
    }
}

/// The step taken for a bar spanning `open_ts` to `close_ts`, and the
/// bookkeeping after it.
pub open spec fn resample_step(s: ResamplePeriods, open_ts: i64, close_ts: i64) -> (ResampleStep, ResamplePeriods) {
    match granularity_ms(s.target) {
        None => (ResampleStep::PassThrough, s),
        Some(p) => if !s.open {
            (ResampleStep::Start, ResamplePeriods { open: true, period_end_ms: period_end(open_ts, p) as i64, ..s })
        } else if close_ts <= s.period_end_ms {
            if close_ts >= s.period_end_ms {
                (ResampleStep::MergeAndEmit, ResamplePeriods { open: false, ..s })
            } else {
                (ResampleStep::Merge, s)
            }
        } else {
            (ResampleStep::EmitAndStart, ResamplePeriods { open: true, period_end_ms: period_end(open_ts, p) as i64, ..s })
        },
    }
}

impl ResamplePeriods {
    /// No period open yet.
    pub fn new(target: TimeGranularity) -> (r: Self)
        ensures
            r.target == target,
            !r.open,
            r.period_end_ms == 0,
    {
        Self { target, open: false, period_end_ms: 0 }
    }

    /// Whether the step for the next bar is defined.
    pub fn step_fits(&self, open_ts_ms: i64, close_ts_ms: i64) -> (r: bool)
        ensures
            r == step_defined(*self, open_ts_ms, close_ts_ms),
    {
        match self.target.to_ms() {
            None => true,
            Some(ms) => {
                if self.open && close_ts_ms <= self.period_end_ms {
                    return true;
                }
                if ms == 0 {
                    return false;
                }
                let period = ms as i64;
                proof {
                    lemma_trunc_product_bounded(open_ts_ms as int, period as int);
                }
                let start = div_i64(open_ts_ms, period) * period;
                start <= i64::MAX - period
            },
        }
    }

    /// Takes the next bar, spanning `open_ts_ms` to `close_ts_ms`: says what
    /// to do with it and moves the period bookkeeping on.
    pub fn step(&mut self, open_ts_ms: i64, close_ts_ms: i64) -> (r: ResampleStep)
        requires
            step_defined(*old(self), open_ts_ms, close_ts_ms),
        ensures
            (r, *final(self)) == resample_step(*old(self), open_ts_ms, close_ts_ms),
    {
        let period = match self.target.to_ms() {
            None => {
                return ResampleStep::PassThrough;
            },
            Some(ms) => ms as i64,
        };
        if self.open && close_ts_ms <= self.period_end_ms {
            if close_ts_ms >= self.period_end_ms {
                self.open = false;
                ResampleStep::MergeAndEmit
            } else {
                ResampleStep::Merge
            }
        } else {
            proof {
                lemma_trunc_product_bounded(open_ts_ms as int, period as int);
            }
            let start = div_i64(open_ts_ms, period) * period;
            let was_open = self.open;
            self.open = true;
            self.period_end_ms = start + period;
            if was_open {
                ResampleStep::EmitAndStart
            } else {
                ResampleStep::Start
            }
        }
    }
}

} // verus!

//! Time-series alignment: gap-fill policy and detection of missing
//! timestamps.
use vstd::prelude::*;
use vstd::relations::{sorted_by, total_ordering};
use vstd::seq_lib::lemma_sorted_unique;
use crate::types::Granularity;

verus! {

broadcast use {vstd::seq_lib::group_to_multiset_ensures, vstd::multiset::group_multiset_axioms};

/// How missing points of a series are filled.
#[derive(Debug, Clone, Copy, PartialEq, Eq)]
pub enum GapFillStrategy {
    /// Forward fill from last known value.
    Forward,
    /// Backward fill from first known value.
    Backward,
    /// Linear interpolation.
    Linear,
    /// Fill with zero.
    Zero,
    /// Hold last value (default).
    Hold,
}

/// Error types for resampling and alignment.
#[derive(Debug)]
pub enum ResampleError {
    InvalidConversion(String),
    EmptyData,
}

/// Time-series data alignment utilities.
#[derive(Debug, Clone)]
pub struct TimeSeriesAligner {
    pub default_gap_fill: GapFillStrategy,
}

impl Default for TimeSeriesAligner {
    fn default() -> (r: Self)
        ensures
            r.default_gap_fill == GapFillStrategy::Hold,
    {
        Self { default_gap_fill: GapFillStrategy::Hold }
    }
}

/// Ascending order of timestamps.
pub open spec fn ts_leq(x: i64, y: i64) -> bool {
    x <= y
}

/// Drops every element equal to the one before it.
pub open spec fn dedup_adjacent(s: Seq<i64>) -> Seq<i64>
    decreases s.len(),
{
    if s.len() <= 1 {
        s
    } else {
        let d = dedup_adjacent(s.drop_last());
        if s.last() == s[s.len() - 2] {
            d
        } else {
            d.push(s.last())
        }
    }
}

/// The distinct timestamps of `data` in ascending order.
pub open spec fn distinct_sorted(data: Seq<i64>) -> Seq<i64> {
    dedup_adjacent(data.sort_by(|x: i64, y: i64| ts_leq(x, y)))
}

/// Ascending (repeats allowed).
pub open spec fn ascending(s: Seq<i64>) -> bool {
    forall|i: int, j: int| 0 <= i < j < s.len() ==> s[i] <= s[j]
}

/// `ascending` is sortedness by `ts_leq`.
proof fn lemma_ascending_is_sorted(s: Seq<i64>)
    ensures
        ascending(s) <==> sorted_by(s, |x: i64, y: i64| ts_leq(x, y)),
{
    let leq = |x: i64, y: i64| ts_leq(x, y);
    if ascending(s) {
        assert forall|i: int, j: int| 0 <= i < j < s.len() implies #[trigger] leq(s[i], s[j]) by {}
    }
    if sorted_by(s, leq) {
        assert forall|i: int, j: int| 0 <= i < j < s.len() implies s[i] <= s[j] by {
            assert(leq(s[i], s[j]));
        }
    }
}

/// Strictly ascending.
pub open spec fn strictly_increasing(s: Seq<i64>) -> bool {
    forall|i: int, j: int| 0 <= i < j < s.len() ==> s[i] < s[j]
}

/// The candidate gap between the `k`-th and `k+1`-th timestamp: every
/// millisecond strictly between them.
pub open spec fn gap_after(u: Seq<i64>, k: int) -> (i64, i64) {
    ((u[k] + 1) as i64, (u[k + 1] - 1) as i64)
}

/// A candidate gap that holds at least one missing timestamp.
pub open spec fn non_empty_gap(g: (i64, i64)) -> bool {
    g.0 <= g.1
}

/// The inclusive ranges of missing timestamps between consecutive timestamps
/// of the ascending sequence `u`.
pub open spec fn gaps_between(u: Seq<i64>) -> Seq<(i64, i64)> {
    if u.len() < 2 {
        Seq::empty()
    } else {
        Seq::new((u.len() - 1) as nat, |k: int| gap_after(u, k)).filter(
            |g: (i64, i64)| non_empty_gap(g),
        )
    }
}

/// Ascending order on timestamps is a total order.
proof fn lemma_ts_total()
    ensures
        total_ordering(|x: i64, y: i64| ts_leq(x, y)),
{
}

/// Deduplicating a sorted sequence gives a strictly ascending one that ends
/// with the same element.
proof fn lemma_dedup_sorted(s: Seq<i64>)
    requires
        ascending(s),
    ensures
        strictly_increasing(dedup_adjacent(s)),
        s.len() > 0 ==> dedup_adjacent(s).len() > 0 && dedup_adjacent(s).last() == s.last(),
        s.len() == 0 ==> dedup_adjacent(s).len() == 0,
    decreases s.len(),
{
    if s.len() > 1 {
        let t = s.drop_last();
        assert(ascending(t));
        lemma_dedup_sorted(t);
        assert(t.last() == s[s.len() - 2]);
        assert(s[s.len() - 2] <= s.last());
    }
}

/// Inserts `x` into the ascending `out`, keeping it ascending.
fn insert_sorted(out: &mut Vec<i64>, x: i64)
    requires
        ascending(old(out)@),
    ensures
        ascending(final(out)@),
        final(out)@.to_multiset() == old(out)@.to_multiset().insert(x),
{
    let mut pos: usize = 0;
    while pos < out.len() && out[pos] <= x
        invariant
            0 <= pos <= out@.len(),
            out@ == old(out)@,
            forall|k: int| 0 <= k < pos ==> out@[k] <= x,
        decreases out@.len() - pos,
    {
        pos = pos + 1;
    }
    let ghost before = out@;
    out.insert(pos, x);
    proof {
        vstd::seq_lib::to_multiset_insert(before, pos as int, x);
        assert forall|i: int, j: int| 0 <= i < j < out@.len() implies out@[i] <= out@[j] by {
            if j < pos {
                assert(before[i] <= before[j]);
            } else if j == pos {
                assert(out@[i] == before[i]);
            } else if i < pos {
                assert(out@[j] == before[j - 1]);
                assert(before[j - 1] > x || j - 1 == pos);
                if j - 1 > pos {
                    assert(before[pos as int] <= before[j - 1]);
                }
            } else if i == pos {
                assert(out@[j] == before[j - 1]);
                if j - 1 > pos {
                    assert(before[pos as int] <= before[j - 1]);
                }
            } else {
                assert(before[i - 1] <= before[j - 1]);
            }
        }
    }
}

/// `data` in ascending order.
fn sort_timestamps(data: &Vec<i64>) -> (r: Vec<i64>)
    ensures
        r@ == data@.sort_by(|x: i64, y: i64| ts_leq(x, y)),
{
    let mut out: Vec<i64> = Vec::new();
    let mut i: usize = 0;
    while i < data.len()
        invariant
            0 <= i <= data@.len(),
            ascending(out@),
            out@.to_multiset() == data@.take(i as int).to_multiset(),
        decreases data@.len() - i,
    {
        insert_sorted(&mut out, data[i]);
        proof {
            assert(data@.take(i as int + 1) =~= data@.take(i as int).push(data@[i as int]));
        }
        i = i + 1;
    }
    proof {
        assert(data@.take(data@.len() as int) =~= data@);
        lemma_ts_total();
        data@.lemma_sort_by_ensures(|x: i64, y: i64| ts_leq(x, y));
        lemma_ascending_is_sorted(out@);
        lemma_sorted_unique(out@, data@.sort_by(|x: i64, y: i64| ts_leq(x, y)), |x: i64, y: i64| ts_leq(x, y));
    }
    out
}

/// `data[k]` is the first point of `data` at its timestamp.
pub open spec fn first_at<V>(data: Seq<(i64, V)>, k: int) -> bool {
    0 <= k < data.len() && forall|j: int| 0 <= j < k ==> #[trigger] data[j].0 != data[k].0
}

/// Timestamps strictly increase along `s`.
pub open spec fn increasing_points<V>(s: Seq<(i64, V)>) -> bool {
    forall|i: int, j: int| 0 <= i < j < s.len() ==> s[i].0 < s[j].0
}

/// `point` is the first point of `data` at its timestamp.
pub open spec fn is_first_point<V>(data: Seq<(i64, V)>, point: (i64, V)) -> bool {
    exists|k: int| #[trigger] first_at(data, k) && data[k] == point
}

/// `out` holds, in ascending time, exactly the first point of `data` at
/// each of its timestamps.
pub open spec fn aligned<V>(data: Seq<(i64, V)>, out: Seq<(i64, V)>) -> bool {
    &&& increasing_points(out)
    &&& forall|i: int| 0 <= i < out.len() ==> is_first_point(data, #[trigger] out[i])
    &&& forall|k: int| #[trigger] first_at(data, k) ==> exists|i: int| 0 <= i < out.len() && out[i] == data[k]
}

/// `out` is aligned for the first `k` points of `data`, witnessed by `src`
/// (the point each entry is) and `pos` (the entry holding each point's
/// timestamp).
spec fn aligned_by<V>(data: Seq<(i64, V)>, out: Seq<(i64, V)>, k: int, src: Seq<int>, pos: Seq<int>) -> bool {
    &&& 0 <= k <= data.len()
    &&& increasing_points(out)
    &&& src.len() == out.len()
    &&& forall|i: int| 0 <= i < out.len() ==> 0 <= #[trigger] src[i] < k && first_at(data, src[i]) && data[src[i]] == out[i]
    &&& pos.len() == k
    &&& forall|m: int| 0 <= m < k ==> 0 <= #[trigger] pos[m] < out.len() && out[pos[m]].0 == data[m].0
    &&& forall|m: int| 0 <= m < k && first_at(data, m) ==> out[#[trigger] pos[m]] == data[m]
}

/// A point whose timestamp is already present is not a first point.
proof fn lemma_align_skip<V>(data: Seq<(i64, V)>, out: Seq<(i64, V)>, k: int, src: Seq<int>, pos: Seq<int>, p: int)
    requires
        aligned_by(data, out, k, src, pos),
        k < data.len(),
        0 <= p < out.len(),
        out[p].0 == data[k].0,
    ensures
        aligned_by(data, out, k + 1, src, pos.push(p)),
{
    let m = src[p];
    assert(data[m].0 == data[k].0);
    assert(!first_at(data, k));
    let pos2 = pos.push(p);
    assert forall|j: int| 0 <= j < k + 1 implies 0 <= #[trigger] pos2[j] < out.len() && out[pos2[j]].0 == data[j].0 by {
        if j < k {
            assert(pos2[j] == pos[j]);
        }
    }
    assert forall|j: int| 0 <= j < k + 1 && first_at(data, j) implies out[#[trigger] pos2[j]] == data[j] by {
        if j < k {
            assert(pos2[j] == pos[j]);
        }
    }
}

/// Inserting a point whose timestamp is new at its ascending position keeps
/// the output aligned.
proof fn lemma_align_insert<V>(
    data: Seq<(i64, V)>,
    before: Seq<(i64, V)>,
    k: int,
    src: Seq<int>,
    pos: Seq<int>,
    p: int,
)
    requires
        aligned_by(data, before, k, src, pos),
        k < data.len(),
        0 <= p <= before.len(),
        forall|i: int| 0 <= i < p ==> #[trigger] before[i].0 < data[k].0,
        p < before.len() ==> before[p].0 >= data[k].0 && before[p].0 != data[k].0,
    ensures
        aligned_by(
            data,
            before.insert(p, data[k]),
            k + 1,
            src.insert(p, k),
            Seq::new(k as nat, |m: int| if pos[m] >= p { pos[m] + 1 } else { pos[m] }).push(p),
        ),
{
    let t = data[k].0;
    let out = before.insert(p, data[k]);
    let src2 = src.insert(p, k);
    let pos2 = Seq::new(k as nat, |m: int| if pos[m] >= p { pos[m] + 1 } else { pos[m] }).push(p);
    assert forall|i: int| p <= i < before.len() implies #[trigger] before[i].0 > t by {
        if i > p {
            assert(before[p].0 < before[i].0);
        }
    }
    assert forall|m: int| 0 <= m < k implies #[trigger] data[m].0 != t by {
        let i = pos[m];
        if i < p {
            assert(before[i].0 < t);
        } else {
            assert(before[i].0 > t);
        }
    }
    assert(first_at(data, k));
    assert forall|a: int, b: int| 0 <= a < b < out.len() implies out[a].0 < out[b].0 by {
        if b < p {
            assert(out[a] == before[a] && out[b] == before[b]);
        } else if a < p && b == p {
        } else if a < p && b > p {
            assert(out[b] == before[b - 1]);
        } else if a == p {
            assert(out[b] == before[b - 1]);
        } else {
            assert(out[a] == before[a - 1]);
            assert(out[b] == before[b - 1]);
        }
    }
    assert forall|i: int| 0 <= i < out.len() implies 0 <= #[trigger] src2[i] < k + 1 && first_at(data, src2[i]) && data[src2[i]] == out[i] by {
        if i < p {
            assert(src2[i] == src[i] && out[i] == before[i]);
        } else if i > p {
            assert(src2[i] == src[i - 1] && out[i] == before[i - 1]);
        }
    }
    assert forall|m: int| 0 <= m < k + 1 implies 0 <= #[trigger] pos2[m] < out.len() && out[pos2[m]].0 == data[m].0 by {
        if m < k {
            if pos[m] >= p {
                assert(out[pos[m] + 1] == before[pos[m]]);
            } else {
                assert(out[pos[m]] == before[pos[m]]);
            }
        }
    }
    assert forall|m: int| 0 <= m < k + 1 && first_at(data, m) implies out[#[trigger] pos2[m]] == data[m] by {
        if m < k {
            if pos[m] >= p {
                assert(out[pos[m] + 1] == before[pos[m]]);
            } else {
                assert(out[pos[m]] == before[pos[m]]);
            }
        }
    }
}

/// Aligned for every point is aligned.
proof fn lemma_align_done<V>(data: Seq<(i64, V)>, out: Seq<(i64, V)>, src: Seq<int>, pos: Seq<int>)
    requires
        aligned_by(data, out, data.len() as int, src, pos),
    ensures
        aligned(data, out),
{
    assert forall|i: int| 0 <= i < out.len() implies is_first_point(data, #[trigger] out[i]) by {
        assert(first_at(data, src[i]) && data[src[i]] == out[i]);
    }
    assert forall|m: int| #[trigger] first_at(data, m) implies exists|i: int| 0 <= i < out.len() && out[i] == data[m] by {
        assert(0 <= pos[m] < out.len() && out[pos[m]] == data[m]);
    }
}

impl TimeSeriesAligner {
    /// Create new aligner with custom gap fill strategy.
    pub fn with_gap_fill(self, strategy: GapFillStrategy) -> (r: Self)
        ensures
            r.default_gap_fill == strategy,
    {
        let mut this = self;
        this.default_gap_fill = strategy;
        this
    }

    /// The points of `data` in ascending time, keeping the first point given
    /// for each timestamp.
    pub fn align<V: Copy>(&self, data: Vec<(i64, V)>) -> (r: Vec<(i64, V)>)
        ensures
            aligned(data@, r@),
    {
        let mut out: Vec<(i64, V)> = Vec::new();
        let mut k: usize = 0;
        let ghost mut src: Seq<int> = Seq::empty();
        let ghost mut pos: Seq<int> = Seq::empty();
        while k < data.len()
            invariant
                aligned_by(data@, out@, k as int, src, pos),
            decreases data@.len() - k,
        {
            let point = data[k];
            let t = point.0;
            let mut p: usize = 0;
            while p < out.len() && out[p].0 < t
                invariant
                    0 <= p <= out@.len(),
                    forall|i: int| 0 <= i < p ==> #[trigger] out@[i].0 < t,
                decreases out@.len() - p,
            {
                p = p + 1;
            }
            if p < out.len() && out[p].0 == t {
                proof {
                    lemma_align_skip(data@, out@, k as int, src, pos, p as int);
                    pos = pos.push(p as int);
                }
            } else {
                let ghost before = out@;
                out.insert(p, point);
                proof {
                    lemma_align_insert(data@, before, k as int, src, pos, p as int);
                    assert(out@ == before.insert(p as int, data@[k as int]));
                    src = src.insert(p as int, k as int);
                    pos = Seq::new(k as nat, |m: int| if pos[m] >= p { pos[m] + 1 } else { pos[m] }).push(p as int);
                }
            }
            k = k + 1;
        }
        proof {
            lemma_align_done(data@, out@, src, pos);
        }
        out
    }

    /// Resample bars to another granularity; bars are passed through as
    /// they are, whatever the two granularities.
    pub fn resample<K>(&self, klines: Vec<K>, from_granularity: Granularity, to_granularity: Granularity) -> (r: Result<Vec<K>, ResampleError>)
        ensures
            r == Ok::<Vec<K>, ResampleError>(klines),
    {
        Ok(klines)
    }

    /// Find gaps in time series (timestamps need not be pre-sorted): the
    /// inclusive ranges of missing timestamps between consecutive distinct
    /// timestamps, in ascending order.
    pub fn find_gaps(&self, data: Vec<i64>) -> (r: Vec<(i64, i64)>)
        ensures
            data@.len() < 2 ==> r@.len() == 0,
            data@.len() >= 2 ==> r@ == gaps_between(distinct_sorted(data@)),
    {
        if data.len() < 2 {
            return Vec::new();
        }
        let sorted = sort_timestamps(&data);
        proof {
            lemma_ts_total();
            data@.lemma_sort_by_ensures(|x: i64, y: i64| ts_leq(x, y));
            lemma_ascending_is_sorted(sorted@);
            lemma_dedup_sorted(sorted@);
        }
        // Keep the first of each run of equal timestamps.
        let mut unique: Vec<i64> = Vec::new();
        let mut i: usize = 0;
        while i < sorted.len()
            invariant
                0 <= i <= sorted@.len(),
                ascending(sorted@),
                unique@ == dedup_adjacent(sorted@.take(i as int)),
                i > 0 ==> unique@.len() > 0 && unique@.last() == sorted@[i - 1],
            decreases sorted@.len() - i,
        {
            proof {
                let t = sorted@.take(i as int + 1);
                assert(t.drop_last() =~= sorted@.take(i as int));
                if i > 0 {
                    assert(t[t.len() - 2] == sorted@[i - 1]);
                }
                assert(ascending(t));
                lemma_dedup_sorted(t);
            }
            if i == 0 || sorted[i] != sorted[i - 1] {
                unique.push(sorted[i]);
            }
            i = i + 1;
        }
        proof {
            assert(sorted@.take(sorted@.len() as int) =~= sorted@);
            lemma_dedup_sorted(sorted@);
        }
        let ghost u = unique@;
        let ghost cands = Seq::new((u.len() - 1) as nat, |k: int| gap_after(u, k));
        let ghost pred = |g: (i64, i64)| non_empty_gap(g);
        let mut gaps: Vec<(i64, i64)> = Vec::new();
        if unique.len() < 2 {
            return gaps;
        }
        let mut prev_ts = unique[0];
        let mut k: usize = 1;
        while k < unique.len()
            invariant
                u == unique@,
                u.len() >= 2,
                strictly_increasing(u),
                1 <= k <= u.len(),
                prev_ts == u[k - 1],
                cands == Seq::new((u.len() - 1) as nat, |k: int| gap_after(u, k)),
                pred == (|g: (i64, i64)| non_empty_gap(g)),
                gaps@ == cands.take(k - 1).filter(pred),
            decreases u.len() - k,
        {
            let ts = unique[k];
            assert(prev_ts < ts);
            let ghost before = gaps@;
            if ts > prev_ts + 1 {
                gaps.push((prev_ts + 1, ts - 1));
            }
            proof {
                let t1 = cands.take(k as int);
                assert(t1.drop_last() =~= cands.take(k - 1));
                assert(t1.last() == gap_after(u, k - 1));
                reveal(Seq::filter);
                assert(gaps@ =~= t1.filter(pred));
            }
            prev_ts = ts;
            k = k + 1;
        }
        proof {
            assert(cands.take((u.len() - 1) as int) =~= cands);
        }
        gaps
    }
}

/// Dropping repeats keeps exactly the timestamps there were.
proof fn lemma_dedup_contains(s: Seq<i64>, x: i64)
    ensures
        dedup_adjacent(s).contains(x) <==> s.contains(x),
    decreases s.len(),
{
    if s.len() > 1 {
        let t = s.drop_last();
        lemma_dedup_contains(t, x);
        if s.contains(x) {
            let i = choose|i: int| 0 <= i < s.len() && s[i] == x;
            if i < s.len() - 1 {
                assert(t[i] == x);
            }
        }
        if t.contains(x) {
            let i = choose|i: int| 0 <= i < t.len() && t[i] == x;
            assert(s[i] == x);
        }
        assert(t[t.len() - 1] == s[s.len() - 2]);
        assert(t.contains(t[t.len() - 1]));
        assert(s.contains(s.last()));
        let d = dedup_adjacent(t);
        if s.last() == s[s.len() - 2] {
            assert(dedup_adjacent(s) == d);
        } else {
            assert(dedup_adjacent(s) == d.push(s.last()));
            assert(d.push(s.last()).contains(x) <==> (d.contains(x) || x == s.last())) by {
                if d.push(s.last()).contains(x) {
                    let i = choose|i: int| 0 <= i < d.len() + 1 && d.push(s.last())[i] == x;
                    if i < d.len() {
                        assert(d[i] == x);
                    }
                }
                if d.contains(x) {
                    let i = choose|i: int| 0 <= i < d.len() && d[i] == x;
                    assert(d.push(s.last())[i] == x);
                }
                assert(d.push(s.last())[d.len() as int] == s.last());
            }
        }
    }
}

/// The distinct timestamps of `data` are strictly ascending and are exactly
/// the timestamps `data` holds.
proof fn lemma_distinct_sorted_props(data: Seq<i64>)
    ensures
        strictly_increasing(distinct_sorted(data)),
        forall|x: i64| #[trigger] distinct_sorted(data).contains(x) <==> data.contains(x),
{
    let leq = |x: i64, y: i64| ts_leq(x, y);
    let sorted = data.sort_by(leq);
    lemma_ts_total();
    data.lemma_sort_by_ensures(leq);
    lemma_ascending_is_sorted(sorted);
    lemma_dedup_sorted(sorted);
    assert forall|x: i64| #[trigger] distinct_sorted(data).contains(x) <==> data.contains(x) by {
        lemma_dedup_contains(sorted, x);
        data.to_multiset_ensures();
        sorted.to_multiset_ensures();
        assert(data.to_multiset().count(x) == sorted.to_multiset().count(x));
    }
}

/// Two strictly ascending sequences holding the same timestamps are equal.
proof fn lemma_strict_same_contents(a: Seq<i64>, b: Seq<i64>)
    requires
        strictly_increasing(a),
        strictly_increasing(b),
        forall|x: i64| a.contains(x) <==> b.contains(x),
    ensures
        a == b,
    decreases a.len(),
{
    if a.len() == 0 {
        if b.len() > 0 {
            assert(b.contains(b[0]));
        }
        assert(a =~= b);
    } else {
        assert(a.contains(a.last()));
        let j = choose|j: int| 0 <= j < b.len() && b[j] == a.last();
        assert(b.contains(b.last()));
        let k = choose|k: int| 0 <= k < a.len() && a[k] == b.last();
        assert(b.last() == a.last());
        let ta = a.drop_last();
        let tb = b.drop_last();
        assert forall|x: i64| ta.contains(x) <==> tb.contains(x) by {
            if ta.contains(x) {
                let i = choose|i: int| 0 <= i < ta.len() && ta[i] == x;
                assert(a.contains(x));
                let m = choose|m: int| 0 <= m < b.len() && b[m] == x;
                assert(m != b.len() - 1);
                assert(tb[m] == x);
            }
            if tb.contains(x) {
                let i = choose|i: int| 0 <= i < tb.len() && tb[i] == x;
                assert(b.contains(x));
                let m = choose|m: int| 0 <= m < a.len() && a[m] == x;
                assert(m != a.len() - 1);
                assert(ta[m] == x);
            }
        }
        lemma_strict_same_contents(ta, tb);
        assert(a =~= ta.push(a.last()));
        assert(b =~= tb.push(b.last()));
    }
}

/// Filtering keeps only elements of the sequence, and keeps an order that
/// every earlier element has towards every later one.
proof fn lemma_filter_ordered<A>(s: Seq<A>, pred: spec_fn(A) -> bool, before: spec_fn(A, A) -> bool)
    requires
        forall|a: int, b: int| 0 <= a < b < s.len() ==> #[trigger] before(s[a], s[b]),
    ensures
        forall|i: int| 0 <= i < s.filter(pred).len() ==> s.contains(#[trigger] s.filter(pred)[i]),
        forall|a: int, b: int|
            0 <= a < b < s.filter(pred).len() ==> before(#[trigger] s.filter(pred)[a], #[trigger] s.filter(pred)[b]),
    decreases s.len(),
{
    reveal(Seq::filter);
    if s.len() > 0 {
        let t = s.drop_last();
        assert forall|a: int, b: int| 0 <= a < b < t.len() implies #[trigger] before(t[a], t[b]) by {
            assert(before(s[a], s[b]));
        }
        lemma_filter_ordered(t, pred, before);
        let f = s.filter(pred);
        let ft = t.filter(pred);
        assert forall|i: int| 0 <= i < f.len() implies s.contains(#[trigger] f[i]) by {
            if i < ft.len() {
                assert(f[i] == ft[i]);
                let k = choose|k: int| 0 <= k < t.len() && t[k] == ft[i];
                assert(s[k] == f[i]);
            } else {
                assert(f[i] == s[s.len() - 1]);
            }
        }
        assert forall|a: int, b: int| 0 <= a < b < f.len() implies before(#[trigger] f[a], #[trigger] f[b]) by {
            assert(f[a] == ft[a]);
            let ka = choose|k: int| 0 <= k < t.len() && t[k] == ft[a];
            if b < ft.len() {
                assert(f[b] == ft[b]);
                assert(before(ft[a], ft[b]));
            } else {
                assert(f[b] == s[s.len() - 1]);
                assert(before(s[ka], s[s.len() - 1]));
            }
        }
    }
}

/// A timestamp strictly inside a strictly ascending sequence that it is not
/// part of lies between two neighbours.
proof fn lemma_bracket(u: Seq<i64>, t: i64)
    requires
        strictly_increasing(u),
        u.len() >= 2,
        u[0] < t < u.last(),
        !u.contains(t),
    ensures
        exists|k: int| #![trigger u[k]] 0 <= k < u.len() - 1 && u[k] < t && t < u[k + 1],
    decreases u.len(),
{
    let n = u.len() as int;
    if u[n - 2] < t {
        assert(0 <= n - 2 < n - 1 && u[n - 2] < t && t < u[n - 2 + 1]);
    } else {
        assert(u[n - 2] != t);
        let v = u.drop_last();
        assert(v.last() == u[n - 2]);
        assert forall|x: int| 0 <= x < v.len() implies v[x] != t by {
            assert(u[x] != t);
        }
        lemma_bracket(v, t);
        let k = choose|k: int| #![trigger v[k]] 0 <= k < v.len() - 1 && v[k] < t && t < v[k + 1];
        assert(u[k] < t && t < u[k + 1]);
    }
}

/// The missing-timestamp ranges of the timestamps in `data` (what
/// `find_gaps` returns), all at once: they are non-empty, ordered and apart,
/// each bounded on both sides by a timestamp of `data`, and a timestamp
/// between the first and the last of `data` lies in one of them exactly when
/// `data` lacks it.
pub proof fn lemma_gaps_cover(data: Seq<i64>)
    ensures
        ({
            let u = distinct_sorted(data);
            let g = gaps_between(u);
            &&& forall|i: int| #![trigger g[i]] 0 <= i < g.len() ==> {
                &&& g[i].0 <= g[i].1
                &&& data.contains((g[i].0 - 1) as i64)
                &&& data.contains((g[i].1 + 1) as i64)
            }
            &&& forall|i: int, j: int| 0 <= i < j < g.len() ==> #[trigger] g[i].1 < #[trigger] g[j].0
            &&& forall|t: i64| u.len() > 0 && u[0] <= t <= u.last() ==> ((exists|i: int| #![trigger g[i]]
                0 <= i < g.len() && g[i].0 <= t <= g[i].1) <==> !#[trigger] data.contains(t))
        }),
{
    let u = distinct_sorted(data);
    lemma_distinct_sorted_props(data);
    if u.len() >= 2 {
        let cands = Seq::new((u.len() - 1) as nat, |k: int| gap_after(u, k));
        let pred = |g: (i64, i64)| non_empty_gap(g);
        let before = |x: (i64, i64), y: (i64, i64)| x.1 < y.0;
        let g = cands.filter(pred);
        assert(g == gaps_between(u));
        assert forall|a: int, b: int| 0 <= a < b < cands.len() implies #[trigger] before(cands[a], cands[b]) by {
            assert(u[a + 1] <= u[b]);
        }
        lemma_filter_ordered(cands, pred, before);
        cands.filter_lemma(pred);
        assert forall|i: int| #![trigger g[i]] 0 <= i < g.len() implies {
            &&& g[i].0 <= g[i].1
            &&& data.contains((g[i].0 - 1) as i64)
            &&& data.contains((g[i].1 + 1) as i64)
        } by {
            assert(pred(g[i]));
            assert(cands.contains(g[i]));
            let k = choose|k: int| 0 <= k < cands.len() && cands[k] == g[i];
            assert(u.contains(u[k]));
            assert(u.contains(u[k + 1]));
            assert((g[i].0 - 1) as i64 == u[k]);
            assert((g[i].1 + 1) as i64 == u[k + 1]);
        }
        assert forall|i: int, j: int| 0 <= i < j < g.len() implies #[trigger] g[i].1 < #[trigger] g[j].0 by {
            assert(before(g[i], g[j]));
        }
        assert forall|t: i64| u.len() > 0 && u[0] <= t <= u.last() implies ((exists|i: int| #![trigger g[i]]
            0 <= i < g.len() && g[i].0 <= t <= g[i].1) <==> !#[trigger] data.contains(t)) by {
            if exists|i: int| #![trigger g[i]] 0 <= i < g.len() && g[i].0 <= t <= g[i].1 {
                let i = choose|i: int| #![trigger g[i]] 0 <= i < g.len() && g[i].0 <= t <= g[i].1;
                assert(cands.contains(g[i]));
                let k = choose|k: int| 0 <= k < cands.len() && cands[k] == g[i];
                if data.contains(t) {
                    assert(u.contains(t));
                    let m = choose|m: int| 0 <= m < u.len() && u[m] == t;
                    if m <= k {
                        assert(u[m] <= u[k]);
                    } else {
                        assert(u[k + 1] <= u[m]);
                    }
                }
            } else {
                if !data.contains(t) {
                    assert(u.contains(u[0]));
                    assert(u.contains(u.last()));
                    lemma_bracket(u, t);
                    let k = choose|k: int| #![trigger u[k]] 0 <= k < u.len() - 1 && u[k] < t && t < u[k + 1];
                    assert(pred(cands[k]));
                    assert(g.contains(cands[k]));
                    let i = choose|i: int| 0 <= i < g.len() && g[i] == cands[k];
                    assert(g[i].0 <= t <= g[i].1);
                }
            }
        }
    } else {
        assert forall|t: i64| u.len() > 0 && u[0] <= t <= u.last() implies #[trigger] data.contains(t) by {
            assert(t == u[0]);
            assert(u.contains(u[0]));
        }
    }
}

/// The gaps depend only on which timestamps occur: reordering or repeating
/// them changes nothing.
pub proof fn lemma_gaps_ignore_order(d1: Seq<i64>, d2: Seq<i64>)
    requires
        forall|x: i64| d1.contains(x) <==> d2.contains(x),
    ensures
        gaps_between(distinct_sorted(d1)) == gaps_between(distinct_sorted(d2)),
{
    lemma_distinct_sorted_props(d1);
    lemma_distinct_sorted_props(d2);
    lemma_strict_same_contents(distinct_sorted(d1), distinct_sorted(d2));
}

} // verus!

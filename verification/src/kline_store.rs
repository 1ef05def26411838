//! In-memory k-line store: bars kept per instrument and granularity in
//! arrival order, with range queries, the latest timestamp, the latest bar on
//! an interval boundary and the gaps between consecutive bars.
use vstd::prelude::*;
use crate::kline::{Granularity, interval_of, interval_fits};
use crate::int_math::lemma_rem_zero;

verus! {

/// The bars of one instrument at one granularity, each with its open time.
pub struct KlineSeries<P> {
    instrument_id: String,
    granularity: Granularity,
    bars: Vec<(i64, P)>,
}

/// K-line store keeping each bar with its open time; the bar itself is
/// carried through unread.
pub struct InMemoryKlineSource<P> {
    series: Vec<KlineSeries<P>>,
}

/// Position of the series for `(id, g)`, or `-1`.
spec fn series_slot<P>(s: Seq<KlineSeries<P>>, id: Seq<char>, g: Granularity) -> int {
    if exists|i: int| 0 <= i < s.len() && s[i].instrument_id@ == id && s[i].granularity == g {
        choose|i: int| 0 <= i < s.len() && s[i].instrument_id@ == id && s[i].granularity == g
    } else {
        -1
    }
}

/// The bars of `bars` whose open time lies in `[start, end]`, in order.
pub open spec fn window<P>(bars: Seq<(i64, P)>, start: i64, end: i64) -> Seq<(i64, P)>
    decreases bars.len(),
{
    if bars.len() == 0 {
        Seq::empty()
    } else {
        let w = window(bars.drop_last(), start, end);
        if start <= bars.last().0 && bars.last().0 <= end {
            w.push(bars.last())
        } else {
            w
        }
    }
}

/// The open time of each bar that is followed by a step longer than
/// `tolerance`, in order.
pub open spec fn gap_starts<P>(bars: Seq<(i64, P)>, tolerance: i64) -> Seq<i64>
    decreases bars.len(),
{
    if bars.len() < 2 {
        Seq::empty()
    } else {
        let g = gap_starts(bars.drop_last(), tolerance);
        let prev = bars[bars.len() - 2].0;
        if bars.last().0 - prev > tolerance {
            g.push(prev)
        } else {
            g
        }
    }
}

/// Consecutive open times differ by a machine integer.
pub open spec fn steps_fit<P>(bars: Seq<(i64, P)>) -> bool {
    forall|j: int| 1 <= j < bars.len() ==> i64::MIN <= #[trigger] bars[j].0 - bars[j - 1].0 <= i64::MAX
}

/// `ts` is a whole multiple of a non-zero `interval`.
pub open spec fn on_boundary(ts: int, interval: int) -> bool {
    ts % (if interval < 0 { -interval } else { interval }) == 0
}

/// Looking up the latest boundary bar is defined: the interval is a non-zero
/// machine integer, and the remainder of the last bar by it does not overflow.
pub open spec fn latest_defined<P>(bars: Seq<(i64, P)>, g: Granularity) -> bool {
    bars.len() > 0 ==> {
        &&& interval_fits(g)
        &&& interval_of(g) != 0
        &&& interval_of(g) == -1 ==> bars.last().0 != i64::MIN
    }
}

/// A bar just stored is read back by a range query around its open time,
/// after the bars stored there before it.
pub proof fn lemma_stored_bar_read_back<P>(bars: Seq<(i64, P)>, ts: i64, bar: P, start: i64, end: i64)
    requires
        start <= ts <= end,
    ensures
        window(bars.push((ts, bar)), start, end) == window(bars, start, end).push((ts, bar)),
{
    assert(bars.push((ts, bar)).drop_last() =~= bars);
}

impl<P> InMemoryKlineSource<P> {
    /// The bars stored for `(id, g)`, or `None` when nothing was ever stored
    /// under that key.
    pub closed spec fn bars(self, id: Seq<char>, g: Granularity) -> Option<Seq<(i64, P)>> {
        let i = series_slot(self.series@, id, g);
        if i >= 0 {
            Some(self.series@[i].bars@)
        } else {
            None
        }
    }

    /// No key is stored twice.
    pub closed spec fn wf(self) -> bool {
        forall|i: int, j: int|
            0 <= i < j < self.series@.len() ==> !(self.series@[i].instrument_id@
                == self.series@[j].instrument_id@ && self.series@[i].granularity
                == self.series@[j].granularity)
    }

    proof fn lemma_at(self, i: int)
        requires
            self.wf(),
            0 <= i < self.series@.len(),
        ensures
            self.bars(self.series@[i].instrument_id@, self.series@[i].granularity) == Some(
                self.series@[i].bars@,
            ),
    {
        let id = self.series@[i].instrument_id@;
        let g = self.series@[i].granularity;
        assert(0 <= i < self.series@.len() && self.series@[i].instrument_id@ == id
            && self.series@[i].granularity == g);
        let k = series_slot(self.series@, id, g);
        if k != i {
            if k < i {
                assert(!(self.series@[k].instrument_id@ == self.series@[i].instrument_id@
                    && self.series@[k].granularity == self.series@[i].granularity));
            } else {
                assert(!(self.series@[i].instrument_id@ == self.series@[k].instrument_id@
                    && self.series@[i].granularity == self.series@[k].granularity));
            }
        }
    }

    proof fn lemma_absent(self, id: Seq<char>, g: Granularity)
        requires
            forall|j: int|
                0 <= j < self.series@.len() ==> !(self.series@[j].instrument_id@ == id
                    && self.series@[j].granularity == g),
        ensures
            self.bars(id, g) is None,
    {
    }

    /// Finds the series of `(id, g)`.
    fn find(&self, id: &str, g: Granularity) -> (r: Option<usize>)
        requires
            self.wf(),
        ensures
            match r {
                Some(i) => i < self.series@.len() && self.series@[i as int].instrument_id@ == id@
                    && self.series@[i as int].granularity == g && self.bars(id@, g) == Some(
                    self.series@[i as int].bars@,
                ),
                None => self.bars(id@, g) is None && forall|j: int|
                    0 <= j < self.series@.len() ==> !(self.series@[j].instrument_id@ == id@
                        && self.series@[j].granularity == g),
            },
    {
        let key = id.to_owned();
        let mut i: usize = 0;
        while i < self.series.len()
            invariant
                self.wf(),
                key@ == id@,
                0 <= i <= self.series@.len(),
                forall|j: int|
                    0 <= j < i ==> !(self.series@[j].instrument_id@ == id@ && self.series@[j].granularity
                        == g),
            decreases self.series@.len() - i,
        {
            if self.series[i].instrument_id == key && self.series[i].granularity == g {
                proof {
                    self.lemma_at(i as int);
                }
                return Some(i);
            }
            i = i + 1;
        }
        proof {
            self.lemma_absent(id@, g);
        }
        None
    }

    pub fn new() -> (r: Self)
        ensures
            r.wf(),
            forall|id: Seq<char>, g: Granularity| #[trigger] r.bars(id, g) is None,
    {
        Self { series: Vec::new() }
    }

    /// Stores a bar opening at `timestamp_ms` under its instrument at
    /// one-minute granularity, after the bars already stored there.
    pub fn add_kline(&mut self, instrument_id: String, timestamp_ms: i64, kline: P)
        requires
            old(self).wf(),
        ensures
            final(self).wf(),
            final(self).bars(instrument_id@, Granularity::Minute(1)) == Some(
                match old(self).bars(instrument_id@, Granularity::Minute(1)) {
                    Some(b) => b,
                    None => Seq::<(i64, P)>::empty(),
                }.push((timestamp_ms, kline)),
            ),
            forall|id: Seq<char>, g: Granularity|
                !(id == instrument_id@ && g == Granularity::Minute(1)) ==> #[trigger] final(self).bars(
                    id,
                    g,
                ) == old(self).bars(id, g),
    {
        let ghost old_self = *self;
        let ghost key = instrument_id@;
        let minute = Granularity::Minute(1);
        match self.find(instrument_id.as_str(), minute) {
            Some(i) => {
                let mut s = self.series.remove(i);
                s.bars.push((timestamp_ms, kline));
                self.series.insert(i, s);
                proof {
                    assert forall|a: int, b: int| 0 <= a < b < self.series@.len() implies !(
                    self.series@[a].instrument_id@ == self.series@[b].instrument_id@
                        && self.series@[a].granularity == self.series@[b].granularity) by {
                        if a != i && b != i {
                            assert(self.series@[a] == old_self.series@[a]);
                            assert(self.series@[b] == old_self.series@[b]);
                        }
                    }
                    self.lemma_at(i as int);
                    assert forall|id: Seq<char>, g: Granularity|
                        !(id == key && g == minute) implies #[trigger] self.bars(id, g)
                        == old_self.bars(id, g) by {
                        let k = series_slot(old_self.series@, id, g);
                        if k >= 0 {
                            assert(old_self.series@[k].instrument_id@ == id
                                && old_self.series@[k].granularity == g);
                            assert(k != i);
                            assert(self.series@[k] == old_self.series@[k]);
                            old_self.lemma_at(k);
                            self.lemma_at(k);
                        } else {
                            assert forall|j: int| 0 <= j < self.series@.len() implies !(
                            self.series@[j].instrument_id@ == id && self.series@[j].granularity
                                == g) by {
                                if j != i {
                                    assert(self.series@[j] == old_self.series@[j]);
                                    if old_self.series@[j].instrument_id@ == id
                                        && old_self.series@[j].granularity == g {
                                        assert(0 <= j < old_self.series@.len()
                                            && old_self.series@[j].instrument_id@ == id
                                            && old_self.series@[j].granularity == g);
                                    }
                                }
                            }
                            self.lemma_absent(id, g);
                        }
                    }
                }
            },
            None => {
                let mut bars: Vec<(i64, P)> = Vec::new();
                bars.push((timestamp_ms, kline));
                self.series.push(KlineSeries { instrument_id, granularity: minute, bars });
                proof {
                    let n = old_self.series@.len() as int;
                    assert(self.series@[n].bars@ =~= Seq::<(i64, P)>::empty().push(
                        (timestamp_ms, kline),
                    ));
                    assert forall|a: int, b: int| 0 <= a < b < self.series@.len() implies !(
                    self.series@[a].instrument_id@ == self.series@[b].instrument_id@
                        && self.series@[a].granularity == self.series@[b].granularity) by {
                        if b < n {
                            assert(self.series@[a] == old_self.series@[a]);
                            assert(self.series@[b] == old_self.series@[b]);
                        } else {
                            assert(self.series@[a] == old_self.series@[a]);
                        }
                    }
                    self.lemma_at(n);
                    assert forall|id: Seq<char>, g: Granularity|
                        !(id == key && g == minute) implies #[trigger] self.bars(id, g)
                        == old_self.bars(id, g) by {
                        let k = series_slot(old_self.series@, id, g);
                        if k >= 0 {
                            assert(old_self.series@[k].instrument_id@ == id
                                && old_self.series@[k].granularity == g);
                            assert(self.series@[k] == old_self.series@[k]);
                            old_self.lemma_at(k);
                            self.lemma_at(k);
                        } else {
                            assert forall|j: int| 0 <= j < self.series@.len() implies !(
                            self.series@[j].instrument_id@ == id && self.series@[j].granularity
                                == g) by {
                                if j < n {
                                    assert(self.series@[j] == old_self.series@[j]);
                                    if old_self.series@[j].instrument_id@ == id
                                        && old_self.series@[j].granularity == g {
                                        assert(0 <= j < old_self.series@.len()
                                            && old_self.series@[j].instrument_id@ == id
                                            && old_self.series@[j].granularity == g);
                                    }
                                }
                            }
                            self.lemma_absent(id, g);
                        }
                    }
                }
            },
        }
    }

    /// Whether anything was stored for `(instrument_id, granularity)`.
    pub fn has_data(&self, instrument_id: &str, granularity: Granularity) -> (r: bool)
        requires
            self.wf(),
        ensures
            r == self.bars(instrument_id@, granularity) is Some,
    {
        self.find(instrument_id, granularity).is_some()
    }

    /// The largest open time stored for `(instrument_id, granularity)`.
    pub fn latest_timestamp(&self, instrument_id: &str, granularity: Granularity) -> (r: Option<i64>)
        requires
            self.wf(),
        ensures
            match self.bars(instrument_id@, granularity) {
                None => r is None,
                Some(b) => match r {
                    None => b.len() == 0,
                    Some(t) => (exists|j: int| 0 <= j < b.len() && #[trigger] b[j].0 == t)
                        && forall|j: int| 0 <= j < b.len() ==> #[trigger] b[j].0 <= t,
                },
            },
    {
        match self.find(instrument_id, granularity) {
            None => None,
            Some(i) => {
                let bars = &self.series[i].bars;
                if bars.len() == 0 {
                    return None;
                }
                let mut best: i64 = bars[0].0;
                let mut k: usize = 1;
                while k < bars.len()
                    invariant
                        1 <= k <= bars@.len(),
                        exists|j: int| 0 <= j < k && #[trigger] bars@[j].0 == best,
                        forall|j: int| 0 <= j < k ==> #[trigger] bars@[j].0 <= best,
                    decreases bars@.len() - k,
                {
                    if bars[k].0 > best {
                        best = bars[k].0;
                    }
                    k = k + 1;
                }
                proof {
                    let ghost b = bars@;
                    assert(self.bars(instrument_id@, granularity) == Some(b));
                    let j = choose|j: int| 0 <= j < k && #[trigger] bars@[j].0 == best;
                    assert(0 <= j < b.len() && b[j].0 == best);
                    assert(exists|j: int| 0 <= j < b.len() && #[trigger] b[j].0 == best);
                    assert(forall|j: int| 0 <= j < b.len() ==> #[trigger] b[j].0 <= best);
                    assert(match self.bars(instrument_id@, granularity) {
                        None => false,
                        Some(b2) => b2 == b,
                    });
                }
                Some(best)
            },
        }
    }

    /// The open time of each stored bar of `(instrument_id, granularity)`
    /// that is followed by a step longer than `tolerance_ms`.
    pub fn check_gaps(&self, instrument_id: &str, granularity: Granularity, tolerance_ms: i64) -> (r: Vec<i64>)
        requires
            self.wf(),
            self.bars(instrument_id@, granularity) matches Some(b) ==> steps_fit(b),
        ensures
            r@ == match self.bars(instrument_id@, granularity) {
                None => Seq::<i64>::empty(),
                Some(b) => gap_starts(b, tolerance_ms),
            },
    {
        match self.find(instrument_id, granularity) {
            None => Vec::new(),
            Some(i) => {
                let bars = &self.series[i].bars;
                let mut gaps: Vec<i64> = Vec::new();
                let mut k: usize = 1;
                if bars.len() < 2 {
                    return gaps;
                }
                assert(gap_starts(bars@.take(1), tolerance_ms) =~= Seq::<i64>::empty());
                while k < bars.len()
                    invariant
                        1 <= k <= bars@.len(),
                        steps_fit(bars@),
                        gaps@ == gap_starts(bars@.take(k as int), tolerance_ms),
                    decreases bars@.len() - k,
                {
                    let ghost pre = bars@.take(k as int);
                    let ghost next = bars@.take(k as int + 1);
                    assert(next.drop_last() =~= pre);
                    assert(next[next.len() - 2] == bars@[k - 1]);
                    assert(bars@[k as int].0 - bars@[k - 1].0 <= i64::MAX);
                    let gap = bars[k].0 - bars[k - 1].0;
                    if gap > tolerance_ms {
                        gaps.push(bars[k - 1].0);
                    }
                    k = k + 1;
                }
                assert(bars@.take(bars@.len() as int) =~= bars@);
                gaps
            },
        }
    }
}

impl<P: Clone> InMemoryKlineSource<P> {
    /// The stored bars of `(instrument_id, granularity)` opening within
    /// `[start_ts, end_ts]`, in stored order.
    pub fn get_klines(&self, instrument_id: &str, granularity: Granularity, start_ts: i64, end_ts: i64) -> (r: Vec<P>)
        requires
            self.wf(),
        ensures
            match self.bars(instrument_id@, granularity) {
                None => r@.len() == 0,
                Some(b) => r@.len() == window(b, start_ts, end_ts).len() && forall|j: int|
                    0 <= j < r@.len() ==> cloned(#[trigger] window(b, start_ts, end_ts)[j].1, r@[j]),
            },
    {
        match self.find(instrument_id, granularity) {
            None => Vec::new(),
            Some(i) => {
                let bars = &self.series[i].bars;
                let mut out: Vec<P> = Vec::new();
                let mut k: usize = 0;
                assert(bars@.take(0) =~= Seq::<(i64, P)>::empty());
                while k < bars.len()
                    invariant
                        0 <= k <= bars@.len(),
                        out@.len() == window(bars@.take(k as int), start_ts, end_ts).len(),
                        forall|j: int|
                            0 <= j < out@.len() ==> cloned(
                                #[trigger] window(bars@.take(k as int), start_ts, end_ts)[j].1,
                                out@[j],
                            ),
                    decreases bars@.len() - k,
                {
                    let ghost pre = bars@.take(k as int);
                    let ghost next = bars@.take(k as int + 1);
                    assert(next.drop_last() =~= pre);
                    assert(next.last() == bars@[k as int]);
                    let ts = bars[k].0;
                    if start_ts <= ts && ts <= end_ts {
                        let item = bars[k].1.clone();
                        out.push(item);
                        proof {
                            let w = window(pre, start_ts, end_ts);
                            assert(window(next, start_ts, end_ts) == w.push(bars@[k as int]));
                            assert forall|j: int| 0 <= j < out@.len() implies cloned(
                                #[trigger] window(next, start_ts, end_ts)[j].1,
                                out@[j],
                            ) by {
                                if j < w.len() {
                                    assert(window(next, start_ts, end_ts)[j] == w[j]);
                                }
                            }
                        }
                    }
                    k = k + 1;
                }
                assert(bars@.take(bars@.len() as int) =~= bars@);
                out
            },
        }
    }

    /// The last stored bar of `(instrument_id, granularity)` that opens on an
    /// interval boundary.
    pub fn get_latest_kline(&self, instrument_id: &str, granularity: Granularity) -> (r: Option<P>)
        requires
            self.wf(),
            self.bars(instrument_id@, granularity) matches Some(b) ==> latest_defined(b, granularity),
        ensures
            match self.bars(instrument_id@, granularity) {
                None => r is None,
                Some(b) => match r {
                    None => forall|j: int|
                        0 <= j < b.len() ==> !on_boundary(#[trigger] b[j].0 as int, interval_of(granularity)),
                    Some(p) => exists|j: int|
                        0 <= j < b.len() && on_boundary(#[trigger] b[j].0 as int, interval_of(granularity))
                            && cloned(b[j].1, p) && forall|k: int|
                            j < k < b.len() ==> !on_boundary(#[trigger] b[k].0 as int, interval_of(granularity)),
                },
            },
    {
        match self.find(instrument_id, granularity) {
            None => None,
            Some(i) => {
                let bars = &self.series[i].bars;
                if bars.len() == 0 {
                    return None;
                }
                let interval = granularity.to_interval_ms();
                let ghost iv = interval as int;
                let d: i128 = if interval < 0 {
                    -(interval as i128)
                } else {
                    interval as i128
                };
                let mut k: usize = bars.len();
                while k > 0
                    invariant
                        0 <= k <= bars@.len(),
                        iv == interval_of(granularity),
                        iv != 0,
                        self.bars(instrument_id@, granularity) == Some(bars@),
                        d as int == if iv < 0 { -iv } else { iv },
                        forall|j: int| k <= j < bars@.len() ==> !on_boundary(#[trigger] bars@[j].0 as int, iv),
                    decreases k,
                {
                    let t: i128 = bars[k - 1].0 as i128;
                    let hit = if t >= 0 {
                        t % d == 0
                    } else {
                        proof {
                            lemma_rem_zero(t as int, d as int);
                        }
                        (-t) % d == 0
                    };
                    if hit {
                        let item = bars[k - 1].1.clone();
                        proof {
                            let j = k - 1;
                            assert(on_boundary(bars@[j].0 as int, iv));
                            assert(cloned(bars@[j].1, item));
                            assert(forall|m: int| j < m < bars@.len() ==> !on_boundary(#[trigger] bars@[m].0 as int, iv));
                            assert(match self.bars(instrument_id@, granularity) {
                                None => false,
                                Some(b2) => b2 == bars@,
                            });
                        }
                        return Some(item);
                    }
                    k = k - 1;
                }
                None
            },
        }
    }
}

} // verus!

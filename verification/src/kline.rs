//! K-line time resolution: interval lengths, interval starts and gap
//! detection between consecutive bars.
use vstd::prelude::*;
use vstd::arithmetic::div_mod::{lemma_fundamental_div_mod, lemma_fundamental_div_mod_converse};
use crate::int_math::{trunc_div, trunc_rem, div_i64, rem_pos};

verus! {

/// Bar resolution; `Custom` carries its interval in milliseconds.
#[derive(Debug, Clone, Copy, PartialEq, Eq, Structural, Hash)]
pub enum Granularity {
    Tick,
    Minute(i64),
    Hour(i64),
    Day,
    Custom(i64),
}

/// Milliseconds in one minute.
pub const MINUTE_MS: i64 = 60_000;

/// Milliseconds in one hour.
pub const HOUR_MS: i64 = 3_600_000;

/// Milliseconds in one day.
pub const DAY_MS: i64 = 86_400_000;

/// Length of one interval in milliseconds (a tick counts as one).
pub open spec fn interval_of(g: Granularity) -> int {
    match g {
        Granularity::Tick => 1,
        Granularity::Minute(n) => n * 60_000,
        Granularity::Hour(n) => n * 3_600_000,
        Granularity::Day => 86_400_000,
        Granularity::Custom(ms) => ms as int,
    }
}

/// The interval length is a machine integer.
pub open spec fn interval_fits(g: Granularity) -> bool {
    i64::MIN <= interval_of(g) <= i64::MAX
}

/// The granularity an interval length names: one millisecond is a tick,
/// whole minutes are minutes, anything else is custom.
pub open spec fn granularity_of(ms: int) -> Granularity {
    if ms == 1 {
        Granularity::Tick
    } else if ms % 60_000 == 0 {
        Granularity::Minute(trunc_div(ms, 60_000) as i64)
    } else if ms % 3_600_000 == 0 {
        Granularity::Hour(trunc_div(ms, 3_600_000) as i64)
    } else {
        Granularity::Custom(ms as i64)
    }
}

/// Start of the interval holding `ts`: `ts` rounded toward zero to a
/// multiple of the interval.
pub open spec fn interval_start(ts: int, interval: int) -> int {
    trunc_div(ts, interval) * interval
}

/// `start_of_interval` is defined: a non-zero interval, and no overflowing
/// division.
pub open spec fn start_defined(g: Granularity, ts: i64) -> bool {
    &&& interval_fits(g)
    &&& interval_of(g) != 0
    &&& !(ts == i64::MIN && interval_of(g) == -1)
}

/// `|trunc_div(a, b) * b| <= |a|`, so the product is a machine integer.
pub proof fn lemma_trunc_product_bounded(a: int, b: int)
    requires
        b != 0,
    ensures
        a >= 0 ==> 0 <= trunc_div(a, b) * b <= a,
        a < 0 ==> a <= trunc_div(a, b) * b <= 0,
{
    if a >= 0 {
        lemma_fundamental_div_mod(a, b);
        assert(0 <= a % b < if b > 0 { b } else { -b }) by (nonlinear_arith)
            requires
                b != 0,
        ;
        assert(b * (a / b) == (a / b) * b) by (nonlinear_arith);
        assert((a / b) * b >= 0) by (nonlinear_arith)
            requires
                a >= 0,
                a == b * (a / b) + a % b,
                0 <= a % b < if b > 0 { b } else { -b },
        ;
    } else {
        lemma_fundamental_div_mod(-a, b);
        assert(0 <= (-a) % b < if b > 0 { b } else { -b }) by (nonlinear_arith)
            requires
                b != 0,
        ;
        assert(b * ((-a) / b) == ((-a) / b) * b) by (nonlinear_arith);
        assert(((-a) / b) * b >= 0) by (nonlinear_arith)
            requires
                -a > 0,
                -a == b * ((-a) / b) + (-a) % b,
                0 <= (-a) % b < if b > 0 { b } else { -b },
        ;
        assert(-((-a) / b) * b == -(((-a) / b) * b)) by (nonlinear_arith);
    }
}

impl Granularity {
    pub fn to_interval_ms(&self) -> (r: i64)
        requires
            interval_fits(*self),
        ensures
            r == interval_of(*self),
    {
        match self {
            Granularity::Tick => 1,
            Granularity::Minute(n) => *n * MINUTE_MS,
            Granularity::Hour(n) => *n * HOUR_MS,
            Granularity::Day => DAY_MS,
            Granularity::Custom(ms) => *ms,
        }
    }

    pub fn from_interval_ms(interval_ms: i64) -> (r: Self)
        ensures
            r == granularity_of(interval_ms as int),
    {
        if interval_ms == 1 {
            Granularity::Tick
        } else if rem_pos(interval_ms, MINUTE_MS) == 0 {
            Granularity::Minute(div_i64(interval_ms, MINUTE_MS))
        } else if rem_pos(interval_ms, HOUR_MS) == 0 {
            Granularity::Hour(div_i64(interval_ms, HOUR_MS))
        } else {
            Granularity::Custom(interval_ms)
        }
    }

    pub fn start_of_interval(&self, timestamp_ms: i64) -> (r: i64)
        requires
            start_defined(*self, timestamp_ms),
        ensures
            r == interval_start(timestamp_ms as int, interval_of(*self)),
    {
        let interval = self.to_interval_ms();
        proof {
            lemma_trunc_product_bounded(timestamp_ms as int, interval as int);
        }
        div_i64(timestamp_ms, interval) * interval
    }
}

/// Reading a granularity back from its own interval length gives the same
/// length: `to_interval_ms(from_interval_ms(ms)) == ms` for every `ms`.
pub proof fn lemma_interval_round_trip(ms: i64)
    ensures
        interval_fits(granularity_of(ms as int)),
        interval_of(granularity_of(ms as int)) == ms,
{
    let m = ms as int;
    if m != 1 && m % 60_000 == 0 {
        let q = trunc_div(m, 60_000);
        if m >= 0 {
            lemma_fundamental_div_mod(m, 60_000);
        } else {
            lemma_fundamental_div_mod(-m, 60_000);
            assert((-m) % 60_000 == 0) by {
                lemma_neg_multiple(m, 60_000);
            }
        }
        assert(q * 60_000 == m) by (nonlinear_arith)
            requires
                m >= 0 ==> m == 60_000 * (m / 60_000) + m % 60_000 && m % 60_000 == 0 && q == m
                    / 60_000,
                m < 0 ==> -m == 60_000 * ((-m) / 60_000) + (-m) % 60_000 && (-m) % 60_000 == 0
                    && q == -((-m) / 60_000),
        ;
        assert(i64::MIN <= q <= i64::MAX) by (nonlinear_arith)
            requires
                q * 60_000 == m,
                i64::MIN <= m <= i64::MAX,
        ;
    } else if m != 1 && m % 3_600_000 == 0 {
        assert(m % 60_000 == 0) by {
            lemma_fundamental_div_mod(m, 3_600_000);
            lemma_fundamental_div_mod_converse(m, 60_000, (m / 3_600_000) * 60, 0);
        }
    }
}

/// A multiple of `d` negated is still a multiple of `d`.
proof fn lemma_neg_multiple(m: int, d: int)
    requires
        d > 0,
        m % d == 0,
    ensures
        (-m) % d == 0,
{
    lemma_fundamental_div_mod(m, d);
    assert(-m == (-(m / d)) * d + 0) by (nonlinear_arith)
        requires
            m == d * (m / d) + 0,
    ;
    lemma_fundamental_div_mod_converse(-m, d, -(m / d), 0);
}

/// The start of an interval is its own start: `start_of_interval` is
/// idempotent. For non-negative timestamps and a positive interval, the
/// timestamp lies within `[start, start + interval)`.
pub proof fn lemma_interval_start_contains(ts: int, interval: int)
    requires
        interval != 0,
    ensures
        interval_start(interval_start(ts, interval), interval) == interval_start(ts, interval),
        ts >= 0 && interval > 0 ==> interval_start(ts, interval) <= ts < interval_start(ts, interval)
            + interval,
{
    let q = trunc_div(ts, interval);
    let s = q * interval;
    lemma_trunc_product_bounded(ts, interval);
    if s >= 0 {
        lemma_fundamental_div_mod_converse_any(s, interval, q);
    } else {
        assert(-s == (-q) * interval) by (nonlinear_arith)
            requires
                s == q * interval,
        ;
        lemma_fundamental_div_mod_converse_any(-s, interval, -q);
    }
    if ts >= 0 && interval > 0 {
        lemma_fundamental_div_mod(ts, interval);
        assert(interval * (ts / interval) == (ts / interval) * interval) by (nonlinear_arith);
        assert(0 <= ts % interval < interval) by (nonlinear_arith)
            requires
                interval > 0,
        ;
    }
}

/// `(q * d) / d == q` for a non-negative product, whatever the sign of `d`.
proof fn lemma_fundamental_div_mod_converse_any(x: int, d: int, q: int)
    requires
        d != 0,
        x >= 0,
        x == q * d,
    ensures
        trunc_div(x, d) == q,
{
    if d > 0 {
        lemma_fundamental_div_mod_converse(x, d, q, 0);
    } else {
        assert(x / d == q) by (nonlinear_arith)
            requires
                x == d * q + 0,
                d < 0,
        ;
    }
}

/// Whether a tick at `tick_ts` starts a new bar: there is no current bar, or
/// the current bar, opened at `current_bar_ts`, lies in another interval.
pub fn starts_new_bar(interval: Granularity, current_bar_ts: Option<i64>, tick_ts: i64) -> (r: bool)
    requires
        start_defined(interval, tick_ts),
        current_bar_ts matches Some(t) ==> start_defined(interval, t),
    ensures
        r == match current_bar_ts {
            None => true,
            Some(t) => interval_start(t as int, interval_of(interval)) != interval_start(
                tick_ts as int,
                interval_of(interval),
            ),
        },
{
    match current_bar_ts {
        None => true,
        Some(t) => interval.start_of_interval(t) != interval.start_of_interval(tick_ts),
    }
}

/// Gap detector for k-line data.
pub struct GapDetector {
    last_timestamp: Option<i64>,
    tolerance_ms: i64,
}

impl GapDetector {
    /// The last timestamp accepted without a gap.
    pub closed spec fn last(&self) -> Option<i64> {
        self.last_timestamp
    }

    /// The largest step between timestamps that is not a gap.
    pub closed spec fn tolerance(&self) -> i64 {
        self.tolerance_ms
    }

    pub fn new(tolerance_ms: i64) -> (r: Self)
        ensures
            r.last() is None,
            r.tolerance() == tolerance_ms,
    {
        Self { last_timestamp: None, tolerance_ms }
    }

    /// Reports whether `timestamp_ms` lies more than the tolerance after the
    /// last accepted timestamp. A gap leaves the reference point where it was;
    /// otherwise the timestamp becomes the new reference point.
    pub fn check_gap(&mut self, timestamp_ms: i64) -> (r: bool)
        requires
            old(self).last() matches Some(l) ==> i64::MIN <= timestamp_ms - l <= i64::MAX,
        ensures
            r == (old(self).last() matches Some(l) && timestamp_ms - l > old(self).tolerance()),
            final(self).tolerance() == old(self).tolerance(),
            final(self).last() == if r {
                old(self).last()
            } else {
                Some(timestamp_ms)
            },
    {
        if let Some(last) = self.last_timestamp {
            let gap = timestamp_ms - last;
            if gap > self.tolerance_ms {
                return true;
            }
        }
        self.last_timestamp = Some(timestamp_ms);
        false
    }
}

} // verus!

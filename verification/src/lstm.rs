//! Model-service strategy: how service failures are named, and the bar times
//! sent when only the last close is known.
use vstd::prelude::*;

verus! {

/// The error code reported for a model-service failure: the service's own
/// code when it gives a non-empty one, otherwise `fallback`.
pub open spec fn model_error_code(error_code: Option<Seq<char>>, fallback: Seq<char>) -> Seq<char> {
    match error_code {
        Some(code) => if code.len() > 0 {
            code
        } else {
            fallback
        },
        None => fallback,
    }
}

/// Names a model-service failure.
pub fn normalize_model_error_code(error_code: Option<&str>, fallback: &str) -> (r: String)
    ensures
        r@ == model_error_code(
            match error_code {
                Some(c) => Some(c@),
                None => None,
            },
            fallback@,
        ),
{
    match error_code {
        Some(code) => {
            if code.unicode_len() > 0 {
                code.to_string()
            } else {
                fallback.to_string()
            }
        },
        None => fallback.to_string(),
    }
}

/// Milliseconds in one day.
pub const DAY_MS: i64 = 86_400_000;

/// Times of the `lookback` daily bars that end one day before `ts_ms`: the
/// `i`-th lies `lookback - i` days before it.
pub fn synthetic_bar_times(ts_ms: i64, lookback: i64) -> (r: Vec<i64>)
    requires
        lookback > 0 ==> lookback * DAY_MS <= i64::MAX && ts_ms - lookback * DAY_MS >= i64::MIN,
    ensures
        r@.len() == if lookback > 0 { lookback as int } else { 0 },
        forall|i: int| 0 <= i < r@.len() ==> #[trigger] r@[i] == ts_ms - (lookback - i) * DAY_MS,
{
    let mut out: Vec<i64> = Vec::new();
    if lookback <= 0 {
        return out;
    }
    let mut i: i64 = 0;
    while i < lookback
        invariant
            0 <= i <= lookback,
            lookback * DAY_MS <= i64::MAX,
            ts_ms - lookback * DAY_MS >= i64::MIN,
            out@.len() == i,
            forall|j: int| 0 <= j < i ==> #[trigger] out@[j] == ts_ms - (lookback - j) * DAY_MS,
        decreases lookback - i,
    {
        assert((lookback - i) * DAY_MS <= lookback * DAY_MS) by (nonlinear_arith)
            requires
                0 <= i < lookback,
        ;
        assert((lookback - i) * DAY_MS >= DAY_MS) by (nonlinear_arith)
            requires
                0 <= i < lookback,
        ;
        out.push(ts_ms - (lookback - i) * DAY_MS);
        i = i + 1;
    }
    out
}

} // verus!

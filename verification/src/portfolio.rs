//! Portfolio backtest scheduling: when a periodic rebalance is due.
use vstd::prelude::*;

verus! {

/// A rebalance is due when an interval is configured and `ts_ms` lies at
/// least one interval (read as a signed number of milliseconds) after the
/// last rebalance, or after time zero before the first.
pub open spec fn rebalance_due(interval_ms: Option<u64>, last_rebalance_ts: Option<i64>, ts_ms: i64) -> bool {
    match interval_ms {
        None => false,
        Some(i) => match last_rebalance_ts {
            None => ts_ms >= i as i64,
            Some(last) => ts_ms - last >= i as i64,
        },
    }
}

/// Whether a rebalance is due at `ts_ms`.
pub fn should_rebalance(rebalance_interval_ms: Option<u64>, last_rebalance_ts: Option<i64>, ts_ms: i64) -> (r: bool)
    requires
        rebalance_interval_ms is Some && last_rebalance_ts is Some ==> i64::MIN <= ts_ms
            - last_rebalance_ts->0 <= i64::MAX,
    ensures
        r == rebalance_due(rebalance_interval_ms, last_rebalance_ts, ts_ms),
{
    match rebalance_interval_ms {
        None => false,
        Some(interval_ms) => {
            let interval = interval_ms as i64;
            match last_rebalance_ts {
                None => ts_ms >= interval,
                Some(last) => ts_ms - last >= interval,
            }
        },
    }
}

} // verus!

use std::time::Duration;

use strategy::context::LruCache as ContextCache;
use strategy::kline::{GapDetector, Granularity};
use strategy::metrics::{EvaluationTimer, MetricsRegistry, StrategyMetrics};
use strategy::trait_def::LruCache;
use strategy::types::{InstrumentId, Side, Venue};

#[test]
fn test_cache_operations() {
    let mut cache = ContextCache::new(3);
    cache.insert(1, 100.0);
    cache.insert(2, 200.0);
    cache.insert(3, 300.0);

    assert_eq!(cache.get(&1), Some(&100.0));
    assert_eq!(cache.len(), 3);
}

#[test]
fn lru_evicts_least_recently_used() {
    let mut cache = LruCache::new(2);
    cache.insert(1, "a");
    cache.insert(2, "b");
    assert_eq!(cache.get(&1), Some(&"a"));
    cache.insert(3, "c");
    assert_eq!(cache.get(&2), None);
    assert_eq!(cache.get(&1), Some(&"a"));
    assert_eq!(cache.get(&3), Some(&"c"));
    assert_eq!(cache.len(), 2);
}

#[test]
fn lru_overwrite_in_full_cache_keeps_other_keys() {
    let mut cache = LruCache::new(2);
    cache.insert(1, 10);
    cache.insert(2, 20);
    cache.insert(1, 11);
    assert_eq!(cache.len(), 2);
    assert_eq!(cache.get(&2), Some(&20));
    assert_eq!(cache.get(&1), Some(&11));
}

#[test]
fn context_cache_overwrite_in_full_cache_keeps_other_keys() {
    let mut cache = ContextCache::new(2);
    cache.insert(1, 10);
    cache.insert(2, 20);
    cache.insert(2, 21);
    assert_eq!(cache.len(), 2);
    assert_eq!(cache.get(&1), Some(&10));
    assert_eq!(cache.get(&2), Some(&21));
}

#[test]
fn context_cache_new_key_in_full_cache_evicts_oldest() {
    let mut cache = ContextCache::new(2);
    cache.insert(1, 10);
    cache.insert(2, 20);
    cache.get(&1);
    cache.insert(3, 30);
    assert_eq!(cache.len(), 2);
    assert_eq!(cache.get(&2), None);
    assert_eq!(cache.get(&1), Some(&10));
    assert_eq!(cache.get(&3), Some(&30));
}

#[test]
fn lru_remove_and_zero_capacity() {
    let mut cache = LruCache::new(0);
    assert!(cache.is_empty());
    cache.insert(1, 1);
    cache.insert(2, 2);
    assert_eq!(cache.len(), 1);
    assert_eq!(cache.remove(&2), Some(2));
    assert_eq!(cache.remove(&2), None);
    assert!(cache.is_empty());
}

#[test]
fn timer_measures_nonzero_duration() {
    let timer = EvaluationTimer::start();
    // Do a tiny bit of work to ensure non-zero elapsed time
    let _: u64 = (0..1000_u64).sum();
    let d = timer.stop();
    // Can't guarantee > 0 on all platforms, but nanos should be >= 0
    assert!(d.as_nanos() >= 0);
}

#[test]
fn metrics_records_error() {
    let mut m = StrategyMetrics::default();
    m.record_evaluation(Duration::from_nanos(50), false, true);
    assert_eq!(m.errors, 1);
    assert_eq!(m.signals_generated, 0);
}

#[test]
fn metrics_counts_time_and_cache() {
    let mut m = StrategyMetrics::default();
    m.record_evaluation(Duration::from_nanos(200), true, false);
    m.record_evaluation(Duration::from_nanos(400), false, false);
    m.record_cache_hit();
    m.record_cache_miss();
    m.record_cache_hit();
    assert_eq!(m.evaluations, 2);
    assert_eq!(m.total_eval_ns, 600);
    assert_eq!((m.signals_generated, m.signals_suppressed), (1, 1));
    assert_eq!((m.cache_hits, m.cache_misses), (2, 1));
    let mut big = StrategyMetrics::default();
    big.record_evaluation_ns(u64::MAX, true, false);
    big.record_evaluation_ns(5, true, false);
    assert_eq!(big.total_eval_ns, u64::MAX);
}

#[test]
fn registry_records_and_snapshots() {
    let mut reg = MetricsRegistry::new();
    reg.record_evaluation("s1", Duration::from_nanos(100), true, false);
    reg.record_evaluation("s1", Duration::from_nanos(100), false, false);
    let snap = reg.snapshot("s1").unwrap();
    assert_eq!(snap.evaluations, 2);
    assert_eq!(snap.signals_generated, 1);
    assert_eq!(snap.signals_suppressed, 1);
    assert_eq!(snap.total_eval_ns, 200);
}

#[test]
fn registry_records_evaluation_nanoseconds() {
    let mut reg = MetricsRegistry::new();
    reg.record_evaluation_ns("s1", 40, false, true);
    reg.record_evaluation("s1", Duration::from_micros(2), true, false);
    let snap = reg.snapshot("s1").unwrap();
    assert_eq!(snap.total_eval_ns, 2_040);
    assert_eq!((snap.evaluations, snap.errors, snap.signals_generated), (2, 1, 1));
}

#[test]
fn registry_snapshot_returns_none_for_unknown() {
    let reg = MetricsRegistry::new();
    assert!(reg.snapshot("unknown").is_none());
}

#[test]
fn registry_all_snapshots() {
    let mut reg = MetricsRegistry::new();
    reg.record_evaluation("a", Duration::from_nanos(1), true, false);
    reg.record_evaluation("b", Duration::from_nanos(1), false, false);
    let snaps = reg.all_snapshots();
    assert!(snaps.contains_key("a"));
    assert!(snaps.contains_key("b"));
}

#[test]
fn registry_all_snapshots_holds_each_strategys_counters() {
    let mut reg = MetricsRegistry::new();
    reg.record_evaluation("a", Duration::from_nanos(5), true, false);
    reg.record_evaluation("a", Duration::from_nanos(5), false, true);
    reg.record_evaluation("b", Duration::from_nanos(1), false, false);
    let snaps = reg.all_snapshots();
    assert_eq!(snaps.len(), 2);
    let a = snaps.get("a").unwrap();
    assert_eq!(a.evaluations, 2);
    assert_eq!(a.signals_generated, 1);
    assert_eq!(a.errors, 1);
    assert_eq!(snaps.get("b").unwrap().signals_suppressed, 1);
    assert!(!snaps.contains_key("c"));
}

#[test]
fn registry_records_cache_per_strategy() {
    let mut reg = MetricsRegistry::new();
    reg.record_cache("a", true);
    reg.record_cache("a", false);
    reg.record_cache("b", true);
    let a = reg.snapshot("a").unwrap();
    assert_eq!((a.cache_hits, a.cache_misses, a.evaluations), (1, 1, 0));
    assert_eq!(reg.snapshot("b").unwrap().cache_hits, 1);
}

#[test]
fn test_instrument_id() {
    let id = InstrumentId::new(Venue::UsEquity, "AAPL");
    assert_eq!(id.as_str(), "AAPL");
    assert_eq!(id.display(), "USE:AAPL");
}

#[test]
fn venue_and_side_codes() {
    assert_eq!(Venue::HkEquity.as_str(), "HKE");
    assert_eq!(Venue::Crypto.as_str(), "CRYPTO");
    assert_eq!(Venue::Polymarket.as_str(), "POLY");
    assert_eq!(Side::Buy.as_str(), "BUY");
    assert_eq!(Side::Sell.as_str(), "SELL");
    assert_eq!(InstrumentId::new(Venue::Crypto, "BTC").display(), "CRYPTO:BTC");
}

#[test]
fn test_gap_detector() {
    let mut detector = GapDetector::new(5000); // 5s tolerance

    assert!(!detector.check_gap(1712345600000));
    assert!(!detector.check_gap(1712345605000));
    assert!(detector.check_gap(1712345611000));
}

#[test]
fn gap_keeps_reference_point() {
    let mut detector = GapDetector::new(10);
    assert!(!detector.check_gap(100));
    assert!(detector.check_gap(200));
    assert!(!detector.check_gap(105));
}

#[test]
fn granularity_intervals_round_trip() {
    assert_eq!(Granularity::Minute(5).to_interval_ms(), 300_000);
    assert_eq!(Granularity::Hour(2).to_interval_ms(), 7_200_000);
    assert_eq!(Granularity::Day.to_interval_ms(), 86_400_000);
    assert_eq!(Granularity::Tick.to_interval_ms(), 1);
    assert_eq!(Granularity::from_interval_ms(1), Granularity::Tick);
    assert_eq!(Granularity::from_interval_ms(3_600_000), Granularity::Minute(60));
    assert_eq!(Granularity::from_interval_ms(1500), Granularity::Custom(1500));
    assert_eq!(Granularity::from_interval_ms(-120_000), Granularity::Minute(-2));
    for ms in [1i64, 2, 60_000, 86_400_000, 1500, -60_000, -7] {
        assert_eq!(Granularity::from_interval_ms(ms).to_interval_ms(), ms);
    }
}

#[test]
fn interval_start_truncates() {
    let g = Granularity::Minute(1);
    assert_eq!(g.start_of_interval(125_000), 120_000);
    assert_eq!(g.start_of_interval(120_000), 120_000);
    assert_eq!(g.start_of_interval(-125_000), -120_000);
    assert_eq!(Granularity::Custom(-7).start_of_interval(20), 14);
}

#[derive(Debug, Clone)]
struct DataPoint {
    #[allow(dead_code)]
    timestamp: i64,
    value: f64,
}

#[test]
fn test_memory_buffer() {
    let mut buf = strategy::context::MemoryBuffer::new(10);
    buf.push(DataPoint { timestamp: 1000, value: 100.0 });
    buf.push(DataPoint { timestamp: 2000, value: 200.0 });

    assert_eq!(buf.len(), 2);
    assert_eq!(buf.get(0).unwrap().value, 100.0);
}

#[test]
fn memory_buffer_keeps_the_newest_points() {
    let mut buf = strategy::context::MemoryBuffer::new(2);
    for i in 0..5 {
        buf.push(i);
    }
    assert_eq!(buf.len(), 2);
    assert_eq!(buf.get(0), Some(&3));
    assert_eq!(buf.get_last(), Some(&4));
    assert_eq!(buf.get(2), None);
    let mut none = strategy::context::MemoryBuffer::new(0);
    none.push(1);
    assert!(none.is_empty());
}

use strategy::kline::Granularity;
use strategy::kline_store::InMemoryKlineSource;
use strategy::sources::TimeSeriesAligner;
use strategy::storage::ResultStore;

fn source_with(bars: &[(i64, &str)]) -> InMemoryKlineSource<String> {
    let mut source = InMemoryKlineSource::new();
    for (ts, label) in bars {
        source.add_kline("BTC/USDT".to_string(), *ts, label.to_string());
    }
    source
}

#[test]
fn klines_are_stored_at_one_minute_granularity() {
    let source = source_with(&[(60_000, "a")]);
    assert!(source.has_data("BTC/USDT", Granularity::Minute(1)));
    assert!(!source.has_data("BTC/USDT", Granularity::Hour(1)));
    assert!(!source.has_data("ETH/USDT", Granularity::Minute(1)));
}

#[test]
fn range_query_is_inclusive_and_keeps_order() {
    let source = source_with(&[(60_000, "a"), (120_000, "b"), (180_000, "c"), (240_000, "d")]);
    let got = source.get_klines("BTC/USDT", Granularity::Minute(1), 120_000, 180_000);
    assert_eq!(got, vec!["b".to_string(), "c".to_string()]);
    let none = source.get_klines("BTC/USDT", Granularity::Hour(1), 0, i64::MAX);
    assert!(none.is_empty());
}

#[test]
fn latest_timestamp_is_the_largest_stored() {
    let source = source_with(&[(180_000, "c"), (60_000, "a"), (120_000, "b")]);
    assert_eq!(source.latest_timestamp("BTC/USDT", Granularity::Minute(1)), Some(180_000));
    assert_eq!(source.latest_timestamp("ETH/USDT", Granularity::Minute(1)), None);
}

#[test]
fn latest_kline_is_the_last_on_a_boundary() {
    let source = source_with(&[(60_000, "a"), (120_000, "b"), (150_000, "half")]);
    assert_eq!(source.get_latest_kline("BTC/USDT", Granularity::Minute(1)), Some("b".to_string()));
    let off = source_with(&[(1_000, "x"), (2_000, "y")]);
    assert_eq!(off.get_latest_kline("BTC/USDT", Granularity::Minute(1)), None);
}

#[test]
fn gaps_report_the_bar_before_each_long_step() {
    let source = source_with(&[(0, "a"), (60_000, "b"), (240_000, "c"), (300_000, "d"), (500_000, "e")]);
    let gaps = source.check_gaps("BTC/USDT", Granularity::Minute(1), 60_000);
    assert_eq!(gaps, vec![60_000, 300_000]);
    assert!(source.check_gaps("ETH/USDT", Granularity::Minute(1), 60_000).is_empty());
}

#[test]
fn test_time_series_aligner() {
    let aligner = TimeSeriesAligner::default();

    let data = vec![1000, 1100, 1300, 1500];
    let gaps = aligner.find_gaps(data);
    assert_eq!(gaps.len(), 3);
    assert_eq!(gaps[0], (1001, 1099));
    assert_eq!(gaps[1], (1101, 1299));
    assert_eq!(gaps[2], (1301, 1499));

    // The default policy holds every known point as it is.
    let data = vec![(1000, 100.0), (1100, 200.0)];
    let aligned = aligner.align(data);
    assert_eq!(aligned.len(), 2);
    assert_eq!(aligned[0], (1000, 100.0));
    assert_eq!(aligned[1], (1100, 200.0));
}

#[test]
fn align_sorts_and_keeps_the_first_point_per_timestamp() {
    let aligner = TimeSeriesAligner::default();
    let data = vec![(3, 'a'), (1, 'b'), (3, 'c'), (2, 'd'), (1, 'e')];
    assert_eq!(aligner.align(data), vec![(1, 'b'), (2, 'd'), (3, 'a')]);
    assert!(aligner.align(Vec::<(i64, u8)>::new()).is_empty());
}

#[test]
fn result_store_saves_replaces_lists_and_deletes() {
    let mut store = ResultStore::new();
    store.save("b_1".to_string(), 1.5);
    store.save("a_2".to_string(), 2.5);
    store.save("b_1".to_string(), 3.5);
    assert_eq!(store.get("b_1"), Some(&3.5));
    assert_eq!(store.get("zzz"), None);
    assert_eq!(store.list_ids(), vec!["a_2".to_string(), "b_1".to_string()]);
    assert!(store.delete("a_2"));
    assert!(!store.delete("a_2"));
    assert_eq!(store.list_ids(), vec!["b_1".to_string()]);
}

#[test]
fn save_get_delete() {
    // A result built for "test_strategy" starting at 0 is stored under "test_strategy_0".
    let id = "test_strategy_0".to_string();
    let mut store = ResultStore::new();
    store.save(id.clone(), vec![(0_i64, 10_000.0_f64), (60_000, 10_200.0), (120_000, 10_150.0)]);

    assert!(store.get(&id).is_some());
    assert_eq!(store.list_ids().len(), 1);

    let deleted = store.delete(&id);
    assert!(deleted);
    assert!(store.get(&id).is_none());
}

#[test]
fn find_gaps_depends_only_on_which_timestamps_occur() {
    let aligner = TimeSeriesAligner::default();
    let a = aligner.find_gaps(vec![5, 1, 3, 3, 9, 2]);
    let b = aligner.find_gaps(vec![9, 9, 2, 1, 5, 3, 1]);
    assert_eq!(a, vec![(4, 4), (6, 8)]);
    assert_eq!(a, b);
    assert!(aligner.find_gaps(vec![7, 7, 7]).is_empty());
}

use strategy::combinators::{RotationCursor, SideFilter, VotingPolicy};
use strategy::csv::{parse_kline_row, parse_tick_row, split_commas, trim_text, CsvParser, KlineCsvError, TickCsvError};
use strategy::granularity::{tick_bar_bounds, BucketRun, GranularityConverter, ResamplePeriods, ResampleStep, TimeGranularity};
use strategy::grid::combination_indices;
use strategy::grpc::{request_instrument, request_side, GetMetricsRequest, MetricsService};
use strategy::metrics::MetricsRegistry;
use strategy::rng::Lcg;
use strategy::text::{sort_strings, text_leq};
use strategy::types::{Side, Venue};
use std::sync::Arc;

fn buy() -> Option<Side> {
    Some(Side::Buy)
}

fn sell() -> Option<Side> {
    Some(Side::Sell)
}

#[test]
fn ensemble_unanimous_all_agree_buy() {
    let side = VotingPolicy::Unanimous.tally(&vec![buy(), buy(), buy()]);
    assert_eq!(side, Some(Side::Buy));
}

#[test]
fn ensemble_unanimous_disagreement_returns_none() {
    assert!(VotingPolicy::Unanimous.tally(&vec![buy(), sell()]).is_none());
}

#[test]
fn ensemble_majority_buy_wins() {
    assert_eq!(VotingPolicy::Majority.tally(&vec![buy(), buy(), sell()]), Some(Side::Buy));
}

#[test]
fn ensemble_majority_tie_returns_none() {
    assert!(VotingPolicy::Majority.tally(&vec![buy(), sell()]).is_none());
}

#[test]
fn ensemble_any_one_first_wins() {
    assert_eq!(VotingPolicy::AnyOne.tally(&vec![buy(), sell()]), Some(Side::Buy));
}

#[test]
fn ensemble_edge_cases() {
    assert!(VotingPolicy::AnyOne.tally(&vec![]).is_none());
    assert!(VotingPolicy::Majority.tally(&vec![None, None]).is_none());
    assert_eq!(VotingPolicy::AnyOne.tally(&vec![None, sell(), buy()]), Some(Side::Sell));
    assert!(VotingPolicy::Unanimous.tally(&vec![buy(), None]).is_none());
    // silent members do not count towards a majority
    assert_eq!(VotingPolicy::Majority.tally(&vec![None, sell(), None]), Some(Side::Sell));
}

#[test]
fn ensemble_polling_stops_once_decided() {
    assert!(VotingPolicy::AnyOne.polls_on(&vec![None]));
    assert!(!VotingPolicy::AnyOne.polls_on(&vec![None, buy()]));
    assert!(VotingPolicy::Unanimous.polls_on(&vec![buy(), buy()]));
    assert!(!VotingPolicy::Unanimous.polls_on(&vec![buy(), sell()]));
    assert!(!VotingPolicy::Unanimous.polls_on(&vec![None]));
    assert!(VotingPolicy::Majority.polls_on(&vec![buy(), sell()]));
}

#[test]
fn side_filter_passes_only_its_side() {
    let f = SideFilter::new(Side::Sell, "sells");
    assert_eq!(f.filter(sell()), sell());
    assert!(f.filter(buy()).is_none());
    assert!(f.filter(None).is_none());
    assert_eq!(f.name(), "sells");
}

#[test]
fn lcg_known_values() {
    let mut rng = Lcg::new(0);
    // a zero seed starts from one
    assert_eq!(rng.next_u64(), 1u64.wrapping_mul(6364136223846793005).wrapping_add(1442695040888963407));
    let mut a = Lcg::new(42);
    let mut b = Lcg::new(42);
    for _ in 0..5 {
        assert_eq!(a.next_u64(), b.next_u64());
    }
    let mut c = Lcg::new(7);
    let expected = 7u64.wrapping_mul(6364136223846793005).wrapping_add(1442695040888963407) % 10;
    assert_eq!(c.next_usize(10) as u64, expected);
    assert_eq!(c.next_usize(0), 0);
}

#[test]
fn lcg_zero_seed_matches_one() {
    let mut zero = Lcg::new(0);
    let mut one = Lcg::new(1);
    for _ in 0..4 {
        assert_eq!(zero.next_u64(), one.next_u64());
    }
}

#[test]
fn csv_rows_are_trimmed_and_split() {
    assert_eq!(trim_text("  a,b \t\n"), "a,b");
    assert_eq!(split_commas("a,,b,"), vec!["a", "", "b", ""]);
    assert_eq!(split_commas(""), vec![""]);
    let row = parse_kline_row(" 1700000000000,1.5,2,1,1.75,10,BTCUSDT ", 2).unwrap();
    assert_eq!(row.timestamp_ms, 1700000000000);
    assert_eq!(row.open, "1.5");
    assert_eq!(row.close, "1.75");
    assert_eq!(row.instrument_id, "BTCUSDT");
    let tick = parse_tick_row("-5,100.5,3,ETH", 3).unwrap();
    assert_eq!(tick.timestamp_ms, -5);
    assert_eq!(tick.price, "100.5");
    assert_eq!(tick.volume, "3");
}

#[test]
fn csv_row_errors() {
    assert!(matches!(parse_kline_row("1,2,3", 4), Err(KlineCsvError::InvalidData(4))));
    assert!(matches!(parse_kline_row("x1,1,1,1,1,1,A", 5), Err(KlineCsvError::ParseNum(_))));
    assert!(matches!(parse_tick_row("1,2,3,4,5", 6), Err(TickCsvError::InvalidData(6))));
    assert!(matches!(parse_tick_row("99999999999999999999,1,1,A", 7), Err(TickCsvError::ParseNum(_))));
    assert!(matches!(parse_tick_row("+,1,1,A", 8), Err(TickCsvError::ParseNum(_))));
}

#[test]
fn csv_parser_extensions() {
    let mut p = CsvParser::with_data_dir(std::path::PathBuf::from("/tmp/data"));
    assert_eq!(p.file_extensions(), &vec!["csv".to_string()]);
    p.with_extensions(vec!["txt".to_string(), "csv".to_string()]);
    assert_eq!(p.file_extensions().len(), 2);
    assert_eq!(p.data_dir(), &std::path::PathBuf::from("/tmp/data"));
}

#[test]
fn request_fields_are_read() {
    let i = request_instrument("crypto:BTC/USDT");
    assert_eq!(i.venue, Venue::Crypto);
    assert_eq!(i.symbol, "BTC/USDT");
    assert_eq!(request_instrument("ETH").symbol, "ETH");
    assert_eq!(request_instrument("a:b:c").symbol, "b:c");
    assert_eq!(request_side("BUY"), Side::Buy);
    assert_eq!(request_side("buy"), Side::Buy);
    assert_eq!(request_side("sell"), Side::Sell);
    assert_eq!(request_side("hold"), Side::Sell);
}

#[test]
fn metrics_service_not_found() {
    let svc = MetricsService::new(Arc::new(MetricsRegistry::new()));
    let resp = svc.metrics_for(&GetMetricsRequest { strategy_id: "ghost".into() });
    assert!(resp.is_none());
}

#[test]
fn metrics_service_found() {
    let mut reg = MetricsRegistry::new();
    reg.record_evaluation("s1", std::time::Duration::from_micros(5), true, false);
    let svc = MetricsService::new(Arc::new(reg));
    let m = svc.metrics_for(&GetMetricsRequest { strategy_id: "s1".into() }).unwrap();
    assert_eq!(m.evaluations, 1);
}

#[test]
fn text_order_and_sorting() {
    assert!(text_leq("a", "b"));
    assert!(text_leq("ab", "abc"));
    assert!(!text_leq("b", "abc"));
    assert!(text_leq("", ""));
    let sorted = sort_strings(&vec!["pear".to_string(), "apple".to_string(), "Zebra".to_string(), "apple".to_string()]);
    assert_eq!(sorted, vec!["Zebra", "apple", "apple", "pear"]);
}

#[test]
fn downsample_runs_group_one_minute_bars_into_five() {
    let open_ts: Vec<i64> = (0..5).map(|i| i * 60_000i64).collect();
    let runs = GranularityConverter::downsample_runs(&open_ts, 300_000);
    assert_eq!(runs, vec![BucketRun { first: 0, end: 5, bucket_start: 0 }]);

    let open_ts = vec![0, 240_000, 300_000, 660_000, 61_000];
    let runs = GranularityConverter::downsample_runs(&open_ts, 300_000);
    assert_eq!(
        runs,
        vec![
            BucketRun { first: 0, end: 2, bucket_start: 0 },
            BucketRun { first: 2, end: 3, bucket_start: 300_000 },
            BucketRun { first: 3, end: 4, bucket_start: 600_000 },
            BucketRun { first: 4, end: 5, bucket_start: 0 },
        ]
    );
    // buckets truncate toward zero, as integer division does
    let runs = GranularityConverter::downsample_runs(&vec![-1, -299_999, -300_000], 300_000);
    assert_eq!(
        runs,
        vec![
            BucketRun { first: 0, end: 2, bucket_start: 0 },
            BucketRun { first: 2, end: 3, bucket_start: -300_000 },
        ]
    );
    assert!(GranularityConverter::downsample_runs(&vec![], 60_000).is_empty());
}

#[test]
fn upsample_fill_steps_cover_the_gap() {
    assert_eq!(GranularityConverter::fill_steps(60_000, 180_000, 60_000), vec![60_000, 120_000]);
    assert_eq!(GranularityConverter::fill_steps(60_000, 60_000, 60_000), Vec::<i64>::new());
    assert_eq!(GranularityConverter::fill_steps(0, 150, 100), vec![0, 100]);
}

#[test]
fn parameter_grid_enumerates_every_choice() {
    assert_eq!(
        combination_indices(&vec![2, 2]),
        vec![vec![0, 0], vec![0, 1], vec![1, 0], vec![1, 1]]
    );
    assert_eq!(combination_indices(&vec![3]), vec![vec![0], vec![1], vec![2]]);
    assert_eq!(combination_indices(&vec![]), vec![Vec::<usize>::new()]);
    assert!(combination_indices(&vec![2, 0, 3]).is_empty());
    assert_eq!(combination_indices(&vec![1, 3, 2]).len(), 6);
    assert_eq!(combination_indices(&vec![1, 3, 2])[3], vec![0, 1, 1]);
}

#[test]
fn rotation_cursor_cycles_through_members() {
    let mut cursor = RotationCursor::new();
    let picks: Vec<Option<usize>> = (0..5).map(|_| cursor.pick(3)).collect();
    assert_eq!(picks, vec![Some(0), Some(1), Some(2), Some(0), Some(1)]);
}

#[test]
fn rotation_cursor_without_members_picks_none() {
    let mut cursor = RotationCursor::new();
    assert_eq!(cursor.pick(0), None);
    assert_eq!(cursor.pick(2), Some(0));
}

#[test]
fn tick_bars_open_on_multiples_of_their_length() {
    assert_eq!(tick_bar_bounds(125_000, 60_000), (120_000, 180_000));
    assert_eq!(tick_bar_bounds(120_000, 60_000), (120_000, 180_000));
    assert_eq!(tick_bar_bounds(-30_000, 60_000), (0, 60_000));
}

#[test]
fn granularities_are_written_with_their_unit() {
    assert_eq!(strategy::types::Granularity::Tick.label(), "tick");
    assert_eq!(strategy::types::Granularity::Minute(5).label(), "5m");
    assert_eq!(strategy::types::Granularity::Hour(4).label(), "4h");
    assert_eq!(strategy::types::Granularity::Day.label(), "day");
}

#[test]
fn ticks_in_another_interval_start_a_new_bar() {
    let minute = strategy::kline::Granularity::Minute(1);
    assert!(strategy::kline::starts_new_bar(minute, None, 1_000));
    assert!(!strategy::kline::starts_new_bar(minute, Some(60_000), 119_999));
    assert!(strategy::kline::starts_new_bar(minute, Some(60_000), 120_000));
}

#[test]
fn resampler_5_minute_bars() {
    let mut periods = ResamplePeriods::new(TimeGranularity::Minutes(5));
    let mut completed: Vec<(f64, f64, f64)> = Vec::new();
    let mut buffer: Option<(f64, f64, f64)> = None;
    for i in 0..5i64 {
        let open_ts = i * 60_000i64;
        let close_ts = open_ts + 60_000;
        let price = 100.0 + i as f64;
        let bar = (price, price, 10.0);
        assert!(periods.step_fits(open_ts, close_ts));
        match periods.step(open_ts, close_ts) {
            ResampleStep::Start => buffer = Some(bar),
            ResampleStep::Merge | ResampleStep::MergeAndEmit => {
                let b = buffer.as_mut().unwrap();
                b.1 = bar.1;
                b.2 += bar.2;
                if periods.open {
                    continue;
                }
                completed.push(buffer.take().unwrap());
            }
            other => panic!("unexpected step {:?}", other),
        }
    }
    assert_eq!(completed.len(), 1);
    let agg = completed[0];
    assert_eq!(agg.2, 50.0);
    assert!((agg.1 - 104.0).abs() < 1e-9);
    assert!((agg.0 - 100.0).abs() < 1e-9);
}

#[test]
fn resample_periods_emit_and_restart_and_pass_ticks() {
    let mut periods = ResamplePeriods::new(TimeGranularity::Minutes(5));
    assert_eq!(periods.step(60_000, 120_000), ResampleStep::Start);
    assert_eq!(periods.period_end_ms, 300_000);
    assert_eq!(periods.step(120_000, 180_000), ResampleStep::Merge);
    assert_eq!(periods.step(600_000, 660_000), ResampleStep::EmitAndStart);
    assert_eq!(periods.period_end_ms, 900_000);
    let mut ticks = ResamplePeriods::new(TimeGranularity::Tick);
    assert_eq!(ticks.step(5, 6), ResampleStep::PassThrough);
    assert!(!ResamplePeriods::new(TimeGranularity::Seconds(0)).step_fits(0, 1));
}

use strategy::granularity::TimeGranularity;
use strategy::http::{
    handle_get_backtest_result, handle_get_strategy_config, handle_health, handle_list_backtest_results, handle_list_strategies, ApiError,
    HttpRouter,
};
use strategy::registry::StrategyRegistry;
use strategy::storage::ResultStore;
use strategy::sources::{GapFillStrategy, TimeSeriesAligner};

#[test]
fn health_handler_ok() {
    let h = handle_health(1000, 5000);
    assert_eq!(h.status, "ok");
    assert_eq!(h.uptime_ms, 4000);
}

#[test]
fn health_uptime_never_negative() {
    let h = handle_health(5000, 1000); // current before started
    assert_eq!(h.uptime_ms, 0);
}

#[test]
fn router_dispatch_get() {
    let router = HttpRouter::new().get("/health", |_| r#"{"status":"ok"}"#.into());
    let resp = router.dispatch("GET", "/health", "");
    assert_eq!(resp.unwrap(), r#"{"status":"ok"}"#);
}

#[test]
fn router_dispatch_post() {
    let router = HttpRouter::new().post("/echo", |body| body.to_owned());
    let resp = router.dispatch("POST", "/echo", "hello");
    assert_eq!(resp.unwrap(), "hello");
}

#[test]
fn router_dispatch_not_found() {
    let router: HttpRouter<fn(&str) -> String> = HttpRouter::new();
    let resp = router.dispatch("GET", "/missing", "");
    assert!(resp.is_none());
}

#[test]
fn router_matches_method_case_insensitively_and_first_route_wins() {
    type Handler = Box<dyn Fn(&str) -> String>;
    let router = HttpRouter::<Handler>::new()
        .get("/x", Box::new(|_: &str| "first".to_string()) as Handler)
        .get("/x", Box::new(|_: &str| "second".to_string()) as Handler)
        .post("/x", Box::new(|_: &str| "post".to_string()) as Handler);
    assert_eq!(router.dispatch("get", "/x", "").unwrap(), "first");
    assert_eq!(router.dispatch("Post", "/x", "").unwrap(), "post");
    assert!(router.dispatch("PUT", "/x", "").is_none());
    assert!(router.dispatch("GET", "/y", "").is_none());
}

#[test]
fn api_error_codes() {
    assert_eq!(ApiError::not_found("x").code, 404);
    assert_eq!(ApiError::bad_request("x").code, 400);
    assert_eq!(ApiError::internal("x").code, 500);
}

#[test]
fn to_ms_values() {
    assert_eq!(TimeGranularity::Seconds(30).to_ms(), Some(30_000));
    assert_eq!(TimeGranularity::Minutes(5).to_ms(), Some(300_000));
    assert_eq!(TimeGranularity::Hours(1).to_ms(), Some(3_600_000));
    assert_eq!(TimeGranularity::Days(1).to_ms(), Some(86_400_000));
    assert_eq!(TimeGranularity::Tick.to_ms(), None);
}

#[test]
fn find_gaps_between_distinct_timestamps() {
    let aligner = TimeSeriesAligner::default();
    let gaps = aligner.find_gaps(vec![1000, 1100, 1300, 1500]);
    assert_eq!(gaps, vec![(1001, 1099), (1101, 1299), (1301, 1499)]);
    let gaps = aligner.find_gaps(vec![1500, 1000, 1001, 1000, 1003]);
    assert_eq!(gaps, vec![(1002, 1002), (1004, 1499)]);
    assert!(aligner.find_gaps(vec![7]).is_empty());
    assert!(aligner.find_gaps(vec![7, 7, 7]).is_empty());
    let zero = TimeSeriesAligner::default().with_gap_fill(GapFillStrategy::Zero);
    assert_eq!(zero.default_gap_fill, GapFillStrategy::Zero);
}

#[test]
fn list_strategies_empty() {
    let reg: StrategyRegistry<String, String> = StrategyRegistry::new();
    let ids = handle_list_strategies(&reg);
    assert!(ids.is_empty());
}

#[test]
fn get_strategy_config_not_found() {
    let reg: StrategyRegistry<String, String> = StrategyRegistry::new();
    let err = handle_get_strategy_config(&reg, "ghost").unwrap_err();
    assert_eq!(err.code, 404);
    assert_eq!(err.message, "strategy 'ghost' not found");
}

#[test]
fn get_backtest_result_not_found() {
    let store: ResultStore<String> = ResultStore::new();
    let err = handle_get_backtest_result(&store, "nonexistent").unwrap_err();
    assert_eq!(err.code, 404);
    assert_eq!(err.message, "backtest result 'nonexistent' not found");
}

#[test]
fn list_backtest_results() {
    // The stored values stand in for backtest results with these ids.
    let mut store = ResultStore::new();
    store.save("r1".to_string(), "result r1".to_string());
    store.save("r2".to_string(), "result r2".to_string());
    let ids = handle_list_backtest_results(&store);
    assert_eq!(ids, vec!["r1", "r2"]);
}

#[test]
fn registered_strategies_list_sorted_with_their_configs() {
    let mut reg: StrategyRegistry<String, String> = StrategyRegistry::new();
    reg.register("zeta".to_string(), "z".to_string(), "{\"w\":1}".to_string());
    reg.register("alpha".to_string(), "a".to_string(), "{}".to_string());
    assert_eq!(handle_list_strategies(&reg), vec!["alpha", "zeta"]);
    assert_eq!(handle_get_strategy_config(&reg, "zeta").unwrap(), "{\"w\":1}");
    let mut store = ResultStore::new();
    store.save("r1".to_string(), 7_u32);
    assert_eq!(handle_get_backtest_result(&store, "r1").unwrap(), &7);
}

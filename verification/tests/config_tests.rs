use strategy::config::{ConfigLoader, JsonTree};
use strategy::assembly::{alpha_component_category, category_groups, StrategyContext};
use strategy::options::StrategyRuntimeMode;

fn valid_json() -> &'static str {
    r#"{
        "strategies": [
            {
                "id": "s1",
                "strategy_type": "always_long",
                "params": {},
                "enabled": true,
                "version": 1
            }
        ],
        "backtest": null,
        "risk": {
            "max_drawdown_pct": 0.2,
            "max_position_size": 1000.0,
            "daily_loss_limit": 500.0,
            "var_confidence": 0.95
        },
        "paper_trading": {
            "enabled": true,
            "initial_capital": 10000.0,
            "commission_rate": 0.001,
            "slippage_bps": 5.0
        },
        "log_level": "info",
        "data_dir": "/tmp/data"
    }"#
}

fn to_tree(value: serde_json::Value) -> JsonTree {
    match value {
        serde_json::Value::Null => JsonTree::Null,
        serde_json::Value::Object(members) => JsonTree::Object(members.into_iter().map(|(k, v)| (k, to_tree(v))).collect()),
        other => JsonTree::Other(other),
    }
}

fn from_tree(tree: JsonTree) -> serde_json::Value {
    match tree {
        JsonTree::Null => serde_json::Value::Null,
        JsonTree::Object(members) => serde_json::Value::Object(members.into_iter().map(|(k, v)| (k, from_tree(v))).collect()),
        JsonTree::Other(value) => value,
    }
}

fn merged(base: &str, overlay: &str) -> serde_json::Value {
    let mut tree = to_tree(serde_json::from_str(base).unwrap());
    ConfigLoader::merge_json(&mut tree, to_tree(serde_json::from_str(overlay).unwrap()));
    from_tree(tree)
}

#[test]
fn merge_overlays_field() {
    let merged = merged(valid_json(), r#"{ "log_level": "debug" }"#);
    assert_eq!(merged["log_level"], "debug");
    assert_eq!(merged["data_dir"], "/tmp/data");
}

#[test]
fn merge_null_not_overwritten() {
    let merged = merged(valid_json(), r#"{ "log_level": null }"#);
    assert_eq!(merged["log_level"], "info");
}

#[test]
fn merge_descends_into_nested_objects() {
    let merged = merged(valid_json(), r#"{ "risk": { "var_confidence": 0.99, "max_drawdown_pct": null }, "extra": [1, 2] }"#);
    assert_eq!(merged["risk"]["var_confidence"], 0.99);
    assert_eq!(merged["risk"]["max_drawdown_pct"], 0.2);
    assert_eq!(merged["risk"]["daily_loss_limit"], 500.0);
    assert_eq!(merged["extra"], serde_json::Value::from(vec![1, 2]));
}

#[test]
fn merge_replaces_non_objects_and_ignores_null_overlays() {
    assert_eq!(merged(r#"{"a": 1}"#, r#"5"#), serde_json::Value::from(5));
    assert_eq!(merged(r#"{"a": 1}"#, r#"null"#)["a"], 1);
    assert_eq!(merged(r#""text""#, r#"{"b": {"c": null}}"#)["b"]["c"], serde_json::Value::Null);
}

#[test]
fn components_group_by_category_in_code_point_order() {
    let cats: Vec<String> = ["trend", "mean", "trend", "carry", "mean"].iter().map(|s| s.to_string()).collect();
    assert_eq!(category_groups(&cats), vec![vec![3], vec![1, 4], vec![0, 2]]);
    assert!(category_groups(&Vec::new()).is_empty());
}

#[test]
fn component_category_falls_back_to_the_name() {
    assert_eq!(alpha_component_category(Some("  trend \t"), "ma"), "trend");
    assert_eq!(alpha_component_category(Some("   "), "ma"), "ma");
    assert_eq!(alpha_component_category(None, "ma"), "ma");
}

#[test]
fn strategy_context_keeps_its_identity() {
    let ctx = StrategyContext::new("s1".to_string(), "BTCUSDT".to_string(), StrategyRuntimeMode::Paper);
    assert_eq!(ctx.strategy_id, "s1");
    assert_eq!(ctx.symbol, "BTCUSDT");
    assert_eq!(ctx.runtime_mode, StrategyRuntimeMode::Paper);
}

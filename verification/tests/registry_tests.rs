use serde_json::Value;

use strategy::hot_reload::ConfigDiff;
use strategy::registry::{RegistryError, RequiredFields, StrategyFactory, StrategyRegistry};
use strategy::trait_def::Strategy;

struct Stub {
    id: String,
    ver: u32,
}

impl Stub {
    fn new(id: &str, ver: u32) -> Self {
        Self { id: id.into(), ver }
    }
}

impl Strategy for Stub {
    fn name(&self) -> &str {
        &self.id
    }

    fn version(&self) -> u32 {
        self.ver
    }
}

fn json(text: &str) -> Value {
    serde_json::from_str(text).unwrap()
}

type Registry = StrategyRegistry<Stub, Value>;
type Builder = fn(Value) -> Result<Stub, RegistryError>;

#[test]
fn register_and_get() {
    let mut reg = Registry::new();
    reg.register("s1".into(), Stub::new("s1", 1), json("{}"));
    let s = reg.get("s1").unwrap();
    assert_eq!(s.name(), "s1");
}

#[test]
fn get_returns_none_for_unknown() {
    let reg = Registry::new();
    assert!(reg.get("unknown").is_none());
}

#[test]
fn hot_swap_replaces_strategy() {
    let mut reg = Registry::new();
    reg.register("s1".into(), Stub::new("s1-v1", 1), json("{}"));
    reg.hot_swap("s1", Stub::new("s1-v2", 2), json(r#"{"v": 2}"#)).unwrap();
    let s = reg.get("s1").unwrap();
    assert_eq!(s.name(), "s1-v2");
}

#[test]
fn hot_swap_unknown_id_errors() {
    let mut reg = Registry::new();
    let result = reg.hot_swap("nope", Stub::new("x", 1), json("{}"));
    assert!(matches!(result, Err(RegistryError::NotFound(_))));
}

#[test]
fn rollback_restores_previous_version() {
    let mut reg = Registry::new();
    reg.register("s1".into(), Stub::new("s1-v1", 1), json("{}"));
    reg.hot_swap("s1", Stub::new("s1-v2", 2), json("{}")).unwrap();
    reg.rollback("s1", 1).unwrap();
    let s = reg.get("s1").unwrap();
    assert_eq!(s.name(), "s1-v1");
}

#[test]
fn rollback_missing_version_errors() {
    let mut reg = Registry::new();
    reg.register("s1".into(), Stub::new("s1", 1), json("{}"));
    assert!(matches!(reg.rollback("s1", 99), Err(RegistryError::VersionNotFound(99))));
}

#[test]
fn validate_config_passes_when_fields_present() {
    let config = json(r#"{"threshold": 0.5, "window": 20}"#);
    let schema = json(r#"{"required": ["threshold", "window"]}"#);
    assert!(Registry::validate_config(&config, &schema).is_ok());
}

#[test]
fn validate_config_fails_when_field_missing() {
    let config = json(r#"{"threshold": 0.5}"#);
    let schema = json(r#"{"required": ["threshold", "window"]}"#);
    assert!(matches!(Registry::validate_config(&config, &schema), Err(RegistryError::InvalidConfig(_))));
}

#[test]
fn list_returns_all_ids() {
    let mut reg = Registry::new();
    reg.register("a".into(), Stub::new("a", 1), json("{}"));
    reg.register("b".into(), Stub::new("b", 1), json("{}"));
    let mut ids = reg.list();
    ids.sort();
    assert_eq!(ids, vec!["a", "b"]);
}

#[test]
fn factory_creates_from_type_name() {
    let mut factory: StrategyFactory<Builder> = StrategyFactory::new();
    factory.register_builder("stub".into(), |_config| Ok(Stub::new("built", 1)));
    let s = factory.create("stub", json("{}")).unwrap();
    assert_eq!(s.name(), "built");
}

#[test]
fn factory_unknown_type_errors() {
    let factory: StrategyFactory<Builder> = StrategyFactory::new();
    assert!(matches!(factory.create("unknown", json("{}")), Err(RegistryError::NotFound(_))));
}

#[test]
fn rollback_after_hot_swap_keeps_swapped_config() {
    let mut reg = Registry::new();
    reg.register("s1".into(), Stub::new("s1-v1", 1), json(r#"{"v": 1}"#));
    reg.hot_swap("s1", Stub::new("s1-v2", 2), json(r#"{"v": 2}"#)).unwrap();
    reg.rollback("s1", 1).unwrap();
    assert_eq!(reg.get("s1").unwrap().version(), 1);
    assert_eq!(reg.get_config("s1"), Some(&json(r#"{"v": 2}"#)));
    // the restored version left the history
    assert!(matches!(reg.rollback("s1", 1), Err(RegistryError::VersionNotFound(1))));
}

#[test]
fn rollback_unknown_id_errors() {
    let mut reg = Registry::new();
    assert!(matches!(reg.rollback("ghost", 1), Err(RegistryError::NotFound(s)) if s == "ghost"));
}

#[test]
fn rollback_picks_the_oldest_record_of_a_version() {
    let mut reg = Registry::new();
    reg.register("s".into(), Stub::new("first", 1), json("{}"));
    reg.hot_swap("s", Stub::new("second", 1), json("{}")).unwrap();
    reg.hot_swap("s", Stub::new("third", 3), json("{}")).unwrap();
    reg.rollback("s", 1).unwrap();
    assert_eq!(reg.get("s").unwrap().name(), "first");
    reg.rollback("s", 1).unwrap();
    assert_eq!(reg.get("s").unwrap().name(), "second");
}

#[test]
fn register_again_replaces_entry_and_history() {
    let mut reg = Registry::new();
    reg.register("s".into(), Stub::new("old", 1), json("{}"));
    reg.hot_swap("s", Stub::new("mid", 2), json("{}")).unwrap();
    reg.register("s".into(), Stub::new("new", 5), json("{}"));
    assert_eq!(reg.list(), vec!["s".to_string()]);
    assert_eq!(reg.get("s").unwrap().name(), "new");
    assert!(matches!(reg.rollback("s", 1), Err(RegistryError::VersionNotFound(1))));
}

#[test]
fn validate_config_reports_each_failure() {
    let config = json(r#"{"a": 1}"#);
    let not_array = Registry::validate_config(&config, &json(r#"{"required": "a"}"#));
    assert!(matches!(not_array, Err(RegistryError::InvalidConfig(m)) if m == "schema `required` field must be an array"));
    let not_string = Registry::validate_config(&config, &json(r#"{"required": ["a", 3]}"#));
    assert!(matches!(not_string, Err(RegistryError::InvalidConfig(m)) if m == "required entry must be a string"));
    let missing = Registry::validate_config(&config, &json(r#"{"required": ["a", "b"]}"#));
    assert!(matches!(missing, Err(RegistryError::InvalidConfig(m)) if m == "missing required field: b"));
    assert!(Registry::validate_config(&config, &json("{}")).is_ok());
    let not_object = Registry::validate_config(&json("[1]"), &json(r#"{"required": ["a"]}"#));
    assert!(matches!(not_object, Err(RegistryError::InvalidConfig(m)) if m == "missing required field: a"));
}

#[test]
fn registry_error_messages() {
    assert_eq!(RegistryError::NotFound("s1".into()).message(), "Strategy not found: s1");
    assert_eq!(RegistryError::VersionNotFound(42).message(), "Version not found: 42");
    assert_eq!(RegistryError::InvalidConfig("x".into()).message(), "Invalid config: x");
    assert_eq!(RegistryError::BuildFailed("y".into()).message(), "Build failed: y");
}

#[test]
fn factory_latest_builder_wins() {
    let mut factory: StrategyFactory<Builder> = StrategyFactory::new();
    factory.register_builder("stub".into(), |_config| Ok(Stub::new("one", 1)));
    factory.register_builder("stub".into(), |_config| Ok(Stub::new("two", 2)));
    assert_eq!(factory.create("stub", json("{}")).unwrap().name(), "two");
}

#[test]
fn diff_detects_added_field() {
    let d = ConfigDiff::diff(&json(r#"{"a": 1}"#), &json(r#"{"a": 1, "b": 2}"#));
    assert_eq!(d.added, vec!["b"]);
    assert!(d.removed.is_empty());
    assert!(d.changed.is_empty());
}

#[test]
fn diff_detects_removed_field() {
    let d = ConfigDiff::diff(&json(r#"{"a": 1, "b": 2}"#), &json(r#"{"a": 1}"#));
    assert_eq!(d.removed, vec!["b"]);
    assert!(d.added.is_empty());
    assert!(d.changed.is_empty());
}

#[test]
fn diff_detects_changed_field() {
    let d = ConfigDiff::diff(&json(r#"{"a": 1}"#), &json(r#"{"a": 2}"#));
    assert_eq!(d.changed, vec!["a"]);
}

#[test]
fn diff_is_empty_for_identical_configs() {
    let cfg = json(r#"{"x": 42}"#);
    let d = ConfigDiff::diff(&cfg, &cfg);
    assert!(d.is_empty());
}

#[test]
fn diff_non_object_values_changed() {
    let d = ConfigDiff::diff(&json("1"), &json("2"));
    assert_eq!(d.changed, vec!["<root>"]);
}

#[test]
fn diff_non_object_values_same() {
    let d = ConfigDiff::diff(&json("42"), &json("42"));
    assert!(d.is_empty());
}

#[test]
fn diff_lists_come_sorted() {
    let d = ConfigDiff::diff(&json(r#"{"z": 1, "m": 1, "k": 1}"#), &json(r#"{"z": 2, "b": 0, "a": 0, "m": 3}"#));
    assert_eq!(d.added, vec!["a", "b"]);
    assert_eq!(d.removed, vec!["k"]);
    assert_eq!(d.changed, vec!["m", "z"]);
    assert!(!d.is_empty());
}

#[test]
fn diff_members_from_plain_keys() {
    let old = vec!["b".to_string(), "a".to_string(), "c".to_string()];
    let new = vec!["d".to_string(), "c".to_string(), "a".to_string(), "e".to_string()];
    let same = vec![false, false, true, false];
    let d = ConfigDiff::diff_members(&old, &new, &same);
    assert_eq!(d.added, vec!["d", "e"]);
    assert_eq!(d.removed, vec!["b"]);
    assert_eq!(d.changed, vec!["c"]);
}

#[test]
fn required_fields_reads_each_schema_shape() {
    assert!(matches!(Registry::required_fields(&json(r#"{"other": 1}"#)), RequiredFields::Absent));
    assert!(matches!(Registry::required_fields(&json(r#"{"required": {"a": 1}}"#)), RequiredFields::NotAnArray));
    assert!(matches!(Registry::required_fields(&json(r#"{"required": null}"#)), RequiredFields::NotAnArray));
    match Registry::required_fields(&json(r#"{"required": ["a", 3, null, "b"]}"#)) {
        RequiredFields::Entries(es) => {
            assert_eq!(es, vec![Some("a".to_string()), None, None, Some("b".to_string())]);
        },
        _ => panic!("expected entries"),
    }
}

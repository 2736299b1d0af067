//! The builder and the store: precedence, merging, reading, refreshing.

use stratify::bootstrap::build_store;
use stratify::config::builder::{AnySource, CustomSource};
use stratify::config::source::document::parse_json;
use stratify::config::source::{EnvSource, JsonSource};
use stratify::config::store::{merge_all, MergeAll};
use stratify::config::value::deep_merge;
use stratify::config::{Builder, ConfigBuilder, ConfigValue, Error, Source, Store};
use stratify::Options;

fn json(content: &str) -> Result<ConfigValue, Error> {
    parse_json(content)
}

/// Load JSON sources, given in the order of registration with their contents and
/// priorities, as a store.
fn store(files: &[(&str, u32)]) -> Result<Store, Error> {
    let mut builder = Builder::default();
    for (i, (_, priority)) in files.iter().enumerate() {
        builder = builder.source(AnySource::Custom(CustomSource {
            name: format!("file {i}"),
            priority: *priority,
            slot: i,
        }));
    }
    let sources = builder.build_sources();
    let mut merge = MergeAll::new(sources.len());
    while let Some(next) = merge.next() {
        let slot = match &sources[next] {
            AnySource::Custom(source) => source.slot,
            other => panic!("unexpected source {other:?}"),
        };
        merge = merge.step(json(files[slot].0))?;
    }
    Ok(Store::from_merge(sources, merge))
}

fn vars(given: &[(&str, &str)]) -> Vec<(String, String)> {
    given.iter().map(|(k, v)| (k.to_string(), v.to_string())).collect()
}

// ── Builder ──

#[test]
fn builder_stacks_sources() {
    let builder = ConfigBuilder::default().json("/tmp/base.json", 100);
    let sources = builder.build_sources();
    assert_eq!(sources.len(), 1);
    assert_eq!(sources[0].name(), "json");
    assert_eq!(sources[0].priority(), 100);
}

#[test]
fn toml_source_is_registered() {
    let builder = ConfigBuilder::default().toml("/tmp/config.toml", 50);
    let sources = builder.build_sources();
    assert_eq!(sources.len(), 1);
    assert_eq!(sources[0].name(), "toml");
    assert_eq!(sources[0].priority(), 50);
}

#[test]
fn multiple_sources_sorted_by_priority() {
    let builder = ConfigBuilder::default()
        .json("/tmp/base.json", 100)
        .yaml("/tmp/override.yaml", 50)
        .env("APP_", "__", 10);
    let sources = builder.build_sources();
    assert_eq!(sources.len(), 3);
    assert_eq!(sources[0].priority(), 10);
    assert_eq!(sources[0].name(), "env");
    assert_eq!(sources[1].priority(), 50);
    assert_eq!(sources[1].name(), "yaml");
    assert_eq!(sources[2].priority(), 100);
    assert_eq!(sources[2].name(), "json");
}

#[test]
fn source_method_adds_custom_source() {
    let builder =
        ConfigBuilder::default().source(AnySource::Json(JsonSource::new("/tmp/custom.json", 25)));
    let sources = builder.build_sources();
    assert_eq!(sources.len(), 1);
    assert_eq!(sources[0].priority(), 25);
}

#[test]
fn dotenv_method_works() {
    let builder = ConfigBuilder::default().dotenv(Ok(()), "CONFIGKIT_B", "__", 5);
    assert!(builder.is_ok());
    let sources = builder.unwrap().build_sources();
    assert_eq!(sources[0].priority(), 5);
    assert_eq!(sources[0].name(), "dotenv");
    match &sources[0] {
        AnySource::DotEnv(source) => {
            let tree = source.load(&vars(&[("CONFIGKIT_BUILDER_KEY", "built")])).unwrap();
            assert_eq!(tree.get("uilder_key").and_then(|v| v.as_str()), Some("built"));
        }
        other => panic!("got {other:?}"),
    }
}

#[test]
fn default_creates_empty_builder() {
    let builder = ConfigBuilder::default();
    let sources = builder.build_sources();
    assert!(sources.is_empty());
}

#[test]
fn sources_of_one_priority_keep_the_order_of_registration() {
    let sources = ConfigBuilder::default()
        .json("first.json", 10)
        .yaml("second.yaml", 10)
        .toml("low.toml", 20)
        .env_keys(&["RUST_LOG"], "__", 10)
        .azure("https://example.azconfig.io/", 5)
        .build_sources();
    let names: Vec<&str> = sources.iter().map(|s| s.name()).collect();
    assert_eq!(names, ["azure_app_config", "json", "yaml", "env", "toml"]);
}

// ── Store ──

#[test]
fn loads_and_merges_json_config() {
    let store = store(&[
        (r#"{"host": "localhost", "port": 5432, "debug": false}"#, 100),
        (r#"{"host": "prod.example.com", "debug": true}"#, 50),
    ])
    .unwrap();
    assert_eq!(store.get_str("host").unwrap(), "prod.example.com");
    assert_eq!(store.get_u64("port").unwrap(), 5432);
    assert!(store.get_bool("debug").unwrap());
}

#[test]
fn deep_merges_nested_objects() {
    let store = store(&[
        (r#"{"db": {"host": "localhost", "port": 5432}}"#, 100),
        (r#"{"db": {"host": "db.example.com"}}"#, 50),
    ])
    .unwrap();
    assert_eq!(store.get_str("db.host").unwrap(), "db.example.com");
    assert_eq!(store.get_u64("db.port").unwrap(), 5432);
}

#[test]
fn refresh_reloads_from_files() {
    let mut store = store(&[(r#"{"version": 1}"#, 0)]).unwrap();
    assert_eq!(store.get_u64("version").unwrap(), 1);
    store.refresh(vec![json(r#"{"version": 2}"#)]).unwrap();
    assert_eq!(store.get_u64("version").unwrap(), 2);
}

#[test]
fn a_failed_refresh_leaves_the_previous_values() {
    let mut store = store(&[(r#"{"version": 1}"#, 0), (r#"{"other": 3}"#, 1)]).unwrap();
    let result = store.refresh(vec![
        json(r#"{"version": 2}"#),
        Err(Error::Io("gone".to_string())),
    ]);
    assert!(matches!(result, Err(Error::Io(message)) if message == "gone"));
    assert_eq!(store.get_u64("version").unwrap(), 1);
    assert_eq!(store.get_u64("other").unwrap(), 3);
}

#[test]
fn deserializes_into_struct() {
    let store = store(&[(r#"{"db": {"host": "pg.example.com", "port": 5432}}"#, 0)]).unwrap();
    let db = store.get("db").unwrap();
    assert_eq!(db.get("host").and_then(|v| v.as_str()), Some("pg.example.com"));
    assert_eq!(db.get("port").and_then(|v| v.as_u64()), Some(5432));
}

#[test]
fn missing_key_returns_none() {
    let store = store(&[(r#"{"exists": true}"#, 0)]).unwrap();
    assert!(store.get_str("nonexistent").is_none());
    assert!(store.get_u64("nonexistent").is_none());
    assert!(store.get_bool("nonexistent").is_none());
}

#[test]
fn missing_key_get_typed_returns_error() {
    let store = store(&[(r#"{"exists": true}"#, 0)]).unwrap();
    let result = store.get("nonexistent");
    assert!(matches!(result, Err(Error::NotFound(key)) if key == "nonexistent"));
}

#[test]
fn builds_from_empty_builder() {
    let store = Builder::default().build(vec![]).unwrap();
    match store.full_config() {
        ConfigValue::Object(entries) => assert!(entries.is_empty()),
        other => panic!("got {other:?}"),
    }
}

#[test]
fn env_and_file_merge_correctly() {
    let environment = vars(&[("CK_T5_HOST", "from-env")]);
    let builder = Builder::default().json("base.json", 100).env("CK_T5_", "__", 10);
    let env = EnvSource::new("CK_T5_", "__", 10).load(&environment);
    let file = json(r#"{"host": "from-file", "port": 8080}"#);
    let store = builder.build(vec![env, file]).unwrap();
    assert_eq!(store.get_str("host").unwrap(), "from-env");
    assert_eq!(store.get_u64("port").unwrap(), 8080);
    assert_eq!(store.source_at(0).map(|s| s.name()), Some("env"));
    assert_eq!(store.source_at(1).map(|s| s.name()), Some("json"));
    assert!(store.source_at(2).is_none());
}

#[test]
fn full_config_returns_complete_json() {
    let store = store(&[(r#"{"key": "value"}"#, 0)]).unwrap();
    let full = store.full_config();
    assert_eq!(full.get("key").and_then(|v| v.as_str()), Some("value"));
}

#[test]
fn end_to_end_multiple_sources() {
    let store = store(&[
        (r#"{"host": "localhost", "port": 5432, "debug": false}"#, 100),
        (r#"{"host": "prod.example.com", "debug": true}"#, 50),
    ])
    .unwrap();
    assert_eq!(store.get_str("host").unwrap(), "prod.example.com");
    assert_eq!(store.get_u64("port").unwrap(), 5432);
    assert!(store.get_bool("debug").unwrap());
}

#[test]
fn deep_merge_nested_objects() {
    let store = store(&[
        (r#"{"db": {"host": "localhost", "port": 5432, "pool": 10}}"#, 100),
        (r#"{"db": {"host": "db.prod.local", "tls": true}}"#, 50),
    ])
    .unwrap();
    assert_eq!(store.get_str("db.host").unwrap(), "db.prod.local");
    assert_eq!(store.get_u64("db.port").unwrap(), 5432);
    assert_eq!(store.get_u64("db.pool").unwrap(), 10);
    assert!(store.get_bool("db.tls").unwrap());
}

#[test]
fn deserialize_struct() {
    let store = store(&[(r#"{"app": {"name": "hermes", "log_level": "debug"}}"#, 0)]).unwrap();
    let app = store.get("app").unwrap();
    assert_eq!(app.get("name").and_then(|v| v.as_str()), Some("hermes"));
    assert_eq!(app.get("log_level").and_then(|v| v.as_str()), Some("debug"));
}

#[test]
fn missing_key_is_none() {
    let store = store(&[(r#"{"exists": true}"#, 0)]).unwrap();
    assert!(store.get_str("missing").is_none());
    assert!(store.get_u64("missing").is_none());
    assert!(store.get_bool("missing").is_none());
}

#[test]
fn empty_builder_produces_empty_store() {
    let store = Builder::default().build(vec![]).unwrap();
    assert!(store.get_str("anything").is_none());
}

#[test]
fn the_last_failing_source_in_precedence_order_is_reported() {
    let loads = vec![
        Err(Error::Io("first".to_string())),
        Err(Error::Io("second".to_string())),
        json("{}"),
    ];
    assert!(matches!(merge_all(loads), Err(Error::Io(message)) if message == "second"));
}

#[test]
fn a_value_of_another_kind_replaces_an_object_and_the_other_way_round() {
    let mut target = json(r#"{"a": {"b": 1}, "c": 2, "keep": [1]}"#).unwrap();
    let other = json(r#"{"a": 3, "c": {"d": 4}}"#).unwrap();
    deep_merge(&mut target, &other);
    assert_eq!(target.get("a").and_then(|v| v.as_u64()), Some(3));
    let d = target.get("c").and_then(|v| v.get("d")).and_then(|v| v.as_u64());
    assert_eq!(d, Some(4));
    assert!(target.get("keep").is_some());
}

#[test]
fn merging_twice_is_merging_once() {
    let other = json(r#"{"a": {"x": 1}, "b": "text"}"#).unwrap();
    let mut once = json(r#"{"a": {"y": 2}, "c": true}"#).unwrap();
    deep_merge(&mut once, &other);
    let mut twice = once.clone();
    deep_merge(&mut twice, &other);
    assert_eq!(format!("{once:?}"), format!("{twice:?}"));
}

#[test]
fn a_replaced_merge_is_what_the_store_reads() {
    let mut store = store(&[(r#"{"a": 1}"#, 0)]).unwrap();
    let merge = MergeAll::new(1).step(json(r#"{"a": 2}"#)).unwrap();
    assert_eq!(merge.next(), None);
    store.replace(merge);
    assert_eq!(store.get_u64("a"), Some(2));
}

// ── The conventional stack ──

#[test]
fn dotenv_beats_the_environment_and_the_environment_beats_the_file() {
    let options = Options::new("svc");
    let builder = build_store(&options, true, Some(Ok(()))).expect("the stack assembles");
    let sources = builder.build_sources();
    let names: Vec<&str> = sources.iter().map(|s| s.name()).collect();
    assert_eq!(names, ["dotenv", "env", "toml"]);
    let ranks: Vec<u32> = sources.iter().map(|s| s.priority()).collect();
    assert_eq!(ranks, [10, 50, 100]);

    let loads = vec![
        json(r#"{"a": "dotenv"}"#),
        json(r#"{"a": "env", "b": "env"}"#),
        json(r#"{"a": "file", "b": "file", "c": "file"}"#),
    ];
    let merged = merge_all(loads).unwrap();
    assert_eq!(merged.get("a").and_then(|v| v.as_str()), Some("dotenv"));
    assert_eq!(merged.get("b").and_then(|v| v.as_str()), Some("env"));
    assert_eq!(merged.get("c").and_then(|v| v.as_str()), Some("file"));
}

#[test]
fn an_absent_file_and_an_unwanted_dotenv_are_left_out() {
    let mut options = Options::new("svc");
    options.dotenv = false;
    let sources = build_store(&options, false, Some(Err("unread".to_string())))
        .expect("what is not read cannot fail")
        .build_sources();
    assert_eq!(sources.len(), 1);
    assert_eq!(sources[0].name(), "env");
}

#[test]
fn a_dotenv_that_does_not_load_fails_the_stack() {
    let options = Options::new("svc");
    let result = build_store(&options, true, Some(Err("line 3".to_string())));
    match result {
        Err(Error::Other(message)) => assert_eq!(message, "Failed to load .env file: line 3"),
        other => panic!("got {other:?}"),
    }
}

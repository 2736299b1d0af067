//! The sources: files, the environment, `.env`, and nesting of flat keys.

use stratify::config::source::document::{parse_json, parse_toml, parse_yaml, toml_to_json, TomlValue};
use stratify::config::source::flat::{expand as expand_flat, flat_insert};
use stratify::config::source::nesting::dot_keys_to_json;
use stratify::config::source::{DotEnvSource, EnvSource, JsonSource, TomlSource, YamlSource};
use stratify::config::value::Number;
use stratify::config::{ConfigError, ConfigValue, Source};

fn at<'a>(value: &'a ConfigValue, path: &[&str]) -> &'a ConfigValue {
    let mut current = value;
    for key in path {
        current = current.get(key).expect("the path is there");
    }
    current
}

fn text<'a>(value: &'a ConfigValue, path: &[&str]) -> &'a str {
    at(value, path).as_str().expect("a string")
}

fn number(value: &ConfigValue, path: &[&str]) -> u64 {
    at(value, path).as_u64().expect("a number")
}

fn truth(value: &ConfigValue, path: &[&str]) -> bool {
    at(value, path).as_bool().expect("a boolean")
}

fn pairs(given: &[(&str, &str)]) -> Vec<(String, String)> {
    given.iter().map(|(k, v)| (k.to_string(), v.to_string())).collect()
}

fn entries(value: &ConfigValue) -> usize {
    match value {
        ConfigValue::Object(entries) => entries.len(),
        _ => panic!("not an object"),
    }
}

fn loaded(content: &str) -> Result<String, String> {
    Ok(content.to_string())
}

fn missing() -> Result<String, String> {
    Err("No such file or directory (os error 2)".to_string())
}

// ── Nesting ──

fn expand(given: &[(&str, &str)]) -> Result<ConfigValue, ConfigError> {
    dot_keys_to_json(&pairs(given))
}

#[test]
fn flat_keys_stay_flat() {
    let value = expand(&[("host", "localhost")]).expect("expands");
    assert_eq!(text(&value, &["host"]), "localhost");
}

#[test]
fn dotted_keys_become_nested() {
    let value = expand(&[("db.host", "pg"), ("db.port", "5432")]).expect("expands");
    assert_eq!(text(&value, &["db", "host"]), "pg");
    assert_eq!(text(&value, &["db", "port"]), "5432");
}

#[test]
fn deeply_nested_keys_expand_fully() {
    let value = expand(&[("a.b.c.d", "deep")]).expect("expands");
    assert_eq!(text(&value, &["a", "b", "c", "d"]), "deep");
}

#[test]
fn a_leaf_blocking_a_branch_is_a_conflict() {
    let result = expand(&[("db", "flat"), ("db.host", "nested")]);
    assert!(matches!(result, Err(ConfigError::MergeConflict(_))));
}

#[test]
fn an_empty_input_is_an_empty_object() {
    let value = expand(&[]).expect("expands");
    assert_eq!(entries(&value), 0);
}

#[test]
fn a_conflict_names_the_key_that_needs_an_object_where_a_value_stands() {
    match expand(&[("db", "flat"), ("db.host", "nested")]) {
        Err(ConfigError::MergeConflict(key)) => assert_eq!(key, "db.host"),
        other => panic!("expected a conflict, got {other:?}"),
    }
}

#[test]
fn a_later_value_for_one_key_replaces_the_earlier() {
    let value = expand(&[("a", "first"), ("a", "second")]).expect("expands");
    assert_eq!(text(&value, &["a"]), "second");
    assert_eq!(entries(&value), 1);
}

#[test]
fn expanding_without_a_clash_finds_every_key_again() {
    let given = pairs(&[("a.b", "1"), ("a.c", "2"), ("d", "3")]);
    let value = expand_flat(&given).expect("nothing clashes");
    assert_eq!(text(&value, &["a", "b"]), "1");
    assert_eq!(text(&value, &["a", "c"]), "2");
    assert_eq!(text(&value, &["d"]), "3");
}

#[test]
fn a_flat_insert_replaces_the_value_of_a_key() {
    let mut flat = pairs(&[("a", "1"), ("b", "2")]);
    flat_insert(&mut flat, "a".to_string(), "3".to_string());
    assert_eq!(flat.len(), 2);
    assert!(flat.contains(&("a".to_string(), "3".to_string())));
    assert!(flat.contains(&("b".to_string(), "2".to_string())));
}

// ── Environment ──

#[test]
fn env_source_loads_env_vars_with_prefix() {
    let vars = pairs(&[("CK_HOST_T_HOST", "from_env")]);
    let source = EnvSource::new("CK_HOST_T_", "__", 0);
    let val = source.load(&vars).unwrap();
    assert_eq!(text(&val, &["host"]), "from_env");
}

#[test]
fn env_source_captures_flat_keys_without_separator() {
    let vars = pairs(&[("CK_FLAT_T_DB_HOST", "pg.local")]);
    let source = EnvSource::new("CK_FLAT_T_", "__", 0);
    let val = source.load(&vars).unwrap();
    assert!(val.get("db_host").is_some());
}

#[test]
fn env_source_separator_converts_to_dot_nesting() {
    let vars = pairs(&[("CK_NEST_T_DB__HOST", "nested.local")]);
    let source = EnvSource::new("CK_NEST_T_", "__", 0);
    let val = source.load(&vars).unwrap();
    assert_eq!(text(&val, &["db", "host"]), "nested.local");
}

#[test]
fn a_selected_variable_is_found_at_its_path_and_the_later_of_two_counts() {
    let vars = pairs(&[
        ("APP_DB__HOST", "first"),
        ("OTHER_DB__PORT", "5432"),
        ("APP_db__host", "second"),
    ]);
    let val = EnvSource::new("APP_", "__", 10).load(&vars).unwrap();
    assert_eq!(text(&val, &["db", "host"]), "second");
    assert_eq!(entries(&val), 1);
    assert_eq!(entries(at(&val, &["db"])), 1);
}

#[test]
fn with_keys_captures_only_the_named_variables() {
    let vars = pairs(&[("CK_WANTED_VAR", "yes"), ("CK_UNWANTED_VAR", "no")]);
    let source = EnvSource::with_keys(&["CK_WANTED_VAR"], "__", 0);
    let val = source.load(&vars).unwrap();
    assert_eq!(text(&val, &["ck_wanted_var"]), "yes");
    assert!(
        val.get("ck_unwanted_var").is_none(),
        "an unnamed variable must not be captured"
    );
}

#[test]
fn with_keys_does_not_capture_the_whole_environment() {
    let vars = pairs(&[("PATH", "/usr/bin"), ("HOME", "/root")]);
    let source = EnvSource::with_keys(&["CK_DEFINITELY_NOT_SET_ANYWHERE"], "__", 0);
    let val = source.load(&vars).unwrap();
    assert_eq!(
        entries(&val),
        0,
        "naming no present variable must yield nothing, not everything"
    );
}

#[test]
fn with_keys_matches_case_insensitively() {
    let vars = pairs(&[("CK_CASE_VAR", "value")]);
    let source = EnvSource::with_keys(&["ck_case_var"], "__", 0);
    let val = source.load(&vars).unwrap();
    assert_eq!(text(&val, &["ck_case_var"]), "value");
}

#[test]
fn with_keys_still_nests_on_the_separator() {
    let vars = pairs(&[("CK_NESTED__CHILD", "leaf")]);
    let source = EnvSource::with_keys(&["CK_NESTED__CHILD"], "__", 0);
    let val = source.load(&vars).unwrap();
    assert_eq!(text(&val, &["ck_nested", "child"]), "leaf");
}

#[test]
fn env_source_conflicting_key_and_nested_key_returns_error() {
    let vars = pairs(&[
        ("CK_CONF_T_DB_LEAF", "flat"),
        ("CK_CONF_T_DB_LEAF__HOST", "nested"),
    ]);
    let source = EnvSource::new("CK_CONF_T_", "__", 0);
    let result = source.load(&vars);
    assert!(result.is_err());
}

#[test]
fn an_empty_prefix_captures_every_variable_in_lower_case() {
    let vars = pairs(&[("PATH", "/usr/bin"), ("APP__ÄDE", "x")]);
    let source = EnvSource::new("", "__", 7);
    let flat = source.env_to_flat(&vars);
    assert!(flat.contains(&("path".to_string(), "/usr/bin".to_string())));
    assert!(
        flat.contains(&("app.äde".to_string(), "x".to_string())),
        "got: {flat:?}"
    );
    assert_eq!(source.name(), "env");
    assert_eq!(source.priority(), 7);
}

// ── .env ──

#[test]
fn loads_dotenv_file() {
    let vars = pairs(&[("CK_DOT_T_KEY", "from_dotfile")]);
    let source = DotEnvSource::new(Ok(()), "CK_DOT_T_", "__", 0).unwrap();
    let val = source.load(&vars).unwrap();
    assert_eq!(text(&val, &["key"]), "from_dotfile");
}

#[test]
fn missing_dotenv_file_is_error() {
    let result = DotEnvSource::new(Err("path not found".to_string()), "CK_DOT_T_", "__", 0);
    match result {
        Err(ConfigError::Other(message)) => {
            assert_eq!(message, "Failed to load .env file: path not found")
        }
        other => panic!("expected an error, got {other:?}"),
    }
}

// ── JSON ──

#[test]
fn loads_valid_json() {
    let source = JsonSource::new("base.json", 0);
    let val = source.load(loaded(r#"{"host": "localhost", "port": 5432}"#)).unwrap();
    assert_eq!(text(&val, &["host"]), "localhost");
    assert_eq!(number(&val, &["port"]), 5432);
}

#[test]
fn json_source_missing_file_is_error() {
    let source = JsonSource::new("/nonexistent/path.json", 0);
    match source.load(missing()) {
        Err(ConfigError::Io(message)) => {
            assert_eq!(message, "No such file or directory (os error 2)")
        }
        other => panic!("expected an I/O error, got {other:?}"),
    }
}

#[test]
fn invalid_json_is_error() {
    let source = JsonSource::new("base.json", 0);
    assert!(matches!(
        source.load(loaded("{not valid json")),
        Err(ConfigError::Json(_))
    ));
}

#[test]
fn json_numbers_keep_their_sign_and_their_fraction() {
    let val = parse_json(r#"{"a": 1, "b": -2, "c": 0.5, "d": null, "e": [true]}"#).unwrap();
    assert!(matches!(at(&val, &["a"]), ConfigValue::Number(Number::PosInt(1))));
    assert!(matches!(at(&val, &["b"]), ConfigValue::Number(Number::NegInt(-2))));
    match at(&val, &["c"]) {
        ConfigValue::Number(Number::Float(bits)) => assert_eq!(*bits, 0.5f64.to_bits()),
        other => panic!("got {other:?}"),
    }
    assert!(matches!(at(&val, &["d"]), ConfigValue::Null));
    match at(&val, &["e"]) {
        ConfigValue::Array(items) => assert_eq!(items[0].as_bool(), Some(true)),
        other => panic!("got {other:?}"),
    }
}

// ── YAML ──

#[test]
fn loads_valid_yaml() {
    let source = YamlSource::new("base.yaml", 0);
    let val = source.load(loaded("host: localhost\nport: 5432")).unwrap();
    assert_eq!(text(&val, &["host"]), "localhost");
    assert_eq!(number(&val, &["port"]), 5432);
}

#[test]
fn yaml_source_missing_file_is_error() {
    let source = YamlSource::new("/nonexistent/path.yaml", 0);
    assert!(source.load(missing()).is_err());
}

#[test]
fn invalid_yaml_is_error() {
    let source = YamlSource::new("base.yaml", 0);
    assert!(matches!(
        source.load(loaded(": bad yaml")),
        Err(ConfigError::Yaml(_))
    ));
    assert!(parse_yaml("a: [1").is_err());
}

// ── TOML ──

#[test]
fn loads_valid_toml() {
    let source = TomlSource::new("config.toml", 0);
    let val = source.load(loaded("host = \"localhost\"\nport = 5432\n")).unwrap();
    assert_eq!(text(&val, &["host"]), "localhost");
    assert_eq!(number(&val, &["port"]), 5432);
}

#[test]
fn loads_nested_toml() {
    let source = TomlSource::new("config.toml", 0);
    let val = source
        .load(loaded("[db]\nhost = \"pg.example.com\"\nport = 5432\n"))
        .unwrap();
    assert_eq!(text(&val, &["db", "host"]), "pg.example.com");
    assert_eq!(number(&val, &["db", "port"]), 5432);
}

#[test]
fn loads_arrays() {
    let source = TomlSource::new("config.toml", 0);
    let val = source
        .load(loaded("origins = [\"localhost\", \"example.com\"]\n"))
        .unwrap();
    match at(&val, &["origins"]) {
        ConfigValue::Array(items) => {
            assert_eq!(items[0].as_str(), Some("localhost"));
            assert_eq!(items[1].as_str(), Some("example.com"));
        }
        other => panic!("expected an array, got {other:?}"),
    }
}

#[test]
fn loads_booleans() {
    let source = TomlSource::new("config.toml", 0);
    let val = source.load(loaded("debug = true\ncache = false\n")).unwrap();
    assert!(truth(&val, &["debug"]));
    assert!(!truth(&val, &["cache"]));
}

#[test]
fn toml_source_missing_file_is_error() {
    let source = TomlSource::new("/nonexistent/path.toml", 0);
    assert!(source.load(missing()).is_err());
}

#[test]
fn invalid_toml_is_error() {
    let source = TomlSource::new("config.toml", 0);
    let err = source.load(loaded("= invalid toml")).unwrap_err();
    assert!(err.message().contains("TOML"));
}

#[test]
fn name_and_priority() {
    let source = TomlSource::new("config.toml", 42);
    assert_eq!(source.name(), "toml");
    assert_eq!(source.priority(), 42);
    assert_eq!(source.path(), "config.toml");
}

#[test]
fn toml_dates_become_text_and_numbers_that_json_lacks_become_null() {
    let val = parse_toml("when = 1979-05-27T07:32:00Z\nnever = nan\nhalf = 0.5\nbelow = -3\n").unwrap();
    assert_eq!(text(&val, &["when"]), "1979-05-27T07:32:00Z");
    assert!(matches!(at(&val, &["never"]), ConfigValue::Null));
    match at(&val, &["half"]) {
        ConfigValue::Number(Number::Float(bits)) => assert_eq!(*bits, 0.5f64.to_bits()),
        other => panic!("got {other:?}"),
    }
    assert!(matches!(at(&val, &["below"]), ConfigValue::Number(Number::NegInt(-3))));
}

#[test]
fn toml_values_are_rewritten_as_json() {
    let toml = TomlValue::Table(vec![
        ("n".to_string(), TomlValue::Integer(7)),
        ("inf".to_string(), TomlValue::Float(f64::INFINITY.to_bits())),
        (
            "list".to_string(),
            TomlValue::Array(vec![TomlValue::Boolean(true), TomlValue::String("x".to_string())]),
        ),
    ]);
    let json = toml_to_json(&toml);
    assert_eq!(number(&json, &["n"]), 7);
    assert!(matches!(at(&json, &["inf"]), ConfigValue::Null));
    match at(&json, &["list"]) {
        ConfigValue::Array(items) => {
            assert_eq!(items.len(), 2);
            assert_eq!(items[1].as_str(), Some("x"));
        }
        other => panic!("got {other:?}"),
    }
}

#[test]
fn config_errors_read_as_sentences() {
    let cases = [
        (ConfigError::Io("gone".to_string()), "I/O error: gone"),
        (ConfigError::Json("bad".to_string()), "JSON parse error: bad"),
        (ConfigError::Yaml("bad".to_string()), "YAML parse error: bad"),
        (ConfigError::Toml("bad".to_string()), "TOML parse error: bad"),
        (
            ConfigError::NotFound("a.b".to_string()),
            "Configuration source not found: a.b",
        ),
        (
            ConfigError::MergeConflict("a.b".to_string()),
            "Configuration merge conflict at key: a.b",
        ),
        (ConfigError::Other("anything".to_string()), "anything"),
    ];
    for (error, sentence) in cases {
        assert_eq!(error.message(), sentence);
    }
}

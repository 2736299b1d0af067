//! Azure App Configuration: URLs, pages, Key Vault references.

use stratify::config::source::azure_source::{
    is_key_vault_ref, resolve_secret, resolve_token, secret_request, secret_url, token_error, urlencode, FetchReply,
    FetchStep, KeyValue, KeyValuePage, ResolveStep, SecretReply,
};
use stratify::config::source::AzureAppConfigSource;
use stratify::config::{Error, Source};

const REFERENCE: &str = "application/vnd.microsoft.appconfig.keyvaultref+json;charset=utf-8";

fn source() -> AzureAppConfigSource {
    AzureAppConfigSource::new("https://example.azconfig.io", 10)
}

fn item(key: &str, value: Option<&str>, content_type: Option<&str>) -> KeyValue {
    KeyValue {
        key: key.to_string(),
        value: value.map(str::to_string),
        content_type: content_type.map(str::to_string),
    }
}

fn get<'a>(flat: &'a [(String, String)], key: &str) -> Option<&'a str> {
    flat.iter().find(|(k, _)| k == key).map(|(_, v)| v.as_str())
}

fn message<T>(result: Result<T, Error>) -> String {
    match result {
        Err(Error::Other(message)) => message,
        Err(other) => panic!("another error: {other:?}"),
        Ok(_) => panic!("expected an error"),
    }
}

#[test]
fn azure_source_a_trailing_slash_on_the_endpoint_is_normalised() {
    let source = AzureAppConfigSource::new("https://example.azconfig.io/", 10);
    assert_eq!(source.endpoint(), "https://example.azconfig.io");
}

#[test]
fn azure_source_the_first_page_url_omits_the_label_when_unset() {
    let url = source().first_page_url();
    assert_eq!(url, "https://example.azconfig.io/kv?api-version=1.0");
}

#[test]
fn azure_source_the_first_page_url_includes_an_encoded_label() {
    let url = source().with_label("prod env").first_page_url();
    assert_eq!(
        url,
        "https://example.azconfig.io/kv?api-version=1.0&label=prod%20env"
    );
}

#[test]
fn azure_source_keys_are_lowercased_and_split_on_the_separator() {
    let items = vec![
        item("Database:Host", Some("pg.internal"), None),
        item("Database:Port", Some("5432"), None),
    ];
    let flat = source().to_flat(&items);
    assert_eq!(get(&flat, "database.host"), Some("pg.internal"));
    assert_eq!(get(&flat, "database.port"), Some("5432"));
}

#[test]
fn azure_source_a_custom_separator_is_honoured() {
    let items = vec![item("db__host", Some("pg"), None)];
    let flat = source().with_separator("__").to_flat(&items);
    assert_eq!(get(&flat, "db.host"), Some("pg"));
}

#[test]
fn an_item_is_found_at_its_path_and_the_later_of_two_counts() {
    let items = vec![
        item("Database:Host", Some("first"), None),
        item("DATABASE:HOST", Some("second"), None),
        item("database:host", None, None),
    ];
    let tree = source().load(&items).expect("expands");
    let database = tree.get("database").expect("nested");
    assert_eq!(database.get("host").and_then(|v| v.as_str()), Some("second"));
}

#[test]
fn azure_source_a_key_with_no_value_is_skipped() {
    let items = vec![item("present", Some("yes"), None), item("absent", None, None)];
    let flat = source().to_flat(&items);
    assert_eq!(flat.len(), 1);
    assert!(get(&flat, "absent").is_none());
}

#[test]
fn azure_source_source_metadata_matches_the_trait_contract() {
    let source = source();
    assert_eq!(source.name(), "azure_app_config");
    assert_eq!(source.priority(), 10);
}

#[test]
fn azure_source_urlencode_escapes_reserved_characters() {
    assert_eq!(urlencode("plain"), "plain");
    assert_eq!(urlencode("a b"), "a%20b");
    assert_eq!(urlencode("a/b"), "a%2Fb");
    assert_eq!(urlencode("a&b=c"), "a%26b%3Dc");
    assert_eq!(urlencode("keep-_.~"), "keep-_.~");
}

#[test]
fn urlencode_escapes_reserved_characters() {
    assert_eq!(urlencode("plain"), "plain");
    assert_eq!(urlencode("a b"), "a%20b");
    assert_eq!(urlencode("a/b"), "a%2Fb");
    assert_eq!(urlencode("a&b=c"), "a%26b%3Dc");
    assert_eq!(urlencode("keep-_.~"), "keep-_.~");
}

#[test]
fn urlencode_escapes_every_byte_of_a_wide_character() {
    assert_eq!(urlencode("é"), "%C3%A9");
    assert_eq!(urlencode("%"), "%25");
}

#[test]
fn the_uri_of_an_envelope_is_what_is_requested() {
    let request = secret_request(Ok("https://v.vault.azure.net/secrets/db".to_string()))
        .expect("a readable envelope");
    assert_eq!(request.uri, "https://v.vault.azure.net/secrets/db");
    assert_eq!(request.url, "https://v.vault.azure.net/secrets/db?api-version=7.4");
}

#[test]
fn encoded_labels_are_safe_in_a_query_and_stay_apart() {
    assert_eq!(urlencode("a&b=c"), "a%26b%3Dc");
    assert_eq!(urlencode("a%26b=c"), "a%2526b%3Dc");
}

#[test]
fn key_vault_refs_are_recognized_by_content_type_prefix() {
    assert!(is_key_vault_ref(Some(
        "application/vnd.microsoft.appconfig.keyvaultref+json;charset=utf-8"
    )));
    assert!(is_key_vault_ref(Some(
        "application/vnd.microsoft.appconfig.keyvaultref+json"
    )));
    assert!(!is_key_vault_ref(Some("application/json")));
    assert!(!is_key_vault_ref(None));
}

#[test]
fn a_reference_with_resolution_off_is_an_error_naming_the_key() {
    let source = AzureAppConfigSource::new("https://example.invalid", 10);
    let items = vec![
        item("Database:Host", Some("db.internal"), None),
        item(
            "Database:Password",
            Some(r#"{"uri":"https://v.vault.azure.net/secrets/db-pw"}"#),
            Some("application/vnd.microsoft.appconfig.keyvaultref+json;charset=utf-8"),
        ),
    ];
    let message = message(source.resolve_references(items));
    assert!(message.contains("Database:Password"), "got: {message}");
    assert!(
        message.contains("with_key_vault_resolution"),
        "got: {message}"
    );
    assert!(message.contains("\"Database:Password\""), "the key is quoted: {message}");
}

#[test]
fn plain_values_pass_resolution_untouched() {
    let source = AzureAppConfigSource::new("https://example.invalid", 10);
    let items = vec![item("Database:Host", Some("db.internal"), Some("application/json"))];
    match source.resolve_references(items) {
        Ok(ResolveStep::Done(items)) => {
            assert_eq!(items[0].value.as_deref(), Some("db.internal"))
        }
        other => panic!("expected nothing to do, got {other:?}"),
    }
}

#[test]
fn an_unreadable_reference_envelope_is_an_error_naming_the_key() {
    let source = AzureAppConfigSource::new("https://example.invalid", 10).with_key_vault_resolution();
    let items = vec![item(
        "Database:Password",
        Some("not-json"),
        Some("application/vnd.microsoft.appconfig.keyvaultref+json"),
    )];
    let items = match source.resolve_references(items) {
        Ok(ResolveStep::Token(items)) => items,
        other => panic!("expected a token to be asked for, got {other:?}"),
    };
    let (items, index) = match resolve_token(items, Ok(())) {
        Ok(ResolveStep::Secret { items, index }) => (items, index),
        other => panic!("expected a secret to be asked for, got {other:?}"),
    };
    assert_eq!(index, 0);
    let reply = secret_request(Err("expected ident at line 1 column 2".to_string()))
        .expect_err("an envelope that is not JSON is not requested");
    let message = message(resolve_secret(items, index, reply));
    assert!(message.contains("Database:Password"), "got: {message}");
    assert!(message.contains("envelope"), "got: {message}");
}

#[test]
fn azure_source_load_surfaces_a_transport_failure_rather_than_panicking() {
    let source = AzureAppConfigSource::new("https://nonexistent.invalid", 10);
    let fetch = source.begin_fetch();
    let result = source.fetch_all(fetch, FetchReply::Failed("dns error".to_string()));
    assert_eq!(message(result), "App Configuration request failed: dns error");
}

#[test]
fn every_page_is_followed_and_collected_in_order() {
    let source = source();
    let fetch = source.begin_fetch();
    assert_eq!(fetch.url(), "https://example.azconfig.io/kv?api-version=1.0");

    let first = KeyValuePage {
        items: vec![item("A", Some("1"), None)],
        next_link: Some("/kv?api-version=1.0&after=xyz".to_string()),
    };
    let fetch = match source.fetch_all(fetch, FetchReply::Page(first)) {
        Ok(FetchStep::Request(fetch)) => fetch,
        other => panic!("expected another request, got {other:?}"),
    };
    assert_eq!(
        fetch.url(),
        "https://example.azconfig.io/kv?api-version=1.0&after=xyz"
    );

    let second = KeyValuePage {
        items: vec![item("B", Some("2"), None)],
        next_link: Some("https://other.azconfig.io/kv?page=3".to_string()),
    };
    let fetch = match source.fetch_all(fetch, FetchReply::Page(second)) {
        Ok(FetchStep::Request(fetch)) => fetch,
        other => panic!("expected another request, got {other:?}"),
    };
    assert_eq!(fetch.url(), "https://other.azconfig.io/kv?page=3");

    let last = KeyValuePage { items: vec![item("C", Some("3"), None)], next_link: None };
    match source.fetch_all(fetch, FetchReply::Page(last)) {
        Ok(FetchStep::Done(items)) => {
            let keys: Vec<&str> = items.iter().map(|i| i.key.as_str()).collect();
            assert_eq!(keys, ["A", "B", "C"]);
        }
        other => panic!("expected the end, got {other:?}"),
    }
}

#[test]
fn an_empty_link_ends_the_fetch() {
    let source = source();
    let page = KeyValuePage { items: vec![], next_link: Some(String::new()) };
    assert!(matches!(
        source.fetch_all(source.begin_fetch(), FetchReply::Page(page)),
        Ok(FetchStep::Done(items)) if items.is_empty()
    ));
}

#[test]
fn a_refused_or_unreadable_page_is_an_error_with_the_detail() {
    let source = source();
    let refused = FetchReply::Refused {
        status: "403 Forbidden".to_string(),
        body: "  no access \n".to_string(),
    };
    assert_eq!(
        message(source.fetch_all(source.begin_fetch(), refused)),
        "App Configuration returned 403 Forbidden: no access"
    );
    let unreadable = FetchReply::Unreadable("EOF".to_string());
    assert_eq!(
        message(source.fetch_all(source.begin_fetch(), unreadable)),
        "App Configuration response was not valid JSON: EOF"
    );
}

#[test]
fn references_are_replaced_by_their_secrets_one_after_another() {
    let source = source().with_key_vault_resolution();
    let items = vec![
        item("plain", Some("stays"), None),
        item("one", Some("{}"), Some(REFERENCE)),
        item("empty", None, Some(REFERENCE)),
        item("two", Some("{}"), Some(REFERENCE)),
    ];
    let items = match source.resolve_references(items) {
        Ok(ResolveStep::Token(items)) => items,
        other => panic!("got {other:?}"),
    };
    let (items, index) = match resolve_token(items, Ok(())) {
        Ok(ResolveStep::Secret { items, index }) => (items, index),
        other => panic!("got {other:?}"),
    };
    assert_eq!(index, 1);
    let (items, index) = match resolve_secret(items, index, SecretReply::Secret("s1".to_string())) {
        Ok(ResolveStep::Secret { items, index }) => (items, index),
        other => panic!("got {other:?}"),
    };
    assert_eq!(index, 3, "a reference without a value is passed over");
    let items = match resolve_secret(items, index, SecretReply::Secret("s2".to_string())) {
        Ok(ResolveStep::Done(items)) => items,
        other => panic!("got {other:?}"),
    };
    let values: Vec<Option<&str>> = items.iter().map(|i| i.value.as_deref()).collect();
    assert_eq!(values, [Some("stays"), Some("s1"), None, Some("s2")]);
    let tree = source.load(&items).expect("nothing clashes");
    assert_eq!(tree.get("two").and_then(|v| v.as_str()), Some("s2"));
}

#[test]
fn a_token_that_cannot_be_acquired_names_its_scope() {
    let items = vec![item("one", Some("{}"), Some(REFERENCE))];
    assert_eq!(
        message(resolve_token(items, Err("denied".to_string()))),
        "could not acquire an Entra ID token for https://vault.azure.net/.default: denied"
    );
    assert_eq!(
        message::<()>(Err(token_error("https://azconfig.io/.default", "denied"))),
        "could not acquire an Entra ID token for https://azconfig.io/.default: denied"
    );
}

#[test]
fn a_secret_that_cannot_be_read_names_the_key() {
    let one = || vec![item("Db:\"Pw\"", Some("{}"), Some(REFERENCE))];
    let uri = "https://v.vault.azure.net/secrets/pw".to_string();
    let failed = SecretReply::Failed { uri: uri.clone(), error: "timeout".to_string() };
    assert_eq!(
        message(resolve_secret(one(), 0, failed)),
        "Key Vault request for \"Db:\\\"Pw\\\"\" (https://v.vault.azure.net/secrets/pw) failed: timeout"
    );
    let refused = SecretReply::Refused {
        uri,
        status: "404 Not Found".to_string(),
        body: " gone ".to_string(),
    };
    assert_eq!(
        message(resolve_secret(one(), 0, refused)),
        "Key Vault returned 404 Not Found for \"Db:\\\"Pw\\\"\" (https://v.vault.azure.net/secrets/pw): gone"
    );
    assert_eq!(
        message(resolve_secret(one(), 0, SecretReply::Unreadable("EOF".to_string()))),
        "Key Vault response for \"Db:\\\"Pw\\\"\" was not a secret: EOF"
    );
}

#[test]
fn a_secret_url_carries_the_version_of_the_interface() {
    assert_eq!(
        secret_url("https://v.vault.azure.net/secrets/pw"),
        "https://v.vault.azure.net/secrets/pw?api-version=7.4"
    );
    assert_eq!(
        secret_url("https://v.vault.azure.net/secrets/pw?x=1"),
        "https://v.vault.azure.net/secrets/pw?x=1&api-version=7.4"
    );
}

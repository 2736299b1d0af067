//! Azure App Configuration source.
//!
//! Reads key-values from an App Configuration store over its REST API,
//! authenticating with an Entra ID token. The requests are made by the caller: each
//! function here takes what a request gave and says what to do next.

use vstd::prelude::*;

use crate::config::error::Error;
use crate::config::source::flat::{self, expand, flat_insert};
use crate::config::source::Source;
use crate::config::value::{self, ConfigValue, Json};
use crate::text::{
    self, contains_char, hex_char, quote, replace_all, starts_with, to_lowercase, trim, trim_end_char,
};

verus! {

broadcast use vstd::string::group_string_axioms;

/// Scope requested for the App Configuration data plane.
pub const SCOPE: &'static str = "https://azconfig.io/.default";

/// REST API version. Pinned deliberately: a floating version would change the
/// response shape underneath a released crate.
pub const API_VERSION: &'static str = "1.0";

/// Separator App Configuration conventionally uses for hierarchy (`Database:Host`).
pub const DEFAULT_SEPARATOR: &'static str = ":";

/// The content type App Configuration stamps on a Key Vault reference. Matched as a
/// prefix because the store appends `;charset=utf-8`.
pub const KEY_VAULT_REF_CONTENT_TYPE: &'static str =
    "application/vnd.microsoft.appconfig.keyvaultref+json";

/// Scope requested for the Key Vault data plane.
pub const KEY_VAULT_SCOPE: &'static str = "https://vault.azure.net/.default";

/// Key Vault REST API version for secret reads, pinned like [`API_VERSION`].
pub const KEY_VAULT_API_VERSION: &'static str = "7.4";

/// One key-value as returned by the App Configuration API.
#[derive(Debug)]
pub struct KeyValue {
    /// The key.
    pub key: String,
    /// Absent for a key with no value, which the API permits.
    pub value: Option<String>,
    /// Distinguishes a plain value from a Key Vault reference.
    pub content_type: Option<String>,
}

/// A page of key-values, with an optional link to the next.
#[derive(Debug)]
pub struct KeyValuePage {
    /// The key-values of this page.
    pub items: Vec<KeyValue>,
    /// The continuation link.
    pub next_link: Option<String>,
}

/// What a [`KeyValue`] stands for.
#[verifier::ext_equal]
pub struct Item {
    /// The key.
    pub key: Seq<char>,
    /// The value, where there is one.
    pub value: Option<Seq<char>>,
    /// The content type, where there is one.
    pub content_type: Option<Seq<char>>,
}

impl KeyValue {
    /// What this key-value stands for.
    pub open spec fn view(&self) -> Item {
        Item {
            key: self.key@,
            value: text::view_opt(self.value),
            content_type: text::view_opt(self.content_type),
        }
    }
}

/// What each key-value stands for.
pub open spec fn items_view(items: Seq<KeyValue>) -> Seq<Item> {
    items.map_values(|kv: KeyValue| kv@)
}

/// Whether a content type is that of a Key Vault reference.
pub open spec fn is_reference(content_type: Option<Seq<char>>) -> bool {
    content_type is Some && KEY_VAULT_REF_CONTENT_TYPE@.is_prefix_of(content_type->0)
}

/// Whether an item is a Key Vault reference rather than a plain value.
pub fn is_key_vault_ref(content_type: Option<&str>) -> (r: bool)
    ensures
        r == is_reference(match content_type {
            Some(ct) => Some(ct@),
            None => None,
        }),
{
    match content_type {
        Some(ct) => starts_with(ct, KEY_VAULT_REF_CONTENT_TYPE),
        None => false,
    }
}

/// Whether a byte stands for itself in a query: an ASCII letter or digit, or one of
/// `-_.~`.
pub open spec fn is_unreserved(byte: u8) -> bool {
    ||| 0x41 <= byte <= 0x5A
    ||| 0x61 <= byte <= 0x7A
    ||| 0x30 <= byte <= 0x39
    ||| byte == 0x2D
    ||| byte == 0x5F
    ||| byte == 0x2E
    ||| byte == 0x7E
}

/// The percent-encoded form of one byte: itself where it is unreserved, and otherwise its
/// value in two hexadecimal digits behind a percent sign.
pub open spec fn encoded_byte(byte: u8) -> Seq<char> {
    if is_unreserved(byte) {
        seq![byte as char]
    } else {
        seq!['%', text::hex_digit((byte / 16) as u8), text::hex_digit((byte % 16) as u8)]
    }
}

/// The percent-encoded form of some bytes.
pub open spec fn percent_encoded(bytes: Seq<u8>) -> Seq<char>
    decreases bytes.len(),
{
    if bytes.len() == 0 {
        Seq::empty()
    } else {
        let byte = bytes.last();
        percent_encoded(bytes.drop_last()) + encoded_byte(byte)
    }
}

/// Percent-encode the characters that can appear in a label and break a query.
pub fn urlencode(value: &str) -> (out: String)
    ensures
        out@ == percent_encoded(vstd::utf8::encode_utf8(value@)),
{
    let bytes: &[u8] = value.as_bytes();
    let mut out: String = String::new();
    let mut i: usize = 0;
    while i < bytes.len()
        invariant
            i <= bytes@.len(),
            out@ == percent_encoded(bytes@.take(i as int)),
        decreases bytes.len() - i,
    {
        let byte: u8 = bytes[i];
        let ghost before = out@;
        if (0x41 <= byte && byte <= 0x5A) || (0x61 <= byte && byte <= 0x7A) || (0x30 <= byte && byte
            <= 0x39) || byte == 0x2D || byte == 0x5F || byte == 0x2E || byte == 0x7E {
            out.push(byte as char);
            proof {
                assert(out@ =~= before + seq![byte as char]);
            }
        } else {
            out.push('%');
            out.push(hex_char(byte / 16));
            out.push(hex_char(byte % 16));
            proof {
                assert(out@ =~= before + seq![
                    '%',
                    text::hex_digit((byte / 16) as u8),
                    text::hex_digit((byte % 16) as u8),
                ]);
            }
        }
        proof {
            assert(bytes@.take(i + 1).drop_last() =~= bytes@.take(i as int));
        }
        i = i + 1;
    }
    proof {
        assert(bytes@.take(i as int) =~= bytes@);
    }
    out
}

/// Encoding takes the bytes one after another, so a first byte comes out first.
proof fn lemma_encoded_front(byte: u8, rest: Seq<u8>)
    ensures
        percent_encoded(seq![byte] + rest) == encoded_byte(byte) + percent_encoded(rest),
    decreases rest.len(),
{
    let all = seq![byte] + rest;
    if rest.len() == 0 {
        assert(all.drop_last() =~= Seq::<u8>::empty());
        assert(all.last() == byte);
        assert(percent_encoded(all.drop_last()) =~= Seq::<char>::empty());
        assert(percent_encoded(all) =~= encoded_byte(byte) + percent_encoded(rest));
    } else {
        lemma_encoded_front(byte, rest.drop_last());
        assert(all.drop_last() =~= seq![byte] + rest.drop_last());
        assert(all.last() == rest.last());
        assert(percent_encoded(all) =~= encoded_byte(byte) + percent_encoded(rest));
    }
}

/// No two bytes have encodings of which one begins the other.
proof fn lemma_encoded_byte(a: u8, b: u8, s: Seq<char>, t: Seq<char>)
    requires
        encoded_byte(a) + s == encoded_byte(b) + t,
    ensures
        a == b,
        s == t,
{
    let left = encoded_byte(a) + s;
    let right = encoded_byte(b) + t;
    assert(left[0] == encoded_byte(a)[0] && right[0] == encoded_byte(b)[0]);
    if is_unreserved(a) && is_unreserved(b) {
        assert(a as char == b as char);
    } else if !is_unreserved(a) && !is_unreserved(b) {
        assert(left[1] == encoded_byte(a)[1] && right[1] == encoded_byte(b)[1]);
        assert(left[2] == encoded_byte(a)[2] && right[2] == encoded_byte(b)[2]);
        assert(a / 16 == b / 16);
        assert(a % 16 == b % 16);
    }
    assert(left.skip(encoded_byte(a).len() as int) =~= s);
    assert(right.skip(encoded_byte(b).len() as int) =~= t);
}

/// An encoded label cannot break a query: it holds nothing but unreserved characters and
/// percent signs.
pub proof fn law_encoding_is_safe(bytes: Seq<u8>, i: int)
    requires
        0 <= i < percent_encoded(bytes).len(),
    ensures
        percent_encoded(bytes)[i] == '%' || exists|byte: u8|
            is_unreserved(byte) && percent_encoded(bytes)[i] == #[trigger] (byte as char),
    decreases bytes.len(),
{
    if bytes.len() > 0 {
        let before = percent_encoded(bytes.drop_last());
        let byte = bytes.last();
        if i < before.len() {
            law_encoding_is_safe(bytes.drop_last(), i);
        } else {
            let c = encoded_byte(byte)[i - before.len()];
            assert(percent_encoded(bytes)[i] == c);
            if !is_unreserved(byte) && i > before.len() {
                let digit = c as u8;
                assert(is_unreserved(digit));
                assert(c == digit as char);
            }
        }
    }
}

/// Encoding loses nothing: two byte strings with one encoding are the same.
pub proof fn law_encoding_is_injective(a: Seq<u8>, b: Seq<u8>)
    requires
        percent_encoded(a) == percent_encoded(b),
    ensures
        a == b,
    decreases a.len(),
{
    if a.len() > 0 {
        assert(a =~= seq![a[0]] + a.skip(1));
        lemma_encoded_front(a[0], a.skip(1));
    }
    if b.len() > 0 {
        assert(b =~= seq![b[0]] + b.skip(1));
        lemma_encoded_front(b[0], b.skip(1));
    }
    if a.len() > 0 && b.len() > 0 {
        lemma_encoded_byte(
            a[0],
            b[0],
            percent_encoded(a.skip(1)),
            percent_encoded(b.skip(1)),
        );
        law_encoding_is_injective(a.skip(1), b.skip(1));
    } else if a.len() > 0 {
        assert(percent_encoded(a).len() > 0);
        assert(percent_encoded(b).len() == 0);
    } else if b.len() > 0 {
        assert(percent_encoded(b).len() > 0);
        assert(percent_encoded(a).len() == 0);
    }
}

/// Azure App Configuration source.
///
/// Fetches every key-value in the store, optionally filtered to one label, and maps
/// the keys into nested configuration: `Database:Host` becomes
/// `{"database": {"host": ...}}`.
#[derive(Debug)]
pub struct AzureAppConfigSource {
    endpoint: String,
    label: Option<String>,
    separator: String,
    priority: u32,
    resolve_key_vault: bool,
}

/// The URL of the first page of a store's key-values.
pub open spec fn first_url(endpoint: Seq<char>, label: Option<Seq<char>>) -> Seq<char> {
    let base = endpoint + "/kv?api-version="@ + API_VERSION@;
    match label {
        Some(label) => base + "&label="@ + percent_encoded(vstd::utf8::encode_utf8(label)),
        None => base,
    }
}

/// The URL of the page a continuation link leads to: the link itself where it is
/// absolute, otherwise relative to the store. An absent or empty link leads nowhere.
pub open spec fn next_url(endpoint: Seq<char>, link: Option<Seq<char>>) -> Option<Seq<char>> {
    match link {
        Some(link) => if link.len() == 0 {
            None
        } else if "http"@.is_prefix_of(link) {
            Some(link)
        } else {
            Some(endpoint + link)
        },
        None => None,
    }
}

/// The URL at which a secret is read: its URI with the API version in the query.
pub open spec fn secret_url_of(uri: Seq<char>) -> Seq<char> {
    uri + (if uri.contains('?') {
        "&"@
    } else {
        "?"@
    }) + "api-version="@ + KEY_VAULT_API_VERSION@
}

/// What requesting a page gave.
#[derive(Debug)]
pub enum FetchReply {
    /// The request failed, with a message.
    Failed(String),
    /// The store answered with a status other than success.
    Refused {
        /// The status.
        status: String,
        /// The body, which often carries the actionable detail.
        body: String,
    },
    /// The body was not a page, with the parser's message.
    Unreadable(String),
    /// A page.
    Page(KeyValuePage),
}

/// A fetch under way: the page to request next, and what has been collected.
#[derive(Debug)]
pub struct Fetch {
    url: String,
    collected: Vec<KeyValue>,
}

impl Fetch {
    /// The URL to request.
    pub closed spec fn target(&self) -> Seq<char> {
        self.url@
    }

    /// What has been collected.
    pub closed spec fn items(&self) -> Seq<KeyValue> {
        self.collected@
    }

    /// The URL to request.
    pub fn url(&self) -> (url: &str)
        ensures
            url@ == self.target(),
    {
        self.url.as_str()
    }
}

/// What to do after a reply to a page request.
#[derive(Debug)]
pub enum FetchStep {
    /// Request another page.
    Request(Fetch),
    /// Every page has been fetched.
    Done(Vec<KeyValue>),
}

/// What to do to resolve the Key Vault references among the items.
#[derive(Debug)]
pub enum ResolveStep {
    /// Nothing is left to resolve.
    Done(Vec<KeyValue>),
    /// Acquire a token for [`KEY_VAULT_SCOPE`]. One covers every reference: the
    /// scope is the data plane, not a single vault.
    Token(Vec<KeyValue>),
    /// Read the secret that the reference at `index` points at.
    Secret {
        /// The items.
        items: Vec<KeyValue>,
        /// The position of the reference.
        index: usize,
    },
}

/// What reading a referenced secret gave.
#[derive(Debug)]
pub enum SecretReply {
    /// The value of the reference was not an envelope, with the parser's message.
    BadEnvelope(String),
    /// The request failed, with a message.
    Failed {
        /// The secret's URI.
        uri: String,
        /// The message.
        error: String,
    },
    /// The vault answered with a status other than success.
    Refused {
        /// The secret's URI.
        uri: String,
        /// The status.
        status: String,
        /// The body, which carries the actionable detail.
        body: String,
    },
    /// The body was not a secret, with the parser's message.
    Unreadable(String),
    /// The secret.
    Secret(String),
}

/// The message for a reply that is not a secret.
pub open spec fn secret_failure(key: Seq<char>, reply: SecretReply) -> Option<Seq<char>> {
    match reply {
        SecretReply::BadEnvelope(e) => Some(
            "App Configuration key "@ + text::quoted(key)
                + " is a Key Vault reference with an unreadable envelope: "@ + e@,
        ),
        SecretReply::Failed { uri, error } => Some(
            "Key Vault request for "@ + text::quoted(key) + " ("@ + uri@ + ") failed: "@ + error@,
        ),
        SecretReply::Refused { uri, status, body } => Some(
            "Key Vault returned "@ + status@ + " for "@ + text::quoted(key) + " ("@ + uri@ + "): "@
                + text::trimmed(body@),
        ),
        SecretReply::Unreadable(e) => Some(
            "Key Vault response for "@ + text::quoted(key) + " was not a secret: "@ + e@,
        ),
        SecretReply::Secret(_) => None,
    }
}

/// The message for a reference met while resolution is off.
pub open spec fn unresolved_message(key: Seq<char>) -> Seq<char> {
    "App Configuration key "@ + text::quoted(key)
        + " is a Key Vault reference, and resolution is not enabled on this source; call with_key_vault_resolution() to resolve references, or store the value directly"@
}

/// The message for a token that could not be acquired.
pub open spec fn token_message(scope: Seq<char>, e: Seq<char>) -> Seq<char> {
    "could not acquire an Entra ID token for "@ + scope + ": "@ + e
}

/// The first reference at or after `from`, or the number of items.
pub open spec fn reference_from(items: Seq<Item>, from: int) -> int
    decreases items.len() - from,
{
    if from >= items.len() {
        items.len() as int
    } else if is_reference(items[from].content_type) {
        from
    } else {
        reference_from(items, from + 1)
    }
}

/// Whether an item has a secret to be read: a reference that has a value.
pub open spec fn is_pending(item: Item) -> bool {
    is_reference(item.content_type) && item.value is Some
}

/// The first item at or after `from` that has a secret to be read, or the number of
/// items.
pub open spec fn pending_from(items: Seq<Item>, from: int) -> int
    decreases items.len() - from,
{
    if from >= items.len() {
        items.len() as int
    } else if is_pending(items[from]) {
        from
    } else {
        pending_from(items, from + 1)
    }
}

/// The flat key of an item: its key in lower case, with a dot for each separator.
pub open spec fn flat_key(key: Seq<char>, separator: Seq<char>) -> Seq<char> {
    text::replaced(text::lowercase(key), separator, "."@)
}

/// The flat form of the items: those with a value, by flat key. The later of two with
/// the same key counts.
pub open spec fn flat_items(items: Seq<Item>, separator: Seq<char>) -> Map<Seq<char>, Seq<char>>
    decreases items.len(),
{
    if items.len() == 0 {
        Map::empty()
    } else {
        let before = flat_items(items.drop_last(), separator);
        match items.last().value {
            Some(value) => before.insert(flat_key(items.last().key, separator), value),
            None => before,
        }
    }
}

impl AzureAppConfigSource {
    /// The store's URL, without a trailing slash.
    pub closed spec fn store(&self) -> Seq<char> {
        self.endpoint@
    }

    /// The label the fetch is restricted to, where it is.
    pub closed spec fn label_filter(&self) -> Option<Seq<char>> {
        text::view_opt(self.label)
    }

    /// The hierarchy separator.
    pub closed spec fn delimiter(&self) -> Seq<char> {
        self.separator@
    }

    /// Whether Key Vault references are resolved.
    pub closed spec fn resolves(&self) -> bool {
        self.resolve_key_vault
    }

    /// Create a source for an App Configuration store.
    ///
    /// `endpoint` is the store URL. A trailing slash is accepted and normalised
    /// away. `priority` follows the crate convention: lower numbers win.
    pub fn new(endpoint: &str, priority: u32) -> (source: AzureAppConfigSource)
        ensures
            source.store() == text::without_trailing(endpoint@, '/'),
            source.label_filter() is None,
            source.delimiter() == DEFAULT_SEPARATOR@,
            source.rank() == priority,
            !source.resolves(),
    {
        AzureAppConfigSource {
            endpoint: trim_end_char(endpoint, '/'),
            label: None,
            separator: DEFAULT_SEPARATOR.to_owned(),
            priority,
            resolve_key_vault: false,
        }
    }

    /// Resolve Key Vault references into the secrets they point at.
    ///
    /// Off by default, deliberately: resolving widens this source's reach from one
    /// store to every vault the references name. With it off, *encountering* a
    /// reference is an error naming the key.
    pub fn with_key_vault_resolution(self) -> (source: AzureAppConfigSource)
        ensures
            source.resolves(),
            source.store() == self.store(),
            source.label_filter() == self.label_filter(),
            source.delimiter() == self.delimiter(),
            source.rank() == self.rank(),
    {
        let mut source: AzureAppConfigSource = self;
        source.resolve_key_vault = true;
        source
    }

    /// Restrict the fetch to a single label, such as an environment name.
    pub fn with_label(self, label: &str) -> (source: AzureAppConfigSource)
        ensures
            source.label_filter() == Some(label@),
            source.store() == self.store(),
            source.delimiter() == self.delimiter(),
            source.resolves() == self.resolves(),
            source.rank() == self.rank(),
    {
        let mut source: AzureAppConfigSource = self;
        source.label = Some(label.to_owned());
        source
    }

    /// Override the hierarchy separator. Defaults to `:`.
    pub fn with_separator(self, separator: &str) -> (source: AzureAppConfigSource)
        ensures
            source.delimiter() == separator@,
            source.store() == self.store(),
            source.label_filter() == self.label_filter(),
            source.resolves() == self.resolves(),
            source.rank() == self.rank(),
    {
        let mut source: AzureAppConfigSource = self;
        source.separator = separator.to_owned();
        source
    }

    /// The store's URL.
    pub fn endpoint(&self) -> (endpoint: &str)
        ensures
            endpoint@ == self.store(),
    {
        self.endpoint.as_str()
    }

    /// The URL for the first page of key-values.
    pub fn first_page_url(&self) -> (url: String)
        ensures
            url@ == first_url(self.store(), self.label_filter()),
    {
        let mut url: String = self.endpoint.clone();
        url.append("/kv?api-version=");
        url.append(API_VERSION);
        match &self.label {
            Some(label) => {
                url.append("&label=");
                url.append(urlencode(label.as_str()).as_str());
            },
            None => {},
        }
        url
    }

    /// Start fetching every page.
    pub fn begin_fetch(&self) -> (fetch: Fetch)
        ensures
            fetch.target() == first_url(self.store(), self.label_filter()),
            fetch.items() == Seq::<KeyValue>::empty(),
    {
        Fetch { url: self.first_page_url(), collected: Vec::new() }
    }

    /// Take in the reply to the request for a page: fail, collect the page and follow
    /// its link, or finish with everything collected.
    pub fn fetch_all(&self, fetch: Fetch, reply: FetchReply) -> (step: Result<FetchStep, Error>)
        ensures
            match reply {
                FetchReply::Failed(e) => step matches Err(Error::Other(message)) && message@
                    == "App Configuration request failed: "@ + e@,
                FetchReply::Refused { status, body } => step matches Err(Error::Other(message))
                    && message@ == "App Configuration returned "@ + status@ + ": "@ + text::trimmed(
                    body@,
                ),
                FetchReply::Unreadable(e) => step matches Err(Error::Other(message)) && message@
                    == "App Configuration response was not valid JSON: "@ + e@,
                FetchReply::Page(page) => match next_url(
                    self.store(),
                    text::view_opt(page.next_link),
                ) {
                    Some(url) => step matches Ok(FetchStep::Request(next)) && next.target() == url
                        && next.items() == fetch.items() + page.items@,
                    None => step matches Ok(FetchStep::Done(items)) && items@ == fetch.items()
                        + page.items@,
                },
            },
    {
        match reply {
            FetchReply::Failed(e) => Err(
                Error::Other("App Configuration request failed: ".to_owned().concat(e.as_str())),
            ),
            FetchReply::Refused { status, body } => {
                let mut message: String = "App Configuration returned ".to_owned();
                message.append(status.as_str());
                message.append(": ");
                message.append(trim(body.as_str()).as_str());
                Err(Error::Other(message))
            },
            FetchReply::Unreadable(e) => Err(
                Error::Other(
                    "App Configuration response was not valid JSON: ".to_owned().concat(
                        e.as_str(),
                    ),
                ),
            ),
            FetchReply::Page(page) => {
                let mut collected: Vec<KeyValue> = fetch.collected;
                let mut items: Vec<KeyValue> = page.items;
                collected.append(&mut items);
                match page.next_link {
                    Some(link) => {
                        if link.as_str().is_empty() {
                            Ok(FetchStep::Done(collected))
                        } else if starts_with(link.as_str(), "http") {
                            Ok(FetchStep::Request(Fetch { url: link, collected }))
                        } else {
                            let url: String = self.endpoint.clone().concat(link.as_str());
                            Ok(FetchStep::Request(Fetch { url, collected }))
                        }
                    },
                    None => Ok(FetchStep::Done(collected)),
                }
            },
        }
    }

    /// What to do about the Key Vault references among `items`: nothing where there
    /// are none, reject the first where resolution is off, and otherwise acquire a
    /// token.
    pub fn resolve_references(&self, items: Vec<KeyValue>) -> (step: Result<ResolveStep, Error>)
        ensures
            ({
                let first = reference_from(items_view(items@), 0);
                if first == items@.len() {
                    step == Ok::<ResolveStep, Error>(ResolveStep::Done(items))
                } else if !self.resolves() {
                    step matches Err(Error::Other(message)) && message@ == unresolved_message(
                        items@[first].key@,
                    )
                } else {
                    step == Ok::<ResolveStep, Error>(ResolveStep::Token(items))
                }
            }),
    {
        let mut i: usize = 0;
        while i < items.len()
            invariant
                i <= items@.len(),
                reference_from(items_view(items@), 0) == reference_from(
                    items_view(items@),
                    i as int,
                ),
            decreases items.len() - i,
        {
            proof {
                assert(items_view(items@)[i as int] == items@[i as int]@);
            }
            if is_key_vault_ref(as_str_opt(&items[i].content_type)) {
                if self.resolve_key_vault {
                    return Ok(ResolveStep::Token(items));
                }
                let mut message: String = "App Configuration key ".to_owned();
                message.append(quote(items[i].key.as_str()).as_str());
                message.append(
                    " is a Key Vault reference, and resolution is not enabled on this source; call with_key_vault_resolution() to resolve references, or store the value directly",
                );
                return Err(Error::Other(message));
            }
            i = i + 1;
        }
        Ok(ResolveStep::Done(items))
    }

    /// Convert fetched key-values into flat, dot-delimited form.
    pub fn to_flat(&self, items: &Vec<KeyValue>) -> (pairs: Vec<(String, String)>)
        ensures
            flat::distinct(pairs@),
            flat::flat_of(pairs@) == flat_items(items_view(items@), self.delimiter()),
    {
        let mut pairs: Vec<(String, String)> = Vec::new();
        let mut i: usize = 0;
        let ghost all = items_view(items@);
        while i < items.len()
            invariant
                i <= items@.len(),
                all == items_view(items@),
                flat::distinct(pairs@),
                flat::flat_of(pairs@) == flat_items(all.take(i as int), self.delimiter()),
            decreases items.len() - i,
        {
            proof {
                assert(all.take(i + 1).drop_last() =~= all.take(i as int));
                assert(all[i as int] == items@[i as int]@);
            }
            match &items[i].value {
                Some(value) => {
                    let lower: String = to_lowercase(items[i].key.as_str());
                    let key: String = replace_all(lower.as_str(), self.separator.as_str(), ".");
                    flat_insert(&mut pairs, key, value.clone());
                },
                None => {},
            }
            i = i + 1;
        }
        proof {
            assert(all.take(i as int) =~= all);
        }
        pairs
    }

    /// The configuration of the fetched and resolved key-values.
    pub fn load(&self, items: &Vec<KeyValue>) -> (tree: Result<ConfigValue, Error>)
        ensures
            flat::expands(flat_items(items_view(items@), self.delimiter()), tree),
    {
        expand(&self.to_flat(items))
    }
}

/// An item with a value, whose flat key no later one takes, is in the flat form with its
/// value.
proof fn lemma_flat_item(items: Seq<Item>, separator: Seq<char>, i: int)
    requires
        0 <= i < items.len(),
        items[i].value is Some,
        forall|j: int|
            i < j < items.len() && (#[trigger] items[j]).value is Some ==> flat_key(
                items[j].key,
                separator,
            ) != flat_key(items[i].key, separator),
    ensures
        flat_items(items, separator).dom().contains(flat_key(items[i].key, separator)),
        flat_items(items, separator)[flat_key(items[i].key, separator)] == items[i].value->0,
    decreases items.len(),
{
    let shorter = items.drop_last();
    if i < items.len() - 1 {
        assert(shorter[i] == items[i]);
        assert forall|j: int|
            i < j < shorter.len() && (#[trigger] shorter[j]).value is Some implies flat_key(
            shorter[j].key,
            separator,
        ) != flat_key(shorter[i].key, separator) by {
            assert(shorter[j] == items[j]);
        }
        lemma_flat_item(shorter, separator, i);
        let last = items[items.len() - 1];
        assert(last.value is Some ==> flat_key(last.key, separator) != flat_key(
            items[i].key,
            separator,
        ));
    }
}

/// A fetched item is read under its key: where loading succeeds, its value stands at the
/// path the key spells, unless a later item takes the same key. With separator `:`,
/// `Database:Host` is `host` inside `database`.
pub proof fn law_item_is_found(
    items: Seq<Item>,
    separator: Seq<char>,
    i: int,
    root: ConfigValue,
)
    requires
        0 <= i < items.len(),
        items[i].value is Some,
        forall|j: int|
            i < j < items.len() && (#[trigger] items[j]).value is Some ==> flat_key(
                items[j].key,
                separator,
            ) != flat_key(items[i].key, separator),
        flat::expands(flat_items(items, separator), Ok::<ConfigValue, Error>(root)),
    ensures
        value::lookup(root@, flat::path_of(flat_key(items[i].key, separator))) == Some(
            Json::Text(items[i].value->0),
        ),
{
    lemma_flat_item(items, separator, i);
    flat::law_expanded_key_is_found(
        flat_items(items, separator),
        root,
        flat_key(items[i].key, separator),
    );
}

impl Source for AzureAppConfigSource {
    closed spec fn rank(&self) -> u32 {
        self.priority
    }

    open spec fn label(&self) -> Seq<char> {
        "azure_app_config"@
    }

    fn name(&self) -> (name: &str) {
        "azure_app_config"
    }

    fn priority(&self) -> (priority: u32) {
        self.priority
    }
}

/// A text that may be absent, borrowed.
fn as_str_opt(s: &Option<String>) -> (borrowed: Option<&str>)
    ensures
        match borrowed {
            Some(b) => text::view_opt(*s) == Some(b@),
            None => text::view_opt(*s) is None,
        },
{
    match s {
        Some(text) => Some(text.as_str()),
        None => None,
    }
}

/// The error for a token of `scope` that could not be acquired.
pub fn token_error(scope: &str, e: &str) -> (error: Error)
    ensures
        error matches Error::Other(message) && message@ == token_message(scope@, e@),
{
    let mut message: String = "could not acquire an Entra ID token for ".to_owned();
    message.append(scope);
    message.append(": ");
    message.append(e);
    Error::Other(message)
}

/// The URL at which the secret with the URI `uri` is read.
pub fn secret_url(uri: &str) -> (url: String)
    ensures
        url@ == secret_url_of(uri@),
{
    let mut url: String = uri.to_owned();
    if contains_char(uri, '?') {
        url.append("&");
    } else {
        url.append("?");
    }
    url.append("api-version=");
    url.append(KEY_VAULT_API_VERSION);
    url
}

/// The request for a secret.
#[derive(Debug)]
pub struct SecretRequest {
    /// The secret's URI, which the failures name.
    pub uri: String,
    /// The URL to request.
    pub url: String,
}

/// What to request for a Key Vault reference, given the URI that deserialising its value
/// gave, or the parser's message. A reference that cannot be read is answered without a
/// request.
pub fn secret_request(envelope: Result<String, String>) -> (request: Result<
    SecretRequest,
    SecretReply,
>)
    ensures
        match envelope {
            Ok(uri) => request matches Ok(r) && r.uri@ == uri@ && r.url@ == secret_url_of(uri@),
            Err(e) => request == Err::<SecretRequest, SecretReply>(SecretReply::BadEnvelope(e)),
        },
{
    match envelope {
        Ok(uri) => {
            let url: String = secret_url(uri.as_str());
            Ok(SecretRequest { uri, url })
        },
        Err(e) => Err(SecretReply::BadEnvelope(e)),
    }
}

/// Whether `step` is the one for `items` when those before `from` are done: read
/// the next secret, or finish.
pub open spec fn continues(items: Seq<Item>, from: int, step: ResolveStep) -> bool {
    let next = pending_from(items, from);
    if next == items.len() {
        step matches ResolveStep::Done(done) && items_view(done@) == items
    } else {
        step matches ResolveStep::Secret { items: pending, index } && items_view(pending@) == items
            && index == next
    }
}

/// The step for `items` when those before `from` are done.
fn next_secret(items: Vec<KeyValue>, from: usize) -> (step: ResolveStep)
    ensures
        continues(items_view(items@), from as int, step),
{
    let ghost all = items_view(items@);
    let mut i: usize = from;
    while i < items.len()
        invariant
            from <= i,
            all == items_view(items@),
            pending_from(all, from as int) == pending_from(all, i as int),
        decreases items.len() - i,
    {
        proof {
            assert(all[i as int] == items@[i as int]@);
        }
        if is_key_vault_ref(as_str_opt(&items[i].content_type)) && items[i].value.is_some() {
            return ResolveStep::Secret { items, index: i };
        }
        i = i + 1;
    }
    ResolveStep::Done(items)
}

/// Take in the outcome of acquiring the vault token.
pub fn resolve_token(
    items: Vec<KeyValue>,
    token: Result<(), String>,
) -> (step: Result<ResolveStep, Error>)
    ensures
        match token {
            Ok(_) => step is Ok && continues(items_view(items@), 0, step->Ok_0),
            Err(e) => step matches Err(Error::Other(message)) && message@ == token_message(
                KEY_VAULT_SCOPE@,
                e@,
            ),
        },
{
    match token {
        Ok(_) => Ok(next_secret(items, 0)),
        Err(e) => Err(token_error(KEY_VAULT_SCOPE, e.as_str())),
    }
}

/// An item with the secret in place of its envelope.
pub open spec fn with_secret(item: Item, secret: Seq<char>) -> Item {
    Item { key: item.key, value: Some(secret), content_type: item.content_type }
}

/// Take in what reading the secret of the reference at `index` gave: put it in place
/// of the envelope and go on, or fail naming the key.
pub fn resolve_secret(
    items: Vec<KeyValue>,
    index: usize,
    reply: SecretReply,
) -> (step: Result<ResolveStep, Error>)
    requires
        index < items.len(),
    ensures
        match reply {
            SecretReply::Secret(secret) => step is Ok && continues(
                items_view(items@).update(
                    index as int,
                    with_secret(items@[index as int]@, secret@),
                ),
                index + 1,
                step->Ok_0,
            ),
            _ => step matches Err(Error::Other(message)) && secret_failure(
                items@[index as int].key@,
                reply,
            ) == Some(message@),
        },
{
    match reply {
        SecretReply::BadEnvelope(e) => {
            let mut message: String = "App Configuration key ".to_owned();
            message.append(quote(items[index].key.as_str()).as_str());
            message.append(" is a Key Vault reference with an unreadable envelope: ");
            message.append(e.as_str());
            Err(Error::Other(message))
        },
        SecretReply::Failed { uri, error } => {
            let mut message: String = "Key Vault request for ".to_owned();
            message.append(quote(items[index].key.as_str()).as_str());
            message.append(" (");
            message.append(uri.as_str());
            message.append(") failed: ");
            message.append(error.as_str());
            Err(Error::Other(message))
        },
        SecretReply::Refused { uri, status, body } => {
            let mut message: String = "Key Vault returned ".to_owned();
            message.append(status.as_str());
            message.append(" for ");
            message.append(quote(items[index].key.as_str()).as_str());
            message.append(" (");
            message.append(uri.as_str());
            message.append("): ");
            message.append(trim(body.as_str()).as_str());
            Err(Error::Other(message))
        },
        SecretReply::Unreadable(e) => {
            let mut message: String = "Key Vault response for ".to_owned();
            message.append(quote(items[index].key.as_str()).as_str());
            message.append(" was not a secret: ");
            message.append(e.as_str());
            Err(Error::Other(message))
        },
        SecretReply::Secret(secret) => {
            let mut resolved: Vec<KeyValue> = items;
            resolved[index].value = Some(secret);
            proof {
                assert(items_view(resolved@) =~= items_view(items@).update(
                    index as int,
                    with_secret(items@[index as int]@, secret@),
                ));
            }
            let next: usize = index + 1;
            Ok(next_secret(resolved, next))
        },
    }
}

/// What is collected when a fetch that has collected `so_far` is answered with these
/// pages one after another, where it is over then.
pub open spec fn fetched(
    endpoint: Seq<char>,
    so_far: Seq<KeyValue>,
    pages: Seq<KeyValuePage>,
) -> Option<Seq<KeyValue>>
    decreases pages.len(),
{
    if pages.len() == 0 {
        None
    } else {
        let collected = so_far + pages[0].items@;
        match next_url(endpoint, text::view_opt(pages[0].next_link)) {
            Some(_) => fetched(endpoint, collected, pages.skip(1)),
            None => Some(collected),
        }
    }
}

/// The items of all pages, in order.
pub open spec fn all_items(pages: Seq<KeyValuePage>) -> Seq<KeyValue>
    decreases pages.len(),
{
    if pages.len() == 0 {
        Seq::empty()
    } else {
        pages[0].items@ + all_items(pages.skip(1))
    }
}

/// [`law_every_page_is_collected`] with something collected already.
proof fn lemma_fetched(endpoint: Seq<char>, so_far: Seq<KeyValue>, pages: Seq<KeyValuePage>)
    requires
        pages.len() > 0,
        forall|i: int|
            0 <= i < pages.len() ==> (next_url(
                endpoint,
                text::view_opt((#[trigger] pages[i]).next_link),
            ) is Some <==> i < pages.len() - 1),
    ensures
        fetched(endpoint, so_far, pages) == Some(so_far + all_items(pages)),
    decreases pages.len(),
{
    let first = pages[0];
    let rest = pages.skip(1);
    let collected = so_far + first.items@;
    if rest.len() > 0 {
        assert forall|i: int| 0 <= i < rest.len() implies (next_url(
            endpoint,
            text::view_opt((#[trigger] rest[i]).next_link),
        ) is Some <==> i < rest.len() - 1) by {
            assert(rest[i] == pages[i + 1]);
        }
        lemma_fetched(endpoint, collected, rest);
        assert(collected + all_items(rest) =~= so_far + all_items(pages));
    } else {
        assert(all_items(rest) =~= Seq::<KeyValue>::empty());
        assert(collected =~= so_far + all_items(pages));
    }
}

/// Every page is fetched: where each page but the last links to another, the items
/// collected are those of all pages, in order.
pub proof fn law_every_page_is_collected(endpoint: Seq<char>, pages: Seq<KeyValuePage>)
    requires
        pages.len() > 0,
        forall|i: int|
            0 <= i < pages.len() ==> (next_url(
                endpoint,
                text::view_opt((#[trigger] pages[i]).next_link),
            ) is Some <==> i < pages.len() - 1),
    ensures
        fetched(endpoint, Seq::empty(), pages) == Some(all_items(pages)),
{
    lemma_fetched(endpoint, Seq::empty(), pages);
    assert(Seq::<KeyValue>::empty() + all_items(pages) =~= all_items(pages));
}

/// The items after the secrets have been put in place one after another, starting
/// with the item at `at`.
pub open spec fn resolved_run(items: Seq<Item>, at: int, secrets: Seq<Seq<char>>) -> Seq<Item>
    decreases secrets.len(),
{
    if secrets.len() == 0 || !(0 <= at < items.len()) {
        items
    } else {
        let updated = items.update(at, with_secret(items[at], secrets[0]));
        resolved_run(updated, pending_from(updated, at + 1), secrets.skip(1))
    }
}

/// How many of the items before `upto` have a secret to be read.
pub open spec fn pending_before(items: Seq<Item>, upto: int) -> int
    decreases upto,
{
    if upto <= 0 {
        0
    } else {
        pending_before(items, upto - 1) + if is_pending(items[upto - 1]) {
            1int
        } else {
            0int
        }
    }
}

proof fn lemma_pending_from(items: Seq<Item>, from: int)
    requires
        0 <= from <= items.len(),
    ensures
        from <= pending_from(items, from) <= items.len(),
        pending_from(items, from) < items.len() ==> is_pending(items[pending_from(items, from)]),
        forall|i: int| from <= i < pending_from(items, from) ==> !is_pending(#[trigger] items[i]),
        pending_before(items, pending_from(items, from)) == pending_before(items, from),
    decreases items.len() - from,
{
    if from < items.len() && !is_pending(items[from]) {
        lemma_pending_from(items, from + 1);
    }
}

proof fn lemma_pending_from_same(a: Seq<Item>, b: Seq<Item>, from: int)
    requires
        a.len() == b.len(),
        0 <= from,
        forall|i: int| from <= i < a.len() ==> a[i] == b[i],
    ensures
        pending_from(a, from) == pending_from(b, from),
    decreases a.len() - from,
{
    if from < a.len() {
        lemma_pending_from_same(a, b, from + 1);
    }
}

/// Resolution touches nothing but references and leaves no envelope behind: with a
/// secret for each reference that has a value, the run replaces the value of the
/// n-th such reference by the n-th secret, and every other item stays as it was.
pub proof fn law_resolution(items: Seq<Item>, secrets: Seq<Seq<char>>)
    requires
        secrets.len() == pending_before(items, items.len() as int),
    ensures
        ({
            let done = resolved_run(items, pending_from(items, 0), secrets);
            &&& done.len() == items.len()
            &&& forall|i: int|
                0 <= i < items.len() ==> #[trigger] done[i] == if is_pending(items[i]) {
                    with_secret(items[i], secrets[pending_before(items, i)])
                } else {
                    items[i]
                }
        }),
{
    lemma_pending_from(items, 0);
    lemma_resolution(items, items, pending_from(items, 0), secrets, 0);
}

/// The run from `at`, where `taken` secrets have been used and the items from `at` on
/// are those that were given.
proof fn lemma_resolution(
    given: Seq<Item>,
    items: Seq<Item>,
    at: int,
    secrets: Seq<Seq<char>>,
    taken: int,
)
    requires
        items.len() == given.len(),
        0 <= at <= items.len(),
        at == items.len() || is_pending(given[at]),
        forall|i: int| at <= i < items.len() ==> items[i] == given[i],
        taken == pending_before(given, at),
        secrets.len() == pending_before(given, given.len() as int) - taken,
    ensures
        ({
            let done = resolved_run(items, at, secrets);
            &&& done.len() == items.len()
            &&& forall|i: int| 0 <= i < at ==> #[trigger] done[i] == items[i]
            &&& forall|i: int|
                at <= i < items.len() ==> #[trigger] done[i] == if is_pending(given[i]) {
                    with_secret(given[i], secrets[pending_before(given, i) - taken])
                } else {
                    given[i]
                }
        }),
    decreases items.len() - at,
{
    if at < items.len() {
        lemma_pending_monotone(given, at + 1, given.len() as int);
        let updated = items.update(at, with_secret(items[at], secrets[0]));
        let next = pending_from(updated, at + 1);
        lemma_pending_from_same(updated, given, at + 1);
        lemma_pending_from(given, at + 1);
        let rest = secrets.skip(1);
        lemma_resolution(given, updated, next, rest, taken + 1);
        let done = resolved_run(items, at, secrets);
        assert forall|i: int| at <= i < items.len() implies #[trigger] done[i] == if is_pending(
            given[i],
        ) {
            with_secret(given[i], secrets[pending_before(given, i) - taken])
        } else {
            given[i]
        } by {
            if i >= next {
                lemma_pending_monotone(given, at + 1, i);
                lemma_pending_monotone(given, i, given.len() as int);
                if is_pending(given[i]) {
                    lemma_pending_monotone(given, i + 1, given.len() as int);
                    assert(rest[pending_before(given, i) - taken - 1] == secrets[pending_before(
                        given,
                        i,
                    ) - taken]);
                }
            }
        }
    }
}

proof fn lemma_pending_monotone(items: Seq<Item>, a: int, b: int)
    requires
        0 <= a <= b,
    ensures
        pending_before(items, a) <= pending_before(items, b),
    decreases b,
{
    if a < b {
        lemma_pending_monotone(items, a, b - 1);
    }
}

/// The key of an item has a dot for each separator, however many there are: where the
/// key in lower case is the given parts with the separator between any two, the flat key
/// is the parts with a dot between any two.
pub proof fn law_item_key(key: Seq<char>, separator: Seq<char>, parts: Seq<Seq<char>>)
    requires
        separator.len() > 0,
        text::lowercase(key) == text::joined(parts, separator),
        text::are_between(parts, separator),
    ensures
        flat_key(key, separator) == text::joined(parts, seq!['.']),
        (forall|i: int| 0 <= i < parts.len() ==> !(#[trigger] parts[i]).contains('.'))
            ==> text::split(flat_key(key, separator), '.') == parts,
{
    reveal_strlit(".");
    assert("."@ =~= seq!['.']);
    text::law_replace_joined(parts, separator, "."@);
    if forall|i: int| 0 <= i < parts.len() ==> !(#[trigger] parts[i]).contains('.') {
        text::law_join_splits(parts, '.');
    }
}

/// An item nests at its separators: the value of the item whose key is the words with
/// the separator between any two stands at the path of the words in lower case, however
/// many words there are, unless a later item with a value takes the same key.
pub proof fn law_item_nests(
    words: Seq<Seq<char>>,
    separator: Seq<char>,
    items: Seq<Item>,
    i: int,
    root: ConfigValue,
)
    requires
        0 <= i < items.len(),
        items[i].value is Some,
        items[i].key == text::joined(words, separator),
        separator.len() > 0,
        text::is_ascii(separator),
        text::ascii_lowered(separator) == separator,
        forall|k: int|
            0 <= k < words.len() ==> text::is_ascii(#[trigger] words[k])
                && !words[k].contains('.'),
        text::are_between(text::lowered_words(words), separator),
        forall|j: int|
            i < j < items.len() && (#[trigger] items[j]).value is Some ==> flat_key(
                items[j].key,
                separator,
            ) != flat_key(items[i].key, separator),
        flat::expands(flat_items(items, separator), Ok::<ConfigValue, Error>(root)),
    ensures
        value::lookup(root@, text::lowered_words(words)) == Some(Json::Text(items[i].value->0)),
{
    let parts = text::lowered_words(words);
    assert forall|k: int| 0 <= k < words.len() implies text::is_ascii(#[trigger] words[k]) by {
    }
    text::law_lowercase_joined(words, separator);
    assert forall|k: int| 0 <= k < parts.len() implies !(#[trigger] parts[k]).contains('.') by {
        if parts[k].contains('.') {
            let at = choose|at: int| 0 <= at < parts[k].len() && parts[k][at] == '.';
            assert(words[k][at] == '.');
            assert(words[k].contains('.'));
        }
    }
    law_item_key(items[i].key, separator, parts);
    law_item_is_found(items, separator, i, root);
}

/// Only items with a value are in the flat form: whatever is in it is the value of an
/// item that has that key.
pub proof fn law_only_items_are_flat(items: Seq<Item>, separator: Seq<char>, key: Seq<char>)
    requires
        flat_items(items, separator).dom().contains(key),
    ensures
        exists|i: int|
            0 <= i < items.len() && (#[trigger] items[i]).value == Some(
                flat_items(items, separator)[key],
            ) && flat_key(items[i].key, separator) == key,
    decreases items.len(),
{
    let shorter = items.drop_last();
    let last = items.len() - 1;
    if items.last().value is Some && flat_key(items.last().key, separator) == key {
        assert(items[last].value == Some(flat_items(items, separator)[key]));
    } else {
        law_only_items_are_flat(shorter, separator, key);
        let i = choose|i: int|
            0 <= i < shorter.len() && (#[trigger] shorter[i]).value == Some(
                flat_items(shorter, separator)[key],
            ) && flat_key(shorter[i].key, separator) == key;
        assert(items[i] == shorter[i]);
    }
}

/// A reference is told by how its content type begins, whatever follows; a secret is
/// read for exactly the references that have a value.
pub proof fn law_references(item: Item, more: Seq<char>)
    ensures
        is_reference(Some("application/vnd.microsoft.appconfig.keyvaultref+json"@ + more)),
        is_reference(item.content_type) ==> item.content_type is Some
            && item.content_type->0.len() >= 52 && item.content_type->0.take(52)
            == "application/vnd.microsoft.appconfig.keyvaultref+json"@,
        is_pending(item) <==> is_reference(item.content_type) && item.value is Some,
{
    reveal_strlit("application/vnd.microsoft.appconfig.keyvaultref+json");
    let prefix = "application/vnd.microsoft.appconfig.keyvaultref+json"@;
    assert(prefix.len() == 52);
    assert(prefix =~= (prefix + more).subrange(0, 52));
    if is_reference(item.content_type) {
        assert(item.content_type->0.take(52) =~= item.content_type->0.subrange(0, 52));
    }
}

/// The search for the next reference, and for the next secret, stops at the first there
/// is and passes over none.
pub proof fn law_no_reference_is_passed(items: Seq<Item>, from: int)
    requires
        0 <= from <= items.len(),
    ensures
        from <= reference_from(items, from) <= items.len(),
        forall|i: int|
            from <= i < reference_from(items, from) ==> !is_reference(
                (#[trigger] items[i]).content_type,
            ),
        reference_from(items, from) < items.len() ==> is_reference(
            items[reference_from(items, from)].content_type,
        ),
        from <= pending_from(items, from) <= items.len(),
        forall|i: int| from <= i < pending_from(items, from) ==> !is_pending(#[trigger] items[i]),
        pending_from(items, from) < items.len() ==> is_pending(items[pending_from(items, from)]),
    decreases items.len() - from,
{
    if from < items.len() {
        law_no_reference_is_passed(items, from + 1);
    }
}

/// A secret takes the place of the value and of nothing else.
pub proof fn law_secret_replaces_value(item: Item, secret: Seq<char>)
    ensures
        with_secret(item, secret).value == Some(secret),
        with_secret(item, secret).key == item.key,
        with_secret(item, secret).content_type == item.content_type,
{
}

/// Encoding is byte by byte: letters, digits and `-_.~` stand for themselves, and any
/// other byte is a percent sign and two hexadecimal digits that tell its value.
pub proof fn law_encoding(a: Seq<u8>, b: Seq<u8>, byte: u8)
    ensures
        percent_encoded(a + b) == percent_encoded(a) + percent_encoded(b),
        ({
            let one = percent_encoded(seq![byte]);
            let c = byte as char;
            if ('A' <= c && c <= 'Z') || ('a' <= c && c <= 'z') || ('0' <= c && c <= '9') || c
                == '-' || c == '_' || c == '.' || c == '~' {
                one == seq![c]
            } else {
                &&& one.len() == 3
                &&& one[0] == '%'
                &&& exists|high: u8, low: u8|
                    high < 16 && low < 16 && 16 * high + low == byte && one[1]
                        == #[trigger] text::hex_digit(high) && one[2] == #[trigger] text::hex_digit(
                        low,
                    )
            }
        }),
    decreases b.len(),
{
    let none = Seq::<u8>::empty();
    assert(seq![byte].drop_last() =~= none);
    assert(percent_encoded(none) =~= Seq::<char>::empty());
    assert(percent_encoded(seq![byte]) =~= encoded_byte(byte));
    if !is_unreserved(byte) {
        let high = (byte / 16) as u8;
        let low = (byte % 16) as u8;
        assert(16 * high + low == byte);
        assert(encoded_byte(byte)[1] == text::hex_digit(high));
        assert(encoded_byte(byte)[2] == text::hex_digit(low));
    }
    if b.len() == 0 {
        assert(a + b =~= a);
        assert(percent_encoded(a) + percent_encoded(b) =~= percent_encoded(a));
    } else {
        law_encoding(a, b.drop_last(), byte);
        assert((a + b).drop_last() =~= a + b.drop_last());
        assert((a + b).last() == b.last());
        assert(percent_encoded(a + b) =~= percent_encoded(a) + percent_encoded(b));
    }
}

/// The pages of a store are asked for below its endpoint, with the version of the API in
/// the query; a label only adds itself, encoded, to the query.
pub proof fn law_first_url(endpoint: Seq<char>, label: Seq<char>)
    ensures
        first_url(endpoint, None) == endpoint + "/kv?api-version=1.0"@,
        first_url(endpoint, Some(label)) == first_url(endpoint, None) + "&label="@
            + percent_encoded(vstd::utf8::encode_utf8(label)),
{
    reveal_strlit("/kv?api-version=");
    reveal_strlit("1.0");
    reveal_strlit("/kv?api-version=1.0");
    assert("/kv?api-version="@ + "1.0"@ =~= "/kv?api-version=1.0"@);
    assert(first_url(endpoint, None) =~= endpoint + "/kv?api-version=1.0"@);
}

/// A continuation link that begins with `http` is followed as it is, any other is taken
/// below the endpoint, and an absent or empty one ends the fetch.
pub proof fn law_next_url(endpoint: Seq<char>, link: Seq<char>)
    ensures
        next_url(endpoint, None) is None,
        next_url(endpoint, Some(Seq::empty())) is None,
        next_url(endpoint, Some("http"@ + link)) == Some("http"@ + link),
        link.len() > 0 && (link.len() < 4 || link.take(4) != "http"@) ==> next_url(
            endpoint,
            Some(link),
        ) == Some(endpoint + link),
{
    reveal_strlit("http");
    assert("http"@ =~= ("http"@ + link).subrange(0, 4));
    if "http"@.is_prefix_of(link) {
        assert(link.take(4) =~= link.subrange(0, 4));
    }
}

/// The version of the API goes into the query of a secret's URI: behind the query that
/// the URI has, or as one of its own.
pub proof fn law_secret_url(uri: Seq<char>)
    ensures
        !uri.contains('?') ==> secret_url_of(uri) == uri + "?api-version=7.4"@,
        uri.contains('?') ==> secret_url_of(uri) == uri + "&api-version=7.4"@,
{
    reveal_strlit("?");
    reveal_strlit("&");
    reveal_strlit("api-version=");
    reveal_strlit("7.4");
    reveal_strlit("?api-version=7.4");
    reveal_strlit("&api-version=7.4");
    if uri.contains('?') {
        assert(secret_url_of(uri) =~= uri + "&api-version=7.4"@);
    } else {
        assert(secret_url_of(uri) =~= uri + "?api-version=7.4"@);
    }
}

/// A failure names its key: the message for a reply that is no secret, and for a
/// reference met while resolution is off, holds the key in quotes, and a secret has no
/// such message.
pub proof fn law_failure_names_its_key(key: Seq<char>, reply: SecretReply)
    ensures
        secret_failure(key, reply) is None <==> reply is Secret,
        secret_failure(key, reply) matches Some(message) ==> exists|a: Seq<char>, b: Seq<char>|
            message == #[trigger] (a + text::quoted(key) + b),
        exists|a: Seq<char>, b: Seq<char>|
            unresolved_message(key) == #[trigger] (a + text::quoted(key) + b),
{
    let q = text::quoted(key);
    match reply {
        SecretReply::BadEnvelope(e) => {
            let message = secret_failure(key, reply)->0;
            assert(message =~= "App Configuration key "@ + q + (
            " is a Key Vault reference with an unreadable envelope: "@ + e@));
        },
        SecretReply::Failed { uri, error } => {
            let message = secret_failure(key, reply)->0;
            assert(message =~= "Key Vault request for "@ + q + (" ("@ + uri@ + ") failed: "@
                + error@));
        },
        SecretReply::Refused { uri, status, body } => {
            let message = secret_failure(key, reply)->0;
            assert(message =~= ("Key Vault returned "@ + status@ + " for "@) + q + (" ("@ + uri@
                + "): "@ + text::trimmed(body@)));
        },
        SecretReply::Unreadable(e) => {
            let message = secret_failure(key, reply)->0;
            assert(message =~= "Key Vault response for "@ + q + (" was not a secret: "@ + e@));
        },
        SecretReply::Secret(_) => {},
    }
}

/// An empty separator stands before, between and behind all characters, so that the flat
/// key has a dot at every boundary of the key.
pub proof fn law_empty_separator(key: Seq<char>)
    requires
        key.len() > 0,
        text::is_ascii(key),
    ensures
        flat_key(key, Seq::empty()) == seq!['.'] + text::joined(
            text::ascii_lowered(key).map_values(|c: char| seq![c]),
            seq!['.'],
        ) + seq!['.'],
{
    reveal_strlit(".");
    assert("."@ =~= seq!['.']);
    text::law_replace_empty(text::ascii_lowered(key), "."@);
}

/// Resolution goes on with the first secret there is to be read and is over where none
/// is left; neither step changes an item.
pub proof fn law_next_secret_is_the_first(items: Seq<Item>, from: int, step: ResolveStep)
    requires
        0 <= from <= items.len(),
        continues(items, from, step),
    ensures
        match step {
            ResolveStep::Done(done) => items_view(done@) == items && (forall|i: int|
                from <= i < items.len() ==> !is_pending(#[trigger] items[i])),
            ResolveStep::Secret { items: pending, index } => items_view(pending@) == items && from
                <= index < items.len() && is_pending(items[index as int]) && (forall|i: int|
                from <= i < index ==> !is_pending(#[trigger] items[i])),
            _ => false,
        },
{
    law_no_reference_is_passed(items, from);
}

/// A key-value stands for its key, its value and its content type; a token that could not
/// be acquired is reported with the scope it was for and what went wrong.
pub proof fn law_items_and_tokens(item: KeyValue, scope: Seq<char>, e: Seq<char>)
    ensures
        item@.key == item.key@,
        item@.value is Some <==> item.value is Some,
        item.value is Some ==> item@.value->0 == item.value->0@,
        item@.content_type is Some <==> item.content_type is Some,
        item.content_type is Some ==> item@.content_type->0 == item.content_type->0@,
        token_message(scope, e) == "could not acquire an Entra ID token for "@ + (scope + ": "@ + e),
{
    assert(token_message(scope, e) =~= "could not acquire an Entra ID token for "@ + (scope + ": "@
        + e));
}

} // verus!

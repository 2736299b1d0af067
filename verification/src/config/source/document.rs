//! Parsing of the file formats, and the conversion of TOML into JSON.

use serde_json::Value;
use vstd::prelude::*;

use crate::config::error::Error;
use crate::config::value::{self, Json, Number, ConfigValue};
use crate::logging::double;

verus! {

/// A TOML value. A float is held as the bit pattern of an IEEE 754 double, a
/// date-time as its text.
#[derive(Debug)]
pub enum TomlValue {
    /// A string.
    String(String),
    /// An integer.
    Integer(i64),
    /// The bit pattern of a double.
    Float(u64),
    /// A boolean.
    Boolean(bool),
    /// A date-time, rendered.
    Datetime(String),
    /// An array.
    Array(Vec<TomlValue>),
    /// A table; where a key stands in it twice, the later entry counts.
    Table(Vec<(String, TomlValue)>),
}

/// What a [`TomlValue`] stands for.
#[verifier::ext_equal]
pub enum Toml {
    /// A string.
    Text(Seq<char>),
    /// An integer.
    Integer(i64),
    /// The bit pattern of a double.
    Float(u64),
    /// A boolean.
    Boolean(bool),
    /// A date-time, rendered.
    Datetime(Seq<char>),
    /// An array.
    Array(Seq<Toml>),
    /// A table.
    Table(Map<Seq<char>, Toml>),
}

/// The tree of each element.
pub open spec fn toml_items(items: Seq<TomlValue>) -> Seq<Toml>
    decreases items,
{
    if items.len() == 0 {
        Seq::empty()
    } else {
        toml_items(items.drop_last()).push(items.last().view())
    }
}

/// The map a list of entries stands for: the later of two equal keys counts.
pub open spec fn toml_entries(entries: Seq<(String, TomlValue)>) -> Map<Seq<char>, Toml>
    decreases entries,
{
    if entries.len() == 0 {
        Map::empty()
    } else {
        toml_entries(entries.drop_last()).insert(entries.last().0@, entries.last().1.view())
    }
}

impl TomlValue {
    /// The tree this value stands for.
    pub open spec fn view(&self) -> Toml
        decreases self,
    {
        match self {
            TomlValue::String(s) => Toml::Text(s@),
            TomlValue::Integer(i) => Toml::Integer(*i),
            TomlValue::Float(bits) => Toml::Float(*bits),
            TomlValue::Boolean(b) => Toml::Boolean(*b),
            TomlValue::Datetime(s) => Toml::Datetime(s@),
            TomlValue::Array(items) => Toml::Array(toml_items(items@)),
            TomlValue::Table(entries) => Toml::Table(toml_entries(entries@)),
        }
    }
}

/// Whether a bit pattern is that of a double that is neither infinite nor NaN: its
/// eleven exponent bits are not all ones.
pub open spec fn is_finite(bits: u64) -> bool {
    (bits / 0x10_0000_0000_0000) % 0x800 != 0x7FF
}

/// The JSON number of an integer.
pub open spec fn integer_number(i: i64) -> Number {
    if i >= 0 {
        Number::PosInt(i as u64)
    } else {
        Number::NegInt(i)
    }
}

/// The JSON tree of a TOML tree: tables become objects, date-times become
/// strings, and a float that JSON cannot hold becomes `null`.
pub open spec fn json_of_toml(toml: Toml) -> Json
    decreases toml,
{
    match toml {
        Toml::Text(s) => Json::Text(s),
        Toml::Integer(i) => Json::Number(integer_number(i)),
        Toml::Float(bits) => if is_finite(bits) {
            Json::Number(Number::Float(bits))
        } else {
            Json::Null
        },
        Toml::Boolean(b) => Json::Bool(b),
        Toml::Datetime(s) => Json::Text(s),
        Toml::Array(items) => Json::Array(
            Seq::new(
                items.len(),
                |i: int|
                    if 0 <= i < items.len() {
                        json_of_toml(items[i])
                    } else {
                        Json::Null
                    },
            ),
        ),
        Toml::Table(map) => Json::Object(
            Map::new(
                |k: Seq<char>| map.dom().contains(k),
                |k: Seq<char>|
                    if map.dom().contains(k) {
                        json_of_toml(map[k])
                    } else {
                        Json::Null
                    },
            ),
        ),
    }
}

/// The trees of the elements stand in the order of the elements.
proof fn lemma_toml_items(items: Seq<TomlValue>)
    ensures
        toml_items(items).len() == items.len(),
        forall|i: int| 0 <= i < items.len() ==> #[trigger] toml_items(items)[i] == items[i]@,
    decreases items.len(),
{
    if items.len() > 0 {
        lemma_toml_items(items.drop_last());
    }
}

/// Rewrite a TOML value as a JSON value.
pub fn toml_to_json(toml: &TomlValue) -> (json: ConfigValue)
    ensures
        json@ == json_of_toml(toml@),
    decreases toml,
{
    match toml {
        TomlValue::String(s) => ConfigValue::String(s.clone()),
        TomlValue::Integer(i) => ConfigValue::Number(
            if *i >= 0 {
                Number::PosInt(*i as u64)
            } else {
                Number::NegInt(*i)
            },
        ),
        TomlValue::Float(bits) => if (*bits / 0x10_0000_0000_0000) % 0x800 != 0x7FF {
            ConfigValue::Number(Number::Float(*bits))
        } else {
            ConfigValue::Null
        },
        TomlValue::Boolean(b) => ConfigValue::Bool(*b),
        TomlValue::Datetime(s) => ConfigValue::String(s.clone()),
        TomlValue::Array(items) => {
            let mut out: Vec<ConfigValue> = Vec::new();
            let mut i: usize = 0;
            while i < items.len()
                invariant
                    i <= items@.len(),
                    *toml == TomlValue::Array(*items),
                    out@.len() == i,
                    forall|j: int| 0 <= j < i ==> (#[trigger] out@[j])@ == json_of_toml(items@[j]@),
                decreases items.len() - i,
            {
                proof {
                    assert(decreases_to!(toml => toml->Array_0));
                    assert(decreases_to!(items@ => items@[i as int]));
                }
                let item: ConfigValue = toml_to_json(&items[i]);
                out.push(item);
                i = i + 1;
            }
            proof {
                value::lemma_items_of(out@);
                lemma_toml_items(items@);
                assert(value::items_of(out@) =~= json_of_toml(toml@)->Array_0);
            }
            ConfigValue::Array(out)
        },
        TomlValue::Table(entries) => {
            let mut out: Vec<(String, ConfigValue)> = Vec::new();
            let mut i: usize = 0;
            proof {
                assert(value::entries_of(out@) =~= json_of_toml(
                    Toml::Table(toml_entries(entries@.take(0))),
                )->Object_0);
            }
            while i < entries.len()
                invariant
                    i <= entries@.len(),
                    *toml == TomlValue::Table(*entries),
                    value::entries_of(out@) == json_of_toml(
                        Toml::Table(toml_entries(entries@.take(i as int))),
                    )->Object_0,
                decreases entries.len() - i,
            {
                proof {
                    assert(decreases_to!(toml => toml->Table_0));
                    assert(decreases_to!(entries@ => entries@[i as int]));
                    assert(decreases_to!(entries@[i as int] => entries@[i as int].1));
                }
                let item: ConfigValue = toml_to_json(&entries[i].1);
                let ghost before = out@;
                out.push((entries[i].0.clone(), item));
                proof {
                    assert(out@.drop_last() =~= before);
                    assert(entries@.take(i + 1).drop_last() =~= entries@.take(i as int));
                    assert(value::entries_of(out@) =~= json_of_toml(
                        Toml::Table(toml_entries(entries@.take(i + 1))),
                    )->Object_0);
                }
                i = i + 1;
            }
            proof {
                assert(entries@.take(i as int) =~= entries@);
            }
            ConfigValue::Object(out)
        },
    }
}

/// The tree that `serde_json` parses documents into, as `serde_json` holds it.
#[verifier::external_type_specification]
#[verifier::external_body]
pub struct ExSerdeJsonValue(serde_json::Value);

/// The tree that `toml` parses documents into, as `toml` holds it.
#[verifier::external_type_specification]
#[verifier::external_body]
pub struct ExTomlValue(toml::Value);

/// The tree a `serde_json::Value` holds.
pub uninterp spec fn json_contents(parsed: serde_json::Value) -> Json;

/// The tree a `toml::Value` holds.
pub uninterp spec fn toml_contents(parsed: toml::Value) -> Toml;

/// What parsing a text as JSON gives: the tree, or the parser's message.
pub uninterp spec fn json_document(text: Seq<char>) -> Result<Json, Seq<char>>;

/// What parsing a text as YAML into a JSON tree gives: the tree, or the parser's
/// message.
pub uninterp spec fn yaml_document(text: Seq<char>) -> Result<Json, Seq<char>>;

/// What parsing a text as TOML gives: the tree, or the parser's message.
pub uninterp spec fn toml_document(text: Seq<char>) -> Result<Toml, Seq<char>>;

/// Rewrites a `serde_json::Value` as a [`ConfigValue`], variant by variant. The result
/// stands for the tree the argument holds: an integer keeps its value and sign
/// class, any other number is the bit pattern of its double, and an object has the
/// members of the map.
#[verifier::external_body]
fn import_json(parsed: serde_json::Value) -> (value: ConfigValue)
    ensures
        value@ == json_contents(parsed),
{
    match parsed {
        Value::Null => ConfigValue::Null,
        Value::Bool(b) => ConfigValue::Bool(b),
        Value::Number(n) => ConfigValue::Number(match (n.as_u64(), n.as_i64()) {
            (Some(u), _) => Number::PosInt(u),
            (None, Some(i)) => Number::NegInt(i),
            _ => Number::Float(n.as_f64().map_or(0, |x| x.to_bits())),
        }),
        Value::String(s) => ConfigValue::String(s),
        Value::Array(a) => ConfigValue::Array(a.into_iter().map(import_json).collect()),
        Value::Object(o) =>
            ConfigValue::Object(o.into_iter().map(|(k, v)| (k, import_json(v))).collect()),
    }
}

/// Rewrites a `toml::Value` as a [`TomlValue`], variant by variant. The result
/// stands for the tree the argument holds: a float is the bit pattern of its
/// double, a date-time its `Display` rendering, and a table has the members of the
/// map.
#[verifier::external_body]
fn import_toml(parsed: toml::Value) -> (value: TomlValue)
    ensures
        value@ == toml_contents(parsed),
{
    match parsed {
        toml::Value::String(s) => TomlValue::String(s),
        toml::Value::Integer(i) => TomlValue::Integer(i),
        toml::Value::Float(x) => TomlValue::Float(x.to_bits()),
        toml::Value::Boolean(b) => TomlValue::Boolean(b),
        toml::Value::Datetime(d) => TomlValue::Datetime(d.to_string()),
        toml::Value::Array(a) => TomlValue::Array(a.into_iter().map(import_toml).collect()),
        toml::Value::Table(t) =>
            TomlValue::Table(t.into_iter().map(|(k, v)| (k, import_toml(v))).collect()),
    }
}

/// `serde_json::from_str` into a `serde_json::Value`: the tree of the document, or
/// the parser's message. Both depend on the text alone.
#[verifier::external_body]
fn json_from_str(text: &str) -> (parsed: Result<serde_json::Value, String>)
    ensures
        match parsed {
            Ok(value) => json_document(text@) == Ok::<Json, Seq<char>>(json_contents(value)),
            Err(e) => json_document(text@) == Err::<Json, Seq<char>>(e@),
        },
{
    serde_json::from_str(text).map_err(|e| e.to_string())
}

/// `serde_norway::from_str` into a `serde_json::Value`: the tree of the document,
/// or the parser's message. Both depend on the text alone.
#[verifier::external_body]
fn yaml_from_str(text: &str) -> (parsed: Result<serde_json::Value, String>)
    ensures
        match parsed {
            Ok(value) => yaml_document(text@) == Ok::<Json, Seq<char>>(json_contents(value)),
            Err(e) => yaml_document(text@) == Err::<Json, Seq<char>>(e@),
        },
{
    serde_norway::from_str(text).map_err(|e| e.to_string())
}

/// `toml::from_str` into a `toml::Value`: the tree of the document, or the
/// parser's message. Both depend on the text alone.
#[verifier::external_body]
fn toml_from_str(text: &str) -> (parsed: Result<toml::Value, String>)
    ensures
        match parsed {
            Ok(value) => toml_document(text@) == Ok::<Toml, Seq<char>>(toml_contents(value)),
            Err(e) => toml_document(text@) == Err::<Toml, Seq<char>>(e@),
        },
{
    toml::from_str(text).map_err(|e| e.to_string())
}

/// What a source makes of the outcome of a parse: the tree, or the message put
/// under its kind of error.
pub open spec fn parsed_as(
    document: Result<Json, Seq<char>>,
    given: Result<ConfigValue, Error>,
    failed: spec_fn(Error) -> Option<Seq<char>>,
) -> bool {
    match document {
        Ok(tree) => given is Ok && given->Ok_0@ == tree,
        Err(e) => given is Err && failed(given->Err_0) == Some(e),
    }
}

/// The message of a JSON parse error.
pub open spec fn json_failure(e: Error) -> Option<Seq<char>> {
    match e {
        Error::Json(message) => Some(message@),
        _ => None,
    }
}

/// The message of a YAML parse error.
pub open spec fn yaml_failure(e: Error) -> Option<Seq<char>> {
    match e {
        Error::Yaml(message) => Some(message@),
        _ => None,
    }
}

/// The message of a TOML parse error.
pub open spec fn toml_failure(e: Error) -> Option<Seq<char>> {
    match e {
        Error::Toml(message) => Some(message@),
        _ => None,
    }
}

/// The JSON tree of a TOML document, or the parser's message.
pub open spec fn toml_as_json(document: Result<Toml, Seq<char>>) -> Result<Json, Seq<char>> {
    match document {
        Ok(tree) => Ok(json_of_toml(tree)),
        Err(e) => Err(e),
    }
}

/// Parse a JSON document.
pub fn parse_json(text: &str) -> (parsed: Result<ConfigValue, Error>)
    ensures
        parsed_as(json_document(text@), parsed, |e: Error| json_failure(e)),
{
    match json_from_str(text) {
        Ok(value) => Ok(import_json(value)),
        Err(e) => Err(Error::Json(e)),
    }
}

/// Parse a YAML document.
pub fn parse_yaml(text: &str) -> (parsed: Result<ConfigValue, Error>)
    ensures
        parsed_as(yaml_document(text@), parsed, |e: Error| yaml_failure(e)),
{
    match yaml_from_str(text) {
        Ok(value) => Ok(import_json(value)),
        Err(e) => Err(Error::Yaml(e)),
    }
}

/// Parse a TOML document and rewrite it as JSON.
pub fn parse_toml(text: &str) -> (parsed: Result<ConfigValue, Error>)
    ensures
        parsed_as(toml_as_json(toml_document(text@)), parsed, |e: Error| toml_failure(e)),
{
    match toml_from_str(text) {
        Ok(value) => Ok(toml_to_json(&import_toml(value))),
        Err(e) => Err(Error::Toml(e)),
    }
}

/// A float keeps its bits unless JSON cannot hold it: it becomes the number of the same
/// bits exactly where the eleven bits behind its sign are not all ones, and `null`
/// otherwise.
pub proof fn law_float_is_kept(bits: u64)
    ensures
        bits & 0x7FF0_0000_0000_0000 != 0x7FF0_0000_0000_0000 <==> json_of_toml(Toml::Float(bits))
            == Json::Number(Number::Float(bits)),
        bits & 0x7FF0_0000_0000_0000 == 0x7FF0_0000_0000_0000 <==> json_of_toml(Toml::Float(bits))
            == Json::Null,
        double::is_finite(bits) <==> json_of_toml(Toml::Float(bits)) == Json::Number(
            Number::Float(bits),
        ),
{
    double::law_sign_is_apart(bits);
    assert((bits / 0x10_0000_0000_0000) % 0x800 == 0x7FF <==> bits & 0x7FF0_0000_0000_0000
        == 0x7FF0_0000_0000_0000) by (bit_vector);
}

/// The sign of a float does not decide whether it is kept: a float and its negative
/// both become numbers, each with its own bits, or both become `null`.
pub proof fn law_float_sign(bits: u64)
    ensures
        ({
            let negated = bits ^ 0x8000_0000_0000_0000;
            ||| json_of_toml(Toml::Float(bits)) == Json::Number(Number::Float(bits))
                && json_of_toml(Toml::Float(negated)) == Json::Number(Number::Float(negated))
            ||| json_of_toml(Toml::Float(bits)) == Json::Null && json_of_toml(Toml::Float(negated))
                == Json::Null
        }),
{
    double::law_sign_is_apart(bits);
    law_float_is_kept(bits);
    law_float_is_kept(bits ^ 0x8000_0000_0000_0000);
}

/// What number a JSON integer is.
pub open spec fn integer_of(number: Number) -> Option<int> {
    match number {
        Number::PosInt(n) => Some(n as int),
        Number::NegInt(n) => Some(n as int),
        Number::Float(_) => None,
    }
}

/// The scalars other than floats keep what they hold: an integer its value, and never as
/// a negative one where it is zero or more; a boolean its truth; a string and a date-time
/// their text.
pub proof fn law_scalars_are_kept(i: i64, b: bool, s: Seq<char>)
    ensures
        json_of_toml(Toml::Integer(i)) matches Json::Number(n) && integer_of(n) == Some(i as int)
            && (n is PosInt <==> i >= 0),
        json_of_toml(Toml::Boolean(b)) == Json::Bool(b),
        json_of_toml(Toml::Text(s)) == Json::Text(s),
        json_of_toml(Toml::Datetime(s)) == Json::Text(s),
{
}

/// The shape is kept: an array becomes an array of as many elements, each at its place
/// what it becomes alone, and a table an object with the same keys, each with what its
/// value becomes alone.
pub proof fn law_shape_is_kept(items: Seq<Toml>, entries: Map<Seq<char>, Toml>)
    ensures
        json_of_toml(Toml::Array(items)) matches Json::Array(out) && out.len() == items.len() && (
        forall|i: int| 0 <= i < items.len() ==> #[trigger] out[i] == json_of_toml(items[i])),
        json_of_toml(Toml::Table(entries)) matches Json::Object(out) && out.dom() == entries.dom()
            && (forall|k: Seq<char>|
            entries.dom().contains(k) ==> #[trigger] out[k] == json_of_toml(entries[k])),
{
    assert(json_of_toml(Toml::Table(entries))->Object_0.dom() =~= entries.dom());
}

/// A parse that succeeds gives the tree of the document, and one that fails the parser's
/// message under the format's own kind of error; a TOML document is the tree of its
/// values rewritten.
pub proof fn law_parse_outcome(
    document: Result<Json, Seq<char>>,
    toml: Result<Toml, Seq<char>>,
    given: Result<ConfigValue, Error>,
)
    ensures
        parsed_as(document, given, |e: Error| json_failure(e)) && document is Ok ==> given is Ok
            && given->Ok_0@ == document->Ok_0,
        parsed_as(document, given, |e: Error| json_failure(e)) && document is Err ==> (
        given matches Err(Error::Json(message)) && message@ == document->Err_0),
        parsed_as(document, given, |e: Error| yaml_failure(e)) && document is Ok ==> given is Ok
            && given->Ok_0@ == document->Ok_0,
        parsed_as(document, given, |e: Error| yaml_failure(e)) && document is Err ==> (
        given matches Err(Error::Yaml(message)) && message@ == document->Err_0),
        parsed_as(toml_as_json(toml), given, |e: Error| toml_failure(e)) && toml is Ok
            ==> given is Ok && given->Ok_0@ == json_of_toml(toml->Ok_0),
        parsed_as(toml_as_json(toml), given, |e: Error| toml_failure(e)) && toml is Err ==> (
        given matches Err(Error::Toml(message)) && message@ == toml->Err_0),
{
}

/// The later of two equal keys of a table counts, and a table has no key but those of its
/// entries.
pub proof fn law_later_table_entry_counts(
    entries: Seq<(String, TomlValue)>,
    i: int,
    key: Seq<char>,
)
    requires
        0 <= i < entries.len(),
        forall|j: int| i < j < entries.len() ==> (#[trigger] entries[j]).0@ != entries[i].0@,
    ensures
        toml_entries(entries).dom().contains(entries[i].0@),
        toml_entries(entries)[entries[i].0@] == entries[i].1@,
        toml_entries(entries).dom().contains(key) ==> exists|j: int|
            0 <= j < entries.len() && (#[trigger] entries[j]).0@ == key,
    decreases entries.len(),
{
    let shorter = entries.drop_last();
    let last = entries.len() - 1;
    assert(entries[last] == entries.last());
    if i < last {
        assert(shorter[i] == entries[i]);
        assert forall|j: int| i < j < shorter.len() implies (#[trigger] shorter[j]).0@
            != shorter[i].0@ by {
            assert(shorter[j] == entries[j]);
        }
        law_later_table_entry_counts(shorter, i, key);
        assert(entries[last].0@ != entries[i].0@);
    } else if shorter.len() > 0 && toml_entries(shorter).dom().contains(key) {
        lemma_table_keys(shorter, key);
    }
    if toml_entries(entries).dom().contains(key) && entries.last().0@ != key {
        lemma_table_keys(shorter, key);
        let j = choose|j: int| 0 <= j < shorter.len() && (#[trigger] shorter[j]).0@ == key;
        assert(entries[j].0@ == key);
    }
}

proof fn lemma_table_keys(entries: Seq<(String, TomlValue)>, key: Seq<char>)
    requires
        toml_entries(entries).dom().contains(key),
    ensures
        exists|j: int| 0 <= j < entries.len() && (#[trigger] entries[j]).0@ == key,
    decreases entries.len(),
{
    if entries.len() > 0 {
        if entries.last().0@ == key {
            assert(entries[entries.len() - 1].0@ == key);
        } else {
            let shorter = entries.drop_last();
            lemma_table_keys(shorter, key);
            let j = choose|j: int| 0 <= j < shorter.len() && (#[trigger] shorter[j]).0@ == key;
            assert(entries[j].0@ == key);
        }
    }
}

/// A TOML value stands for the tree of the same kind that holds the same: a scalar for
/// itself, an array for the trees of its elements in their order.
pub proof fn law_values_stand_for_themselves(
    s: String,
    i: i64,
    bits: u64,
    b: bool,
    items: Vec<TomlValue>,
    entries: Vec<(String, TomlValue)>,
)
    ensures
        TomlValue::String(s)@ == Toml::Text(s@),
        TomlValue::Integer(i)@ == Toml::Integer(i),
        TomlValue::Float(bits)@ == Toml::Float(bits),
        TomlValue::Boolean(b)@ == Toml::Boolean(b),
        TomlValue::Datetime(s)@ == Toml::Datetime(s@),
        TomlValue::Array(items)@ == Toml::Array(Seq::new(items@.len(), |i: int| items@[i]@)),
        TomlValue::Table(entries)@ == Toml::Table(toml_entries(entries@)),
{
    lemma_toml_items(items@);
    assert(toml_items(items@) =~= Seq::new(items@.len(), |i: int| items@[i]@));
}

} // verus!

//! The environment as a configuration source.

use vstd::prelude::*;

use crate::config::error::Error;
use crate::config::source::flat::{self, expand, flat_insert};
use crate::config::source::Source;
use crate::config::value::{self, ConfigValue, Json};
use crate::text::{self, ascii_upper, chars_of, replace_all, same, starts_with, string_between, to_lowercase};

verus! {

broadcast use vstd::string::group_string_axioms;

/// Environment variable configuration source.
///
/// Captures the variables matching a **prefix** and nests them at the
/// **separator** (typically `__`): with prefix `APP_`, `APP_DB__HOST` becomes
/// `{"db": {"host": ...}}`.
///
/// Some settings are named by convention rather than by application: `RUST_LOG`,
/// or what a platform injects. No prefix selects those and nothing else, and an
/// empty prefix captures the entire environment. [`EnvSource::with_keys`] captures
/// exactly the variables it is given.
#[derive(Debug)]
pub struct EnvSource {
    prefix: String,
    separator: String,
    priority: u32,
    /// When present, only these variable names are captured and `prefix` is not
    /// consulted.
    keys: Option<Vec<String>>,
}

/// The configuration key for the captured part of a variable's name: lower case,
/// with a dot for each separator.
pub open spec fn config_key(name: Seq<char>, separator: Seq<char>) -> Seq<char> {
    text::replaced(text::lowercase(name), separator, "."@)
}

/// How an [`EnvSource`] selects variables: by prefix, or by name.
pub enum Selection {
    /// Every variable that begins with the prefix, which is stripped.
    Prefix(Seq<char>),
    /// Exactly these names, in upper case.
    Keys(Seq<Seq<char>>),
}

/// The configuration key under which a variable is captured, where it is.
pub open spec fn captured_as(
    selection: Selection,
    separator: Seq<char>,
    name: Seq<char>,
) -> Option<Seq<char>> {
    match selection {
        Selection::Prefix(prefix) => if prefix.is_prefix_of(name) {
            Some(config_key(name.skip(prefix.len() as int), separator))
        } else {
            None
        },
        Selection::Keys(keys) => if keys.contains(text::ascii_uppered(name)) {
            Some(config_key(name, separator))
        } else {
            None
        },
    }
}

/// The captured variables of an environment; the later of two with the same key
/// counts.
pub open spec fn captured(
    selection: Selection,
    separator: Seq<char>,
    vars: Seq<(String, String)>,
) -> Map<Seq<char>, Seq<char>>
    decreases vars.len(),
{
    if vars.len() == 0 {
        Map::empty()
    } else {
        let before = captured(selection, separator, vars.drop_last());
        match captured_as(selection, separator, vars.last().0@) {
            Some(key) => before.insert(key, vars.last().1@),
            None => before,
        }
    }
}

impl EnvSource {
    /// How this source selects variables.
    pub closed spec fn selection(&self) -> Selection {
        match self.keys {
            Some(keys) => Selection::Keys(text::views(keys@)),
            None => Selection::Prefix(self.prefix@),
        }
    }

    /// The delimiter that creates nesting.
    pub closed spec fn delimiter(&self) -> Seq<char> {
        self.separator@
    }

    /// Create a source over environment variables matching `prefix`.
    ///
    /// `separator` controls nesting: with `__`, `APP_DB__HOST` becomes
    /// `{"db": {"host": ...}}`. `priority` follows the crate convention: lower
    /// numbers win.
    pub fn new(prefix: &str, separator: &str, priority: u32) -> (source: EnvSource)
        ensures
            source.selection() == Selection::Prefix(prefix@),
            source.delimiter() == separator@,
            source.rank() == priority,
    {
        EnvSource {
            prefix: prefix.to_owned(),
            separator: separator.to_owned(),
            priority,
            keys: None,
        }
    }

    /// Create a source over exactly the named environment variables.
    ///
    /// Names are matched case-insensitively and appear in the configuration
    /// lowercased, so `RUST_LOG` is read as `rust_log`. `separator` still applies,
    /// so a named variable containing it nests. `priority` follows the crate
    /// convention: lower numbers win.
    pub fn with_keys(keys: &[&str], separator: &str, priority: u32) -> (source: EnvSource)
        ensures
            source.selection() == Selection::Keys(
                keys@.map_values(|key: &str| text::ascii_uppered(key@)),
            ),
            source.delimiter() == separator@,
            source.rank() == priority,
    {
        let mut names: Vec<String> = Vec::new();
        let mut i: usize = 0;
        while i < keys.len()
            invariant
                i <= keys@.len(),
                names@.len() == i,
                forall|j: int|
                    0 <= j < i ==> (#[trigger] names@[j])@ == text::ascii_uppered(keys@[j]@),
            decreases keys.len() - i,
        {
            names.push(ascii_upper(keys[i]));
            i = i + 1;
        }
        proof {
            assert(text::views(names@) =~= keys@.map_values(
                |key: &str| text::ascii_uppered(key@),
            ));
        }
        EnvSource {
            prefix: String::new(),
            separator: separator.to_owned(),
            priority,
            keys: Some(names),
        }
    }

    /// The captured variables of the environment `vars`, flat.
    pub fn env_to_flat(&self, vars: &Vec<(String, String)>) -> (pairs: Vec<(String, String)>)
        ensures
            flat::distinct(pairs@),
            flat::flat_of(pairs@) == captured(self.selection(), self.delimiter(), vars@),
    {
        let mut pairs: Vec<(String, String)> = Vec::new();
        let mut i: usize = 0;
        while i < vars.len()
            invariant
                i <= vars@.len(),
                flat::distinct(pairs@),
                flat::flat_of(pairs@) == captured(
                    self.selection(),
                    self.delimiter(),
                    vars@.take(i as int),
                ),
            decreases vars.len() - i,
        {
            proof {
                assert(vars@.take(i + 1).drop_last() =~= vars@.take(i as int));
            }
            match self.key_for(vars[i].0.as_str()) {
                Some(key) => {
                    flat_insert(&mut pairs, key, vars[i].1.clone());
                },
                None => {},
            }
            i = i + 1;
        }
        proof {
            assert(vars@.take(i as int) =~= vars@);
        }
        pairs
    }

    /// The configuration key under which the variable `name` is captured.
    fn key_for(&self, name: &str) -> (key: Option<String>)
        ensures
            text::view_opt(key) == captured_as(self.selection(), self.delimiter(), name@),
    {
        match &self.keys {
            Some(keys) => {
                let upper: String = ascii_upper(name);
                if contains(keys, upper.as_str()) {
                    let lower: String = to_lowercase(name);
                    Some(replace_all(lower.as_str(), self.separator.as_str(), "."))
                } else {
                    None
                }
            },
            None => {
                if starts_with(name, self.prefix.as_str()) {
                    let chars: Vec<char> = chars_of(name);
                    let skipped: Vec<char> = chars_of(self.prefix.as_str());
                    let stripped: String = string_between(&chars, skipped.len(), chars.len());
                    proof {
                        assert(stripped@ =~= name@.skip(self.prefix@.len() as int));
                    }
                    let lower: String = to_lowercase(stripped.as_str());
                    Some(replace_all(lower.as_str(), self.separator.as_str(), "."))
                } else {
                    None
                }
            },
        }
    }

    /// The configuration of the environment `vars`.
    pub fn load(&self, vars: &Vec<(String, String)>) -> (tree: Result<ConfigValue, Error>)
        ensures
            flat::expands(captured(self.selection(), self.delimiter(), vars@), tree),
    {
        expand(&self.env_to_flat(vars))
    }
}

/// A variable that is selected, and whose key no later one takes, is in the capture with
/// its value.
proof fn lemma_captured(
    selection: Selection,
    separator: Seq<char>,
    vars: Seq<(String, String)>,
    i: int,
    key: Seq<char>,
)
    requires
        0 <= i < vars.len(),
        captured_as(selection, separator, vars[i].0@) == Some(key),
        forall|j: int|
            i < j < vars.len() ==> captured_as(selection, separator, (#[trigger] vars[j]).0@)
                != Some(key),
    ensures
        captured(selection, separator, vars).dom().contains(key),
        captured(selection, separator, vars)[key] == vars[i].1@,
    decreases vars.len(),
{
    let shorter = vars.drop_last();
    if i < vars.len() - 1 {
        assert(shorter[i] == vars[i]);
        assert forall|j: int| i < j < shorter.len() implies captured_as(
            selection,
            separator,
            (#[trigger] shorter[j]).0@,
        ) != Some(key) by {
            assert(shorter[j] == vars[j]);
        }
        lemma_captured(selection, separator, shorter, i, key);
        assert(captured_as(selection, separator, vars[vars.len() - 1].0@) != Some(key));
    }
}

/// A selected variable is read under its name: where loading succeeds, its value stands at
/// the path its key spells, unless a later variable takes the same key. With prefix
/// `APP_` and separator `__`, `APP_DB__HOST` is `host` inside `db`.
pub proof fn law_selected_variable_is_found(
    selection: Selection,
    separator: Seq<char>,
    vars: Seq<(String, String)>,
    i: int,
    key: Seq<char>,
    root: ConfigValue,
)
    requires
        0 <= i < vars.len(),
        captured_as(selection, separator, vars[i].0@) == Some(key),
        forall|j: int|
            i < j < vars.len() ==> captured_as(selection, separator, (#[trigger] vars[j]).0@)
                != Some(key),
        flat::expands(captured(selection, separator, vars), Ok::<ConfigValue, Error>(root)),
    ensures
        value::lookup(root@, flat::path_of(key)) == Some(Json::Text(vars[i].1@)),
{
    lemma_captured(selection, separator, vars, i, key);
    flat::law_expanded_key_is_found(captured(selection, separator, vars), root, key);
}

/// Only selected variables are captured: whatever is in the capture is the value of a
/// variable that is selected and has that key.
pub proof fn law_only_selected_are_captured(
    selection: Selection,
    separator: Seq<char>,
    vars: Seq<(String, String)>,
    key: Seq<char>,
)
    requires
        captured(selection, separator, vars).dom().contains(key),
    ensures
        exists|i: int|
            0 <= i < vars.len() && captured_as(selection, separator, (#[trigger] vars[i]).0@)
                == Some(key) && captured(selection, separator, vars)[key] == vars[i].1@,
    decreases vars.len(),
{
    let last = vars.len() - 1;
    let shorter = vars.drop_last();
    if captured_as(selection, separator, vars.last().0@) == Some(key) {
        assert(vars[last] == vars.last());
    } else {
        law_only_selected_are_captured(selection, separator, shorter, key);
        let i = choose|i: int|
            0 <= i < shorter.len() && captured_as(selection, separator, (
            #[trigger] shorter[i]).0@) == Some(key) && captured(
                selection,
                separator,
                shorter,
            )[key] == shorter[i].1@;
        assert(vars[i] == shorter[i]);
    }
}

/// Whether `wanted` is among `names`.
fn contains(names: &Vec<String>, wanted: &str) -> (found: bool)
    ensures
        found == text::views(names@).contains(wanted@),
{
    let mut i: usize = 0;
    while i < names.len()
        invariant
            i <= names@.len(),
            forall|j: int| 0 <= j < i ==> (#[trigger] names@[j])@ != wanted@,
        decreases names.len() - i,
    {
        if same(names[i].as_str(), wanted) {
            proof {
                assert(text::views(names@)[i as int] == wanted@);
            }
            return true;
        }
        i = i + 1;
    }
    proof {
        assert forall|j: int| 0 <= j < names@.len() implies text::views(names@)[j] != wanted@ by {
            assert(names@[j]@ != wanted@);
        }
    }
    false
}

impl Source for EnvSource {
    closed spec fn rank(&self) -> u32 {
        self.priority
    }

    open spec fn label(&self) -> Seq<char> {
        "env"@
    }

    fn name(&self) -> (name: &str) {
        "env"
    }

    fn priority(&self) -> (priority: u32) {
        self.priority
    }
}

/// A prefix selects exactly the variables whose names begin with it, whatever the rest of
/// the name is, and the rest alone decides the key: under any other prefix the same rest
/// has the same key.
pub proof fn law_prefix_selects(
    prefix: Seq<char>,
    other: Seq<char>,
    separator: Seq<char>,
    name: Seq<char>,
    rest: Seq<char>,
)
    ensures
        captured_as(Selection::Prefix(prefix), separator, name) is Some <==> (name.len()
            >= prefix.len() && name.take(prefix.len() as int) == prefix),
        captured_as(Selection::Prefix(prefix), separator, prefix + rest) is Some,
        captured_as(Selection::Prefix(prefix), separator, prefix + rest) == captured_as(
            Selection::Prefix(other),
            separator,
            other + rest,
        ),
{
    assert(prefix =~= (prefix + rest).subrange(0, prefix.len() as int));
    assert(other =~= (other + rest).subrange(0, other.len() as int));
    assert((prefix + rest).skip(prefix.len() as int) =~= rest);
    assert((other + rest).skip(other.len() as int) =~= rest);
    if name.len() >= prefix.len() {
        assert(name.take(prefix.len() as int) =~= name.subrange(0, prefix.len() as int));
    }
}

/// Named variables are matched without regard to the case of ASCII letters: a variable is
/// captured exactly where one of the names spells it, under the key its whole name has
/// with an empty prefix.
pub proof fn law_names_select(keys: Seq<Seq<char>>, separator: Seq<char>, name: Seq<char>)
    ensures
        ({
            let selection = Selection::Keys(keys.map_values(|k: Seq<char>| text::ascii_uppered(k)));
            &&& captured_as(selection, separator, name) is Some <==> exists|i: int|
                0 <= i < keys.len() && text::ascii_lowered(#[trigger] keys[i])
                    == text::ascii_lowered(name)
            &&& captured_as(selection, separator, name) is Some ==> captured_as(
                selection,
                separator,
                name,
            ) == captured_as(Selection::Prefix(Seq::empty()), separator, name)
        }),
{
    let uppered = keys.map_values(|k: Seq<char>| text::ascii_uppered(k));
    let upper = text::ascii_uppered(name);
    if uppered.contains(upper) {
        let i = choose|i: int| 0 <= i < uppered.len() && uppered[i] == upper;
        assert(text::ascii_uppered(keys[i]) == upper);
        lemma_same_letters(keys[i], name);
        assert(text::ascii_lowered(keys[i]) == text::ascii_lowered(name));
    }
    if exists|i: int|
        0 <= i < keys.len() && text::ascii_lowered(#[trigger] keys[i]) == text::ascii_lowered(
            name,
        ) {
        let i = choose|i: int|
            0 <= i < keys.len() && text::ascii_lowered(#[trigger] keys[i]) == text::ascii_lowered(
                name,
            );
        lemma_same_letters(keys[i], name);
        assert(uppered[i] == upper);
    }
    let none = Seq::<char>::empty();
    assert(none =~= name.subrange(0, 0));
    assert(name.skip(0) =~= name);
}

/// Two texts agree in upper case exactly where they agree in lower case.
proof fn lemma_same_letters(a: Seq<char>, b: Seq<char>)
    ensures
        text::ascii_uppered(a) == text::ascii_uppered(b) <==> text::ascii_lowered(a)
            == text::ascii_lowered(b),
{
    if text::ascii_uppered(a) == text::ascii_uppered(b) {
        assert(a.len() == text::ascii_uppered(a).len() == text::ascii_uppered(b).len() == b.len());
        assert forall|i: int| 0 <= i < a.len() implies text::ascii_lower_char(#[trigger] a[i])
            == text::ascii_lower_char(b[i]) by {
            assert(text::ascii_uppered(a)[i] == text::ascii_uppered(b)[i]);
        }
        assert(text::ascii_lowered(a) =~= text::ascii_lowered(b));
    }
    if text::ascii_lowered(a) == text::ascii_lowered(b) {
        assert(a.len() == text::ascii_lowered(a).len() == text::ascii_lowered(b).len() == b.len());
        assert forall|i: int| 0 <= i < a.len() implies text::ascii_upper_char(#[trigger] a[i])
            == text::ascii_upper_char(b[i]) by {
            assert(text::ascii_lowered(a)[i] == text::ascii_lowered(b)[i]);
        }
        assert(text::ascii_uppered(a) =~= text::ascii_uppered(b));
    }
}

/// The key has a dot for each separator, however many there are: where the rest of the
/// name is in lower case the given parts with the separator between any two, the key is
/// the parts with a dot between any two, and spells the path of the parts.
pub proof fn law_separators_nest(
    prefix: Seq<char>,
    separator: Seq<char>,
    rest: Seq<char>,
    parts: Seq<Seq<char>>,
)
    requires
        separator.len() > 0,
        text::lowercase(rest) == text::joined(parts, separator),
        text::are_between(parts, separator),
    ensures
        captured_as(Selection::Prefix(prefix), separator, prefix + rest) == Some(
            text::joined(parts, seq!['.']),
        ),
        (forall|i: int| 0 <= i < parts.len() ==> !(#[trigger] parts[i]).contains('.'))
            ==> flat::path_of(text::joined(parts, seq!['.'])) == parts,
{
    reveal_strlit(".");
    assert("."@ =~= seq!['.']);
    law_prefix_selects(prefix, prefix, separator, prefix + rest, rest);
    assert((prefix + rest).skip(prefix.len() as int) =~= rest);
    text::law_replace_joined(parts, separator, "."@);
    if forall|i: int| 0 <= i < parts.len() ==> !(#[trigger] parts[i]).contains('.') {
        text::law_join_splits(parts, '.');
    }
}

/// A variable nests at its separators: with prefix `p`, the value of the variable whose
/// name is `p` and then the words with the separator between any two stands at the path
/// of the words in lower case, however many words there are, unless a later variable
/// takes the same key.
pub proof fn law_variable_nests(
    prefix: Seq<char>,
    separator: Seq<char>,
    words: Seq<Seq<char>>,
    vars: Seq<(String, String)>,
    i: int,
    root: ConfigValue,
)
    requires
        0 <= i < vars.len(),
        vars[i].0@ == prefix + text::joined(words, separator),
        separator.len() > 0,
        text::is_ascii(separator),
        text::ascii_lowered(separator) == separator,
        forall|k: int|
            0 <= k < words.len() ==> text::is_ascii(#[trigger] words[k])
                && !words[k].contains('.'),
        text::are_between(text::lowered_words(words), separator),
        forall|j: int|
            i < j < vars.len() ==> captured_as(
                Selection::Prefix(prefix),
                separator,
                (#[trigger] vars[j]).0@,
            ) != captured_as(Selection::Prefix(prefix), separator, vars[i].0@),
        flat::expands(
            captured(Selection::Prefix(prefix), separator, vars),
            Ok::<ConfigValue, Error>(root),
        ),
    ensures
        value::lookup(root@, text::lowered_words(words)) == Some(Json::Text(vars[i].1@)),
{
    let rest = text::joined(words, separator);
    let parts = text::lowered_words(words);
    assert forall|k: int| 0 <= k < words.len() implies text::is_ascii(#[trigger] words[k]) by {
    }
    text::law_lowercase_joined(words, separator);
    assert forall|k: int| 0 <= k < parts.len() implies !(#[trigger] parts[k]).contains('.') by {
        if parts[k].contains('.') {
            let at = choose|at: int| 0 <= at < parts[k].len() && parts[k][at] == '.';
            assert(words[k][at] == '.');
            assert(words[k].contains('.'));
        }
    }
    law_separators_nest(prefix, separator, rest, parts);
    let key = text::joined(parts, seq!['.']);
    law_selected_variable_is_found(Selection::Prefix(prefix), separator, vars, i, key, root);
}

/// An empty separator stands before, between and behind all characters, so that the key
/// has a dot at every boundary of the rest of the name.
pub proof fn law_empty_separator(prefix: Seq<char>, rest: Seq<char>)
    requires
        rest.len() > 0,
        text::is_ascii(rest),
    ensures
        captured_as(Selection::Prefix(prefix), Seq::empty(), prefix + rest) == Some(
            seq!['.'] + text::joined(
                text::ascii_lowered(rest).map_values(|c: char| seq![c]),
                seq!['.'],
            ) + seq!['.'],
        ),
{
    reveal_strlit(".");
    assert("."@ =~= seq!['.']);
    law_prefix_selects(prefix, prefix, Seq::empty(), prefix + rest, rest);
    assert((prefix + rest).skip(prefix.len() as int) =~= rest);
    text::law_replace_empty(text::ascii_lowered(rest), "."@);
}

} // verus!

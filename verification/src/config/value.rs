//! The configuration tree: JSON values and the two ways of combining them,
//! lookup by path and deep merge.

use vstd::prelude::*;

use crate::text::same;

verus! {

/// A JSON number. Integers keep their sign class; a number with a fraction is
/// held as the bit pattern of an IEEE 754 double.
#[derive(Debug, Clone, Copy, PartialEq, Eq, Structural)]
pub enum Number {
    /// An integer that is zero or more.
    PosInt(u64),
    /// An integer below zero.
    NegInt(i64),
    /// The bit pattern of a double.
    Float(u64),
}

/// A JSON value.
///
/// An object is a list of entries; where a key stands in it twice, the later
/// entry is the one that counts.
#[derive(Debug)]
pub enum ConfigValue {
    /// `null`.
    Null,
    /// A boolean.
    Bool(bool),
    /// A number.
    Number(Number),
    /// A string.
    String(String),
    /// An array.
    Array(Vec<ConfigValue>),
    /// An object.
    Object(Vec<(String, ConfigValue)>),
}

/// What a [`ConfigValue`] stands for.
#[verifier::ext_equal]
pub enum Json {
    /// `null`.
    Null,
    /// A boolean.
    Bool(bool),
    /// A number.
    Number(Number),
    /// A string.
    Text(Seq<char>),
    /// An array.
    Array(Seq<Json>),
    /// An object.
    Object(Map<Seq<char>, Json>),
}

/// The tree of each element.
pub open spec fn items_of(items: Seq<ConfigValue>) -> Seq<Json>
    decreases items,
{
    if items.len() == 0 {
        Seq::empty()
    } else {
        items_of(items.drop_last()).push(items.last().view())
    }
}

/// The trees of the elements stand in the order of the elements.
pub proof fn lemma_items_of(items: Seq<ConfigValue>)
    ensures
        items_of(items).len() == items.len(),
        forall|i: int| 0 <= i < items.len() ==> #[trigger] items_of(items)[i] == items[i]@,
    decreases items.len(),
{
    if items.len() > 0 {
        lemma_items_of(items.drop_last());
    }
}

/// The map a list of entries stands for: the later of two equal keys counts.
pub open spec fn entries_of(entries: Seq<(String, ConfigValue)>) -> Map<Seq<char>, Json>
    decreases entries,
{
    if entries.len() == 0 {
        Map::empty()
    } else {
        entries_of(entries.drop_last()).insert(entries.last().0@, entries.last().1.view())
    }
}

impl ConfigValue {
    /// The tree this value stands for.
    pub open spec fn view(&self) -> Json
        decreases self,
    {
        match self {
            ConfigValue::Null => Json::Null,
            ConfigValue::Bool(b) => Json::Bool(*b),
            ConfigValue::Number(n) => Json::Number(*n),
            ConfigValue::String(s) => Json::Text(s@),
            ConfigValue::Array(items) => Json::Array(items_of(items@)),
            ConfigValue::Object(entries) => Json::Object(entries_of(entries@)),
        }
    }
}

/// The position of the entry that counts for `key`, or -1.
pub open spec fn entry_at(entries: Seq<(String, ConfigValue)>, key: Seq<char>) -> int
    decreases entries.len(),
{
    if entries.len() == 0 {
        -1
    } else if entries.last().0@ == key {
        entries.len() - 1
    } else {
        entry_at(entries.drop_last(), key)
    }
}

/// The map of the entries holds exactly the keys of the list, each with the
/// value of its last entry.
pub proof fn lemma_entry_at(entries: Seq<(String, ConfigValue)>, key: Seq<char>)
    ensures
        -1 <= entry_at(entries, key) < entries.len(),
        entry_at(entries, key) >= 0 <==> entries_of(entries).dom().contains(key),
        entry_at(entries, key) >= 0 ==> entries[entry_at(entries, key)].0@ == key && entries_of(
            entries,
        )[key] == entries[entry_at(entries, key)].1@,
        forall|i: int|
            entry_at(entries, key) < i < entries.len() ==> (#[trigger] entries[i]).0@ != key,
    decreases entries.len(),
{
    if entries.len() > 0 && entries.last().0@ != key {
        lemma_entry_at(entries.drop_last(), key);
        assert forall|i: int| entry_at(entries, key) < i < entries.len() implies (
        #[trigger] entries[i]).0@ != key by {
            if i < entries.len() - 1 {
                assert(entries.drop_last()[i] == entries[i]);
            }
        }
    }
}

/// Replacing the entry that counts for a key is an insertion into the map.
proof fn lemma_entries_update(entries: Seq<(String, ConfigValue)>, key: String, value: ConfigValue)
    requires
        entry_at(entries, key@) >= 0,
    ensures
        entries_of(entries.update(entry_at(entries, key@), (key, value))) == entries_of(
            entries,
        ).insert(key@, value@),
    decreases entries.len(),
{
    let at = entry_at(entries, key@);
    let changed = entries.update(at, (key, value));
    lemma_entry_at(entries, key@);
    if entries.last().0@ == key@ {
        assert(changed.drop_last() =~= entries.drop_last());
        assert(entries_of(changed) =~= entries_of(entries).insert(key@, value@));
    } else {
        let shorter = entries.drop_last();
        lemma_entry_at(shorter, key@);
        lemma_entries_update(shorter, key, value);
        assert(changed.drop_last() =~= shorter.update(at, (key, value)));
        assert(changed.last() == entries.last());
        assert(entries_of(changed) =~= entries_of(entries).insert(key@, value@));
    }
}

/// The position of the entry that counts for `key`.
fn find_entry(entries: &Vec<(String, ConfigValue)>, key: &str) -> (at: Option<usize>)
    ensures
        match at {
            Some(i) => i == entry_at(entries@, key@),
            None => entry_at(entries@, key@) == -1,
        },
{
    let mut i: usize = entries.len();
    proof {
        assert(entries@.take(i as int) =~= entries@);
    }
    while i > 0
        invariant
            i <= entries@.len(),
            entry_at(entries@, key@) == entry_at(entries@.take(i as int), key@),
        decreases i,
    {
        proof {
            assert(entries@.take(i as int).drop_last() =~= entries@.take(i - 1));
        }
        i = i - 1;
        if same(entries[i].0.as_str(), key) {
            return Some(i);
        }
    }
    None
}

/// The member of an object under `key`, where the value is an object that has one.
pub open spec fn child(json: Json, key: Seq<char>) -> Option<Json> {
    match json {
        Json::Object(map) => if map.dom().contains(key) {
            Some(map[key])
        } else {
            None
        },
        _ => None,
    }
}

/// The value reached from `json` by following `path` from object to object.
pub open spec fn lookup(json: Json, path: Seq<Seq<char>>) -> Option<Json>
    decreases path.len(),
{
    if path.len() == 0 {
        Some(json)
    } else {
        match child(json, path[0]) {
            Some(next) => lookup(next, path.skip(1)),
            None => None,
        }
    }
}

/// `other` laid over `target`: objects combine key by key, anything else of
/// `other` replaces what `target` has.
pub open spec fn merged(target: Json, other: Json) -> Json
    decreases other,
{
    match (target, other) {
        (Json::Object(t), Json::Object(o)) => Json::Object(
            Map::new(
                |k: Seq<char>| t.dom().contains(k) || o.dom().contains(k),
                |k: Seq<char>|
                    if !o.dom().contains(k) {
                        t[k]
                    } else if !t.dom().contains(k) {
                        o[k]
                    } else {
                        merged(t[k], o[k])
                    },
            ),
        ),
        _ => other,
    }
}

impl Clone for ConfigValue {
    /// A copy standing for the same tree.
    fn clone(&self) -> (copy: Self)
        ensures
            copy@ == self@,
        decreases self,
    {
        match self {
            ConfigValue::Null => ConfigValue::Null,
            ConfigValue::Bool(b) => ConfigValue::Bool(*b),
            ConfigValue::Number(n) => ConfigValue::Number(*n),
            ConfigValue::String(s) => ConfigValue::String(s.clone()),
            ConfigValue::Array(items) => {
                let mut copies: Vec<ConfigValue> = Vec::new();
                let mut i: usize = 0;
                while i < items.len()
                    invariant
                        i <= items@.len(),
                        *self == ConfigValue::Array(*items),
                        items_of(copies@) == items_of(items@.take(i as int)),
                    decreases items.len() - i,
                {
                    proof {
                        assert(decreases_to!(self => self->Array_0));
                        assert(decreases_to!(items@ => items@[i as int]));
                    }
                    let item: ConfigValue = items[i].clone();
                    let ghost before = copies@;
                    copies.push(item);
                    proof {
                        assert(copies@.drop_last() =~= before);
                        assert(items@.take(i + 1).drop_last() =~= items@.take(i as int));
                    }
                    i = i + 1;
                }
                proof {
                    assert(items@.take(i as int) =~= items@);
                }
                ConfigValue::Array(copies)
            },
            ConfigValue::Object(entries) => {
                let mut copies: Vec<(String, ConfigValue)> = Vec::new();
                let mut i: usize = 0;
                while i < entries.len()
                    invariant
                        i <= entries@.len(),
                        *self == ConfigValue::Object(*entries),
                        entries_of(copies@) == entries_of(entries@.take(i as int)),
                    decreases entries.len() - i,
                {
                    let key: String = entries[i].0.clone();
                    proof {
                        assert(decreases_to!(self => self->Object_0));
                        assert(decreases_to!(entries@ => entries@[i as int]));
                        assert(decreases_to!(entries@[i as int] => entries@[i as int].1));
                    }
                    let item: ConfigValue = entries[i].1.clone();
                    let ghost before = copies@;
                    copies.push((key, item));
                    proof {
                        assert(copies@.drop_last() =~= before);
                        assert(entries@.take(i + 1).drop_last() =~= entries@.take(i as int));
                    }
                    i = i + 1;
                }
                proof {
                    assert(entries@.take(i as int) =~= entries@);
                }
                ConfigValue::Object(copies)
            },
        }
    }
}

/// The text of a JSON string.
pub open spec fn text_of(json: Json) -> Option<Seq<char>> {
    match json {
        Json::Text(s) => Some(s),
        _ => None,
    }
}

/// The number of a JSON integer that is zero or more.
pub open spec fn u64_of(json: Json) -> Option<u64> {
    match json {
        Json::Number(Number::PosInt(n)) => Some(n),
        _ => None,
    }
}

/// The truth value of a JSON boolean.
pub open spec fn bool_of(json: Json) -> Option<bool> {
    match json {
        Json::Bool(b) => Some(b),
        _ => None,
    }
}

/// The tree of a value that may be absent.
pub open spec fn json_opt(value: Option<&ConfigValue>) -> Option<Json> {
    match value {
        Some(v) => Some(v@),
        None => None,
    }
}

impl ConfigValue {
    /// The member under `key`, where this is an object that has one.
    pub fn get(&self, key: &str) -> (member: Option<&ConfigValue>)
        ensures
            json_opt(member) == child(self@, key@),
    {
        match self {
            ConfigValue::Object(entries) => {
                proof {
                    lemma_entry_at(entries@, key@);
                }
                match find_entry(entries, key) {
                    Some(i) => Some(&entries[i].1),
                    None => None,
                }
            },
            _ => None,
        }
    }

    /// The text, where this is a string.
    pub fn as_str(&self) -> (text: Option<&str>)
        ensures
            match text {
                Some(s) => text_of(self@) == Some(s@),
                None => text_of(self@) is None,
            },
    {
        match self {
            ConfigValue::String(s) => Some(s.as_str()),
            _ => None,
        }
    }

    /// The number, where this is an integer that is zero or more.
    pub fn as_u64(&self) -> (number: Option<u64>)
        ensures
            number == u64_of(self@),
    {
        match self {
            ConfigValue::Number(Number::PosInt(n)) => Some(*n),
            _ => None,
        }
    }

    /// The truth value, where this is a boolean.
    pub fn as_bool(&self) -> (truth: Option<bool>)
        ensures
            truth == bool_of(self@),
    {
        match self {
            ConfigValue::Bool(b) => Some(*b),
            _ => None,
        }
    }

    /// An object without members.
    pub fn empty_object() -> (object: ConfigValue)
        ensures
            object@ == Json::Object(Map::empty()),
    {
        ConfigValue::Object(Vec::new())
    }
}

/// Whether `p` leads the way to `q`: `q` begins with the parts of `p`.
pub open spec fn leads(p: Seq<Seq<char>>, q: Seq<Seq<char>>) -> bool {
    p.len() <= q.len() && (forall|i: int| 0 <= i < p.len() ==> #[trigger] p[i] == q[i])
}

/// Whether a text can be put at `path` below an object: nothing but objects stands
/// on the way there.
pub open spec fn fits(json: Json, path: Seq<Seq<char>>) -> bool
    decreases path.len(),
{
    path.len() <= 1 || (match child(json, path[0]) {
        Some(next) => next is Object && fits(next, path.skip(1)),
        None => true,
    })
}

/// `json`, an object, with `text` at `path`; the objects on the way are made where
/// they are missing.
pub open spec fn inserted(json: Json, path: Seq<Seq<char>>, text: Seq<char>) -> Json
    decreases path.len(),
{
    let map = json->Object_0;
    if path.len() <= 1 {
        Json::Object(map.insert(path[0], Json::Text(text)))
    } else {
        let next = if map.dom().contains(path[0]) {
            map[path[0]]
        } else {
            Json::Object(Map::empty())
        };
        Json::Object(map.insert(path[0], inserted(next, path.skip(1), text)))
    }
}

/// A text fits at a path exactly where no value other than an object stands on the
/// way.
pub proof fn lemma_fits(json: Json, path: Seq<Seq<char>>)
    requires
        json is Object,
        path.len() > 0,
    ensures
        fits(json, path) <==> (forall|n: int|
            0 < n < path.len() ==> match #[trigger] lookup(json, path.take(n)) {
                Some(found) => found is Object,
                None => true,
            }),
    decreases path.len(),
{
    if path.len() > 1 {
        match child(json, path[0]) {
            Some(next) => {
                let rest = path.skip(1);
                assert(path.take(1).skip(1) =~= Seq::<Seq<char>>::empty());
                assert(path.take(1)[0] == path[0]);
                assert(lookup(next, path.take(1).skip(1)) == Some(next));
                assert(lookup(json, path.take(1)) == Some(next));
                if next is Object {
                    lemma_fits(next, rest);
                    assert forall|n: int| 0 < n < rest.len() implies lookup(
                        next,
                        #[trigger] rest.take(n),
                    ) == lookup(json, path.take(n + 1)) by {
                        assert(path.take(n + 1).skip(1) =~= rest.take(n));
                    }
                    assert forall|n: int| 1 < n < path.len() implies #[trigger] lookup(
                        json,
                        path.take(n),
                    ) == lookup(next, rest.take(n - 1)) by {
                        assert(path.take(n).skip(1) =~= rest.take(n - 1));
                    }
                    if fits(json, path) {
                        assert forall|n: int| 0 < n < path.len() implies match #[trigger] lookup(
                            json,
                            path.take(n),
                        ) {
                            Some(found) => found is Object,
                            None => true,
                        } by {
                            if n > 1 {
                                assert(lookup(json, path.take(n)) == lookup(next, rest.take(n - 1)));
                            }
                        }
                    } else {
                        let n = choose|n: int|
                            0 < n < rest.len() && !(match #[trigger] lookup(next, rest.take(n)) {
                                Some(found) => found is Object,
                                None => true,
                            });
                        assert(lookup(json, path.take(n + 1)) == lookup(next, rest.take(n)));
                    }
                }
            },
            None => {
                assert forall|n: int| 0 < n < path.len() implies #[trigger] lookup(
                    json,
                    path.take(n),
                ) is None by {
                    assert(path.take(n)[0] == path[0]);
                }
            },
        }
    }
}

/// What a lookup finds after an insertion: the text at its path, an object on the
/// way there, nothing below it, and everything else as before.
pub proof fn lemma_inserted_lookup(
    json: Json,
    path: Seq<Seq<char>>,
    text: Seq<char>,
    q: Seq<Seq<char>>,
)
    requires
        json is Object,
        path.len() > 0,
        fits(json, path),
    ensures
        inserted(json, path, text) is Object,
        q == path ==> lookup(inserted(json, path, text), q) == Some(Json::Text(text)),
        leads(q, path) && q.len() < path.len() ==> lookup(inserted(json, path, text), q) is Some
            && lookup(inserted(json, path, text), q)->0 is Object,
        leads(path, q) && path.len() < q.len() ==> lookup(inserted(json, path, text), q) is None,
        !leads(q, path) && !leads(path, q) ==> lookup(inserted(json, path, text), q) == lookup(
            json,
            q,
        ),
    decreases path.len(),
{
    let after = inserted(json, path, text);
    if q.len() > 0 && q[0] == path[0] {
        let rest = q.skip(1);
        if path.len() == 1 {
            assert(child(after, q[0]) == Some(Json::Text(text)));
            assert(leads(path, q));
            if q.len() == 1 {
                assert(q =~= path);
            } else {
                assert(lookup(Json::Text(text), rest) is None);
            }
        } else {
            let map = json->Object_0;
            let next = if map.dom().contains(path[0]) {
                map[path[0]]
            } else {
                Json::Object(Map::empty())
            };
            let tail = path.skip(1);
            lemma_inserted_lookup(next, tail, text, rest);
            assert(child(after, q[0]) == Some(inserted(next, tail, text)));
            assert(q == path ==> rest == tail);
            assert(leads(q, path) ==> leads(rest, tail));
            assert(leads(path, q) ==> leads(tail, rest));
            if leads(rest, tail) {
                assert forall|i: int| 0 <= i < q.len() implies #[trigger] q[i] == path[i] by {
                    if i > 0 {
                        assert(rest[i - 1] == tail[i - 1]);
                    }
                }
            }
            if leads(tail, rest) {
                assert forall|i: int| 0 <= i < path.len() implies #[trigger] path[i] == q[i] by {
                    if i > 0 {
                        assert(tail[i - 1] == rest[i - 1]);
                    }
                }
            }
        }
    } else if q.len() > 0 {
        assert(child(after, q[0]) == child(json, q[0]));
        assert(!leads(q, path)) by {
            if leads(q, path) {
                assert(q[0] == path[0]);
            }
        }
        assert(!leads(path, q)) by {
            if leads(path, q) {
                assert(path[0] == q[0]);
            }
        }
    } else {
        assert(leads(q, path));
    }
}

/// Put `text` at the path `parts[from..]` below `target`, an object, making the
/// objects on the way. Fails where a value other than an object stands on it.
pub(crate) fn insert_at(
    target: &mut ConfigValue,
    parts: &Vec<String>,
    from: usize,
    text: String,
) -> (done: bool)
    requires
        old(target)@ is Object,
        from < parts@.len(),
    ensures
        done == fits(old(target)@, crate::text::views(parts@).skip(from as int)),
        done ==> final(target)@ == inserted(
            old(target)@,
            crate::text::views(parts@).skip(from as int),
            text@,
        ),
    decreases parts@.len() - from,
{
    let ghost path = crate::text::views(parts@).skip(from as int);
    let ghost rest = crate::text::views(parts@).skip(from + 1);
    proof {
        assert(path.skip(1) =~= rest);
    }
    let last: bool = from == parts.len() - 1;
    let key: &String = &parts[from];
    match target {
        ConfigValue::Object(entries) => {
            let ghost before = entries@;
            proof {
                lemma_entry_at(before, key@);
            }
            match find_entry(entries, key.as_str()) {
                Some(j) => {
                    if last {
                        entries[j].1 = ConfigValue::String(text);
                        proof {
                            lemma_entries_update(before, entries@[j as int].0, entries@[j as int].1);
                            assert(entries@ =~= before.update(j as int, entries@[j as int]));
                        }
                        true
                    } else {
                        let is_object: bool = match &entries[j].1 {
                            ConfigValue::Object(_) => true,
                            _ => false,
                        };
                        if !is_object {
                            return false;
                        }
                        let done: bool = insert_at(&mut entries[j].1, parts, from + 1, text);
                        proof {
                            lemma_entries_update(before, entries@[j as int].0, entries@[j as int].1);
                            assert(entries@ =~= before.update(j as int, entries@[j as int]));
                        }
                        done
                    }
                },
                None => {
                    if last {
                        entries.push((key.clone(), ConfigValue::String(text)));
                        proof {
                            assert(entries@.drop_last() =~= before);
                        }
                        true
                    } else {
                        let mut next: ConfigValue = ConfigValue::empty_object();
                        let done: bool = insert_at(&mut next, parts, from + 1, text);
                        proof {
                            assert(done) by {
                                lemma_fits(Json::Object(Map::empty()), rest);
                                assert forall|n: int| 0 < n < rest.len() implies #[trigger] lookup(
                                    Json::Object(Map::empty()),
                                    rest.take(n),
                                ) is None by {}
                            }
                        }
                        entries.push((key.clone(), next));
                        proof {
                            assert(entries@.drop_last() =~= before);
                        }
                        done
                    }
                },
            }
        },
        _ => false,
    }
}

/// `t` after the entries of `o` before position `upto` have been laid over it.
spec fn merged_upto(
    t: Map<Seq<char>, Json>,
    o: Seq<(String, ConfigValue)>,
    upto: int,
) -> Map<Seq<char>, Json> {
    Map::new(
        |k: Seq<char>| t.dom().contains(k) || 0 <= entry_at(o, k) < upto,
        |k: Seq<char>|
            if !(0 <= entry_at(o, k) < upto) {
                t[k]
            } else if !t.dom().contains(k) {
                entries_of(o)[k]
            } else {
                merged(t[k], entries_of(o)[k])
            },
    )
}

proof fn lemma_merged_upto_all(t: Map<Seq<char>, Json>, o: Seq<(String, ConfigValue)>)
    ensures
        Json::Object(merged_upto(t, o, o.len() as int)) == merged(
            Json::Object(t),
            Json::Object(entries_of(o)),
        ),
{
    let whole = merged(Json::Object(t), Json::Object(entries_of(o)))->Object_0;
    assert forall|k: Seq<char>| 0 <= entry_at(o, k) < o.len() <==> entries_of(o).dom().contains(
        k,
    ) by {
        lemma_entry_at(o, k);
    }
    assert(merged_upto(t, o, o.len() as int) =~= whole);
}

/// Lay `other` over `target`, combining objects key by key.
///
/// Scalars and arrays of `other` replace what `target` has; arrays are replaced
/// whole, never concatenated. Keys of `target` that `other` does not name stay.
pub fn deep_merge(target: &mut ConfigValue, other: &ConfigValue)
    ensures
        final(target)@ == merged(old(target)@, other@),
    decreases other,
{
    match other {
        ConfigValue::Object(o) => {
            match target {
                ConfigValue::Object(t) => {
                    let ghost t0 = entries_of(t@);
                    let mut i: usize = 0;
                    proof {
                        assert(entries_of(t@) =~= merged_upto(t0, o@, 0));
                    }
                    while i < o.len()
                        invariant
                            i <= o@.len(),
                            *other == ConfigValue::Object(*o),
                            entries_of(t@) == merged_upto(t0, o@, i as int),
                        decreases o.len() - i,
                    {
                        let key: &String = &o[i].0;
                        proof {
                            assert(decreases_to!(other => other->Object_0));
                            assert(decreases_to!(o@ => o@[i as int]));
                            assert(decreases_to!(o@[i as int] => o@[i as int].1));
                            lemma_entry_at(o@, key@);
                            lemma_entry_at(t@, key@);
                        }
                        let ghost t_before = t@;
                        let last: Option<usize> = find_entry(o, key.as_str());
                        if last == Some(i) {
                            match find_entry(t, key.as_str()) {
                                Some(j) => {
                                    deep_merge(&mut t[j].1, &o[i].1);
                                    proof {
                                        lemma_entries_update(t_before, t@[j as int].0, t@[j as int].1);
                                        assert(t@ =~= t_before.update(j as int, t@[j as int]));
                                    }
                                },
                                None => {
                                    t.push((key.clone(), o[i].1.clone()));
                                    proof {
                                        assert(t@.drop_last() =~= t_before);
                                    }
                                },
                            }
                        }
                        proof {
                            assert forall|k: Seq<char>|
                                #[trigger] entry_at(o@, k) == i implies k == key@ by {
                                lemma_entry_at(o@, k);
                            }
                            assert(entries_of(t@) =~= merged_upto(t0, o@, i + 1));
                        }
                        i = i + 1;
                    }
                    proof {
                        lemma_merged_upto_all(t0, o@);
                    }
                },
                _ => {
                    *target = other.clone();
                },
            }
        },
        _ => {
            *target = other.clone();
        },
    }
}

/// Following a path is following its parts: a path leads where its second half leads
/// from where its first half leads. The empty path leads to the tree itself, a path of
/// one key to the member under that key, and from anything but an object no key leads
/// anywhere.
pub proof fn law_lookup_follows(json: Json, front: Seq<Seq<char>>, back: Seq<Seq<char>>)
    ensures
        lookup(json, Seq::empty()) == Some(json),
        lookup(json, front + back) == (match lookup(json, front) {
            Some(next) => lookup(next, back),
            None => None,
        }),
        front.len() == 1 ==> lookup(json, front) == (match json {
            Json::Object(members) => if members.dom().contains(front[0]) {
                Some(members[front[0]])
            } else {
                None
            },
            _ => None,
        }),
    decreases front.len(),
{
    if front.len() == 0 {
        assert(front + back =~= back);
    } else {
        assert((front + back).skip(1) =~= front.skip(1) + back);
        match child(json, front[0]) {
            Some(next) => {
                law_lookup_follows(next, front.skip(1), back);
                if front.len() == 1 {
                    assert(front.skip(1) =~= Seq::<Seq<char>>::empty());
                    assert(lookup(next, front.skip(1)) == Some(next));
                }
            },
            None => {},
        }
    }
}

/// A value reads as a type exactly where it is of that type, and as what it holds: a text
/// only from a string, a number only from an integer that is zero or more, a truth only
/// from a boolean. Nothing is converted.
pub proof fn law_reads_by_type(json: Json, s: Seq<char>, n: u64, b: bool)
    ensures
        text_of(json) == Some(s) <==> json == Json::Text(s),
        text_of(json) is Some <==> json is Text,
        u64_of(json) == Some(n) <==> json == Json::Number(Number::PosInt(n)),
        u64_of(json) is Some <==> (json is Number && json->Number_0 is PosInt),
        bool_of(json) == Some(b) <==> json == Json::Bool(b),
        bool_of(json) is Some <==> json is Bool,
{
}

/// The later of two equal keys of an object counts, and an object has no key but those of
/// its entries.
pub proof fn law_later_entry_counts(
    entries: Seq<(String, ConfigValue)>,
    i: int,
    key: Seq<char>,
)
    requires
        0 <= i < entries.len(),
        forall|j: int| i < j < entries.len() ==> (#[trigger] entries[j]).0@ != entries[i].0@,
    ensures
        entries_of(entries).dom().contains(entries[i].0@),
        entries_of(entries)[entries[i].0@] == entries[i].1@,
        entries_of(entries).dom().contains(key) ==> exists|j: int|
            0 <= j < entries.len() && (#[trigger] entries[j]).0@ == key,
{
    lemma_entry_at(entries, entries[i].0@);
    lemma_entry_at(entries, key);
    let at = entry_at(entries, entries[i].0@);
    if at < i {
        assert(entries[i].0@ != entries[i].0@);
    } else if i < at {
        assert(entries[at].0@ != entries[i].0@);
    }
    if entries_of(entries).dom().contains(key) {
        assert(entries[entry_at(entries, key)].0@ == key);
    }
}

/// A value stands for the tree of the same kind that holds the same: a scalar for itself,
/// an array for the trees of its elements in their order.
pub proof fn law_values_stand_for_themselves(
    b: bool,
    n: Number,
    s: String,
    items: Vec<ConfigValue>,
    entries: Vec<(String, ConfigValue)>,
)
    ensures
        ConfigValue::Null@ == Json::Null,
        ConfigValue::Bool(b)@ == Json::Bool(b),
        ConfigValue::Number(n)@ == Json::Number(n),
        ConfigValue::String(s)@ == Json::Text(s@),
        ConfigValue::Array(items)@ == Json::Array(
            Seq::new(items@.len(), |i: int| items@[i]@),
        ),
        ConfigValue::Object(entries)@ == Json::Object(entries_of(entries@)),
{
    lemma_items_of(items@);
    assert(items_of(items@) =~= Seq::new(items@.len(), |i: int| items@[i]@));
}

} // verus!

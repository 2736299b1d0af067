//! The merged, cached configuration store.

use vstd::prelude::*;

use crate::config::builder::{self, AnySource, ConfigBuilder};
use crate::config::error::Error;
use crate::config::value::{self, deep_merge, Json, ConfigValue};
use crate::text::{self, split_at_char};

verus! {

broadcast use vstd::string::group_string_axioms;

/// Whether `json` says nothing about `path`: following the path from object to
/// object ends at a key that is not there.
pub open spec fn silent(json: Json, path: Seq<Seq<char>>) -> bool
    decreases path.len(),
{
    path.len() > 0 && json is Object && (match value::child(json, path[0]) {
        Some(next) => silent(next, path.skip(1)),
        None => true,
    })
}

/// The trees of the sources merged, the first one having the highest precedence.
pub open spec fn merged_all(values: Seq<Json>) -> Json
    decreases values.len(),
{
    if values.len() == 0 {
        Json::Object(Map::empty())
    } else {
        value::merged(merged_all(values.skip(1)), values[0])
    }
}

/// Overriding: what is laid over wins. A value other than an object that `other`
/// holds at a path is what the merge holds there.
pub proof fn law_merge_overrides(target: Json, other: Json, path: Seq<Seq<char>>)
    requires
        value::lookup(other, path) is Some,
        value::lookup(other, path)->0 !is Object,
    ensures
        value::lookup(value::merged(target, other), path) == value::lookup(other, path),
    decreases path.len(),
{
    if path.len() > 0 && target is Object {
        let next = value::child(other, path[0])->0;
        match value::child(target, path[0]) {
            Some(below) => law_merge_overrides(below, next, path.skip(1)),
            None => {},
        }
    }
}

/// Deep merging: a path that `other` says nothing about keeps what `target` had
/// there, even where `other` holds siblings of it.
pub proof fn law_merge_keeps(target: Json, other: Json, path: Seq<Seq<char>>)
    requires
        silent(other, path),
    ensures
        value::lookup(value::merged(target, other), path) == value::lookup(target, path),
    decreases path.len(),
{
    if target is Object {
        match (value::child(target, path[0]), value::child(other, path[0])) {
            (Some(below), Some(next)) => law_merge_keeps(below, next, path.skip(1)),
            (None, Some(next)) => lemma_silent_absent(next, path.skip(1)),
            _ => {},
        }
    } else {
        lemma_silent_absent(other, path);
    }
}

/// A tree that says nothing about a path holds nothing there.
proof fn lemma_silent_absent(json: Json, path: Seq<Seq<char>>)
    requires
        silent(json, path),
    ensures
        value::lookup(json, path) is None,
    decreases path.len(),
{
    match value::child(json, path[0]) {
        Some(next) => lemma_silent_absent(next, path.skip(1)),
        None => {},
    }
}

/// Nested objects combine: where both trees hold an object at a path, the merge
/// holds the merge of the two.
pub proof fn law_merge_combines(target: Json, other: Json, path: Seq<Seq<char>>)
    requires
        value::lookup(target, path) is Some,
        value::lookup(other, path) is Some,
    ensures
        value::lookup(value::merged(target, other), path) == Some(
            value::merged(value::lookup(target, path)->0, value::lookup(other, path)->0),
        ),
    decreases path.len(),
{
    if path.len() > 0 {
        law_merge_combines(
            value::child(target, path[0])->0,
            value::child(other, path[0])->0,
            path.skip(1),
        );
    }
}

/// A source without members changes nothing.
pub proof fn law_merge_empty(target: Json)
    requires
        target is Object,
    ensures
        value::merged(target, Json::Object(Map::empty())) == target,
{
    assert(value::merged(target, Json::Object(Map::empty()))->Object_0 =~= target->Object_0);
}

/// Merging the same source twice is merging it once.
pub proof fn law_merge_idempotent(target: Json, other: Json)
    ensures
        value::merged(value::merged(target, other), other) == value::merged(target, other),
    decreases other,
{
    match (target, other) {
        (Json::Object(t), Json::Object(o)) => {
            let once = value::merged(target, other)->Object_0;
            let twice = value::merged(value::merged(target, other), other)->Object_0;
            assert forall|k: Seq<char>| once.dom().contains(k) implies twice[k] == once[k] by {
                if o.dom().contains(k) {
                    if t.dom().contains(k) {
                        law_merge_idempotent(t[k], o[k]);
                    } else {
                        lemma_merge_self(o[k]);
                    }
                }
            }
            assert(twice =~= once);
        },
        (_, Json::Object(o)) => {
            lemma_merge_self(other);
        },
        _ => {},
    }
}

proof fn lemma_merge_self(json: Json)
    ensures
        value::merged(json, json) == json,
    decreases json,
{
    match json {
        Json::Object(o) => {
            let m = value::merged(json, json)->Object_0;
            assert forall|k: Seq<char>| o.dom().contains(k) implies m[k] == o[k] by {
                lemma_merge_self(o[k]);
            }
            assert(m =~= o);
        },
        _ => {},
    }
}

/// The merge of any number of sources is an object where each source is one.
pub proof fn law_merge_all_is_object(values: Seq<Json>)
    requires
        forall|i: int| 0 <= i < values.len() ==> (#[trigger] values[i]) is Object,
    ensures
        merged_all(values) is Object,
    decreases values.len(),
{
    if values.len() > 0 {
        assert forall|i: int| 0 <= i < values.skip(1).len() implies (
        #[trigger] values.skip(1)[i]) is Object by {
            assert(values.skip(1)[i] == values[i + 1]);
        }
        law_merge_all_is_object(values.skip(1));
    }
}

/// Precedence: the first source that holds a value other than an object at a path
/// decides it, provided every source of higher precedence says nothing about the
/// path. What lies below does not matter.
pub proof fn law_precedence(values: Seq<Json>, path: Seq<Seq<char>>, i: int)
    requires
        0 <= i < values.len(),
        value::lookup(values[i], path) is Some,
        value::lookup(values[i], path)->0 !is Object,
        forall|j: int| 0 <= j < i ==> silent(#[trigger] values[j], path),
    ensures
        value::lookup(merged_all(values), path) == value::lookup(values[i], path),
    decreases values.len(),
{
    let rest = values.skip(1);
    if i == 0 {
        law_merge_overrides(merged_all(rest), values[0], path);
    } else {
        assert(rest[i - 1] == values[i]);
        assert forall|j: int| 0 <= j < i - 1 implies silent(#[trigger] rest[j], path) by {
            assert(rest[j] == values[j + 1]);
        }
        law_precedence(rest, path, i - 1);
        law_merge_keeps(merged_all(rest), values[0], path);
    }
}

/// A path that every source is silent about is absent from the merge.
pub proof fn law_absent_everywhere(values: Seq<Json>, path: Seq<Seq<char>>)
    requires
        path.len() > 0,
        forall|j: int| 0 <= j < values.len() ==> silent(#[trigger] values[j], path),
    ensures
        value::lookup(merged_all(values), path) is None,
    decreases values.len(),
{
    if values.len() > 0 {
        let rest = values.skip(1);
        assert forall|j: int| 0 <= j < rest.len() implies silent(#[trigger] rest[j], path) by {
            assert(rest[j] == values[j + 1]);
        }
        law_absent_everywhere(rest, path);
        law_merge_keeps(merged_all(rest), values[0], path);
    }
}

/// The merge of a store's sources, one load at a time.
///
/// Sources are loaded from the lowest precedence to the highest, so that each is
/// laid over what came before it. The caller loads the source [`MergeAll::next`]
/// names and hands the outcome to [`MergeAll::step`], until nothing is left.
#[derive(Debug)]
pub struct MergeAll {
    merged: ConfigValue,
    remaining: usize,
}

impl MergeAll {
    /// The merge of the sources loaded so far.
    pub closed spec fn tree(&self) -> Json {
        self.merged@
    }

    /// How many sources are still to be loaded.
    pub closed spec fn left(&self) -> nat {
        self.remaining as nat
    }

    /// Start merging `count` sources.
    pub fn new(count: usize) -> (merge: MergeAll)
        ensures
            merge.left() == count,
            merge.tree() == merged_all(Seq::empty()),
    {
        MergeAll { merged: ConfigValue::empty_object(), remaining: count }
    }

    /// The position, in precedence order, of the source to load next.
    pub fn next(&self) -> (index: Option<usize>)
        ensures
            match index {
                Some(i) => i + 1 == self.left(),
                None => self.left() == 0,
            },
    {
        if self.remaining == 0 {
            None
        } else {
            Some(self.remaining - 1)
        }
    }

    /// Take in what loading the next source gave. A failure ends the merge.
    pub fn step(self, loaded: Result<ConfigValue, Error>) -> (next: Result<MergeAll, Error>)
        requires
            self.left() > 0,
        ensures
            match loaded {
                Ok(loaded) => next is Ok && next->Ok_0.left() == self.left() - 1
                    && next->Ok_0.tree() == value::merged(self.tree(), loaded@),
                Err(e) => next == Err::<MergeAll, Error>(e),
            },
    {
        match loaded {
            Ok(loaded) => {
                let mut merged: ConfigValue = self.merged;
                deep_merge(&mut merged, &loaded);
                Ok(MergeAll { merged, remaining: self.remaining - 1 })
            },
            Err(e) => Err(e),
        }
    }

    /// The merged configuration.
    pub fn finish(self) -> (merged: ConfigValue)
        ensures
            merged@ == self.tree(),
    {
        self.merged
    }
}

/// The trees of values that loaded.
pub open spec fn trees(loads: Seq<Result<ConfigValue, Error>>) -> Seq<Json> {
    loads.map_values(|load: Result<ConfigValue, Error>| load->Ok_0@)
}

/// Merge what the sources gave, in precedence order: the first has the highest
/// precedence.
///
/// Sources are taken from the last to the first, so the failure reported is that
/// of the last source that failed.
pub fn merge_all(
    loads: Vec<Result<ConfigValue, Error>>,
) -> (merged: Result<ConfigValue, Error>)
    ensures
        match merged {
            Ok(value) => merges(loads@, Ok(value@)),
            Err(e) => merges(loads@, Err(e)),
        },
{
    let ghost given = loads@;
    let mut merge: MergeAll = MergeAll::new(loads.len());
    let mut pending: Vec<Result<ConfigValue, Error>> = loads;
    proof {
        assert(trees(given).skip(given.len() as int) =~= Seq::<Json>::empty());
    }
    while pending.len() > 0
        invariant
            given == loads@,
            pending@.len() <= given.len(),
            pending@ == given.take(pending@.len() as int),
            forall|i: int| pending@.len() <= i < given.len() ==> (#[trigger] given[i]) is Ok,
            merge.left() == pending@.len(),
            merge.tree() == merged_all(trees(given).skip(pending@.len() as int)),
        decreases pending.len(),
    {
        let load: Option<Result<ConfigValue, Error>> = pending.pop();
        match load {
            Some(load) => {
                proof {
                    let n = pending@.len() as int;
                    assert(load == given[n]);
                    assert(trees(given).skip(n).skip(1) =~= trees(given).skip(n + 1));
                    assert(pending@ =~= given.take(n));
                }
                match merge.step(load) {
                    Ok(next) => {
                        merge = next;
                    },
                    Err(e) => {
                        proof {
                            assert(given[pending@.len() as int] == Err::<ConfigValue, Error>(e));
                        }
                        return Err(e);
                    },
                }
            },
            None => {
                return Ok(merge.finish());
            },
        }
    }
    proof {
        assert(trees(given).skip(0) =~= trees(given));
    }
    Ok(merge.finish())
}

/// Whether `merged` is what the loads of a store's sources merge into: the merge, or
/// the failure of the last source that failed.
pub open spec fn merges(
    loads: Seq<Result<ConfigValue, Error>>,
    merged: Result<Json, Error>,
) -> bool {
    match merged {
        Ok(tree) => (forall|i: int| 0 <= i < loads.len() ==> (#[trigger] loads[i]) is Ok) && tree
            == merged_all(trees(loads)),
        Err(e) => exists|i: int|
            0 <= i < loads.len() && #[trigger] loads[i] == Err::<ConfigValue, Error>(e) && (forall|j: int|
                i < j < loads.len() ==> (#[trigger] loads[j]) is Ok),
    }
}

/// Whether `store` is what building from the registered sources and their loads
/// gives: a store with the sources in precedence order and the merge of the loads, or
/// the failure.
pub open spec fn builds(
    registered: Seq<AnySource>,
    loads: Seq<Result<ConfigValue, Error>>,
    store: Result<Store, Error>,
) -> bool {
    match store {
        Ok(store) => {
            &&& builder::in_order(store.sources())
            &&& store.sources().len() == registered.len()
            &&& forall|rank: u32|
                #[trigger] builder::at_rank(store.sources(), rank) == builder::at_rank(
                    registered,
                    rank,
                )
            &&& merges(loads, Ok(store.tree()))
        },
        Err(e) => merges(loads, Err(e)),
    }
}

/// Central configuration store that merges multiple sources and caches the result.
#[derive(Debug)]
pub struct Store {
    sources: Vec<AnySource>,
    cache: ConfigValue,
}

impl Store {
    /// The sources, in precedence order.
    pub closed spec fn sources(&self) -> Seq<AnySource> {
        self.sources@
    }

    /// The merged configuration.
    pub closed spec fn tree(&self) -> Json {
        self.cache@
    }

    /// Create a store from a builder and what loading each of its sources gave, in
    /// precedence order.
    pub fn from_builder(
        builder: ConfigBuilder,
        loads: Vec<Result<ConfigValue, Error>>,
    ) -> (store: Result<Store, Error>)
        ensures
            builds(builder.registered(), loads@, store),
    {
        let sources: Vec<AnySource> = builder.build_sources();
        match merge_all(loads) {
            Ok(merged) => Ok(Store { sources, cache: merged }),
            Err(e) => Err(e),
        }
    }

    /// Create a store from its sources, in precedence order, and their merge.
    pub fn from_merge(sources: Vec<AnySource>, merge: MergeAll) -> (store: Store)
        requires
            merge.left() == 0,
        ensures
            store.sources() == sources@,
            store.tree() == merge.tree(),
    {
        Store { sources, cache: merge.finish() }
    }

    /// The source at a position in precedence order.
    pub fn source_at(&self, index: usize) -> (source: Option<&AnySource>)
        ensures
            match source {
                Some(s) => index < self.sources().len() && *s == self.sources()[index as int],
                None => index >= self.sources().len(),
            },
    {
        if index < self.sources.len() {
            Some(&self.sources[index])
        } else {
            None
        }
    }

    /// Take in what reloading each source gave, in precedence order.
    ///
    /// Where a source failed the cache is **not** updated: the previous values
    /// remain.
    pub fn refresh(&mut self, loads: Vec<Result<ConfigValue, Error>>) -> (done: Result<(), Error>)
        ensures
            final(self).sources() == old(self).sources(),
            match done {
                Ok(_) => merges(loads@, Ok(final(self).tree())),
                Err(e) => merges(loads@, Err(e)) && final(self).tree() == old(self).tree(),
            },
    {
        match merge_all(loads) {
            Ok(merged) => {
                self.cache = merged;
                Ok(())
            },
            Err(e) => Err(e),
        }
    }

    /// Put a merge in the cache, once every source has been taken in.
    pub fn replace(&mut self, merge: MergeAll)
        requires
            merge.left() == 0,
        ensures
            final(self).sources() == old(self).sources(),
            final(self).tree() == merge.tree(),
    {
        self.cache = merge.finish();
    }

    /// Get a string value by dot-separated key path.
    pub fn get_str(&self, key: &str) -> (found: Option<String>)
        ensures
            text::view_opt(found) == (match value::lookup(self.tree(), text::split(key@, '.')) {
                Some(json) => value::text_of(json),
                None => None,
            }),
    {
        match self.navigate(key) {
            Some(value) => match value.as_str() {
                Some(s) => Some(s.to_owned()),
                None => None,
            },
            None => None,
        }
    }

    /// Get a `u64` value by dot-separated key path.
    pub fn get_u64(&self, key: &str) -> (found: Option<u64>)
        ensures
            found == (match value::lookup(self.tree(), text::split(key@, '.')) {
                Some(json) => value::u64_of(json),
                None => None,
            }),
    {
        match self.navigate(key) {
            Some(value) => value.as_u64(),
            None => None,
        }
    }

    /// Get a boolean value by dot-separated key path.
    pub fn get_bool(&self, key: &str) -> (found: Option<bool>)
        ensures
            found == (match value::lookup(self.tree(), text::split(key@, '.')) {
                Some(json) => value::bool_of(json),
                None => None,
            }),
    {
        match self.navigate(key) {
            Some(value) => value.as_bool(),
            None => None,
        }
    }

    /// The value at a dot-separated key path, for the caller to read as a type of its
    /// own; [`Error::NotFound`] with the key where there is none.
    pub fn get(&self, key: &str) -> (found: Result<ConfigValue, Error>)
        ensures
            match value::lookup(self.tree(), text::split(key@, '.')) {
                Some(json) => found is Ok && found->Ok_0@ == json,
                None => found matches Err(Error::NotFound(missing)) && missing@ == key@,
            },
    {
        match self.navigate(key) {
            Some(value) => Ok(value.clone()),
            None => Err(Error::NotFound(key.to_owned())),
        }
    }

    /// A copy of the entire merged configuration.
    pub fn full_config(&self) -> (config: ConfigValue)
        ensures
            config@ == self.tree(),
    {
        self.cache.clone()
    }

    /// The value at a dot-separated key path, or `None` where a segment is missing.
    fn navigate(&self, key: &str) -> (found: Option<&ConfigValue>)
        ensures
            value::json_opt(found) == value::lookup(self.tree(), text::split(key@, '.')),
    {
        let segments: Vec<String> = split_at_char(key, '.');
        let ghost path = text::split(key@, '.');
        let mut current: &ConfigValue = &self.cache;
        let mut i: usize = 0;
        proof {
            assert(path.skip(0) =~= path);
        }
        while i < segments.len()
            invariant
                i <= segments@.len(),
                path == text::views(segments@),
                path == text::split(key@, '.'),
                value::lookup(self.tree(), path) == value::lookup(current@, path.skip(i as int)),
            decreases segments.len() - i,
        {
            proof {
                assert(path.skip(i as int).skip(1) =~= path.skip(i + 1));
                assert(path.skip(i as int)[0] == segments@[i as int]@);
            }
            match current.get(segments[i].as_str()) {
                Some(next) => {
                    current = next;
                },
                None => {
                    return None;
                },
            }
            i = i + 1;
        }
        Some(current)
    }
}

/// Only two objects combine: where either tree is anything else, what is laid over is
/// what remains. Where both are objects the merge is an object with the members of both.
pub proof fn law_merge_shape(target: Json, other: Json)
    ensures
        !(target is Object && other is Object) ==> value::merged(target, other) == other,
        target is Object && other is Object ==> (value::merged(target, other) matches Json::Object(
            members,
        ) && members.dom() == target->Object_0.dom().union(other->Object_0.dom())),
{
    if target is Object && other is Object {
        assert(value::merged(target, other)->Object_0.dom() =~= target->Object_0.dom().union(
            other->Object_0.dom(),
        ));
    }
}

/// The sources are merged one over the other: those of lower precedence first, and what
/// the first source holds over their merge.
pub proof fn law_merge_all_layers(first: Json, rest: Seq<Json>)
    ensures
        merged_all(seq![first] + rest) == value::merged(merged_all(rest), first),
        merged_all(Seq::empty()) == Json::Object(Map::empty()),
{
    assert((seq![first] + rest).skip(1) =~= rest);
}

/// A merge succeeds exactly where every source loads, and then holds what the sources
/// hold; otherwise it fails with the failure of a source behind which every source loads.
pub proof fn law_one_failure_fails_the_merge(loads: Seq<Result<ConfigValue, Error>>, i: int)
    requires
        0 <= i < loads.len(),
        loads[i] is Err,
        forall|j: int| i < j < loads.len() ==> (#[trigger] loads[j]) is Ok,
    ensures
        forall|tree: Json| !#[trigger] merges(loads, Ok::<Json, Error>(tree)),
        forall|e: Error| #[trigger] merges(loads, Err::<Json, Error>(e)) <==> e == loads[i]->Err_0,
{
    assert forall|e: Error| #[trigger] merges(loads, Err::<Json, Error>(e)) implies e
        == loads[i]->Err_0 by {
        let k = choose|k: int|
            0 <= k < loads.len() && #[trigger] loads[k] == Err::<ConfigValue, Error>(e) && (forall|
                j: int,
            | k < j < loads.len() ==> (#[trigger] loads[j]) is Ok);
        if k < i {
            assert(loads[i] is Ok);
        }
        if i < k {
            assert(loads[k] is Ok);
        }
    }
    assert forall|e: Error| e == loads[i]->Err_0 implies #[trigger] merges(
        loads,
        Err::<Json, Error>(e),
    ) by {
        assert(loads[i] == Err::<ConfigValue, Error>(e));
    }
}

/// Where every source loads, the merge is that of the trees they loaded, and nothing
/// fails.
pub proof fn law_all_loaded_merge(loads: Seq<Result<ConfigValue, Error>>, tree: Json)
    requires
        forall|i: int| 0 <= i < loads.len() ==> (#[trigger] loads[i]) is Ok,
    ensures
        merges(loads, Ok::<Json, Error>(tree)) <==> tree == merged_all(
            Seq::new(loads.len(), |i: int| loads[i]->Ok_0@),
        ),
        forall|e: Error| !#[trigger] merges(loads, Err::<Json, Error>(e)),
{
    assert(trees(loads) =~= Seq::new(loads.len(), |i: int| loads[i]->Ok_0@));
}

} // verus!

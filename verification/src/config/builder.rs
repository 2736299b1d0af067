//! Fluent builder for assembling sources in priority order.

use vstd::prelude::*;

use crate::config::error::Error;
use crate::config::source::env_source::Selection;
use crate::config::source::{
    azure_source, AzureAppConfigSource, DotEnvSource, EnvSource, JsonSource, Source, TomlSource, YamlSource,
};
use crate::config::store::{self, Store};
use crate::config::value::{self, ConfigValue, Json};
use crate::text;

verus! {

broadcast use vstd::string::group_string_axioms;

/// A source of the caller's own, known to the builder by its name, its priority and
/// the slot under which the caller keeps it.
#[derive(Debug)]
pub struct CustomSource {
    /// Human-readable name.
    pub name: String,
    /// Priority level.
    pub priority: u32,
    /// Where the caller finds the source again.
    pub slot: usize,
}

impl Source for CustomSource {
    open spec fn rank(&self) -> u32 {
        self.priority
    }

    open spec fn label(&self) -> Seq<char> {
        self.name@
    }

    fn name(&self) -> (name: &str) {
        self.name.as_str()
    }

    fn priority(&self) -> (priority: u32) {
        self.priority
    }
}

/// Any source a builder can hold.
#[derive(Debug)]
pub enum AnySource {
    /// A JSON file.
    Json(JsonSource),
    /// A YAML file.
    Yaml(YamlSource),
    /// A TOML file.
    Toml(TomlSource),
    /// Environment variables.
    Env(EnvSource),
    /// A `.env` file.
    DotEnv(DotEnvSource),
    /// Azure App Configuration.
    Azure(AzureAppConfigSource),
    /// A source of the caller's own.
    Custom(CustomSource),
}

impl Source for AnySource {
    open spec fn rank(&self) -> u32 {
        match self {
            AnySource::Json(s) => s.rank(),
            AnySource::Yaml(s) => s.rank(),
            AnySource::Toml(s) => s.rank(),
            AnySource::Env(s) => s.rank(),
            AnySource::DotEnv(s) => s.rank(),
            AnySource::Azure(s) => s.rank(),
            AnySource::Custom(s) => s.rank(),
        }
    }

    open spec fn label(&self) -> Seq<char> {
        match self {
            AnySource::Json(s) => s.label(),
            AnySource::Yaml(s) => s.label(),
            AnySource::Toml(s) => s.label(),
            AnySource::Env(s) => s.label(),
            AnySource::DotEnv(s) => s.label(),
            AnySource::Azure(s) => s.label(),
            AnySource::Custom(s) => s.label(),
        }
    }

    fn name(&self) -> (name: &str) {
        match self {
            AnySource::Json(s) => s.name(),
            AnySource::Yaml(s) => s.name(),
            AnySource::Toml(s) => s.name(),
            AnySource::Env(s) => s.name(),
            AnySource::DotEnv(s) => s.name(),
            AnySource::Azure(s) => s.name(),
            AnySource::Custom(s) => s.name(),
        }
    }

    fn priority(&self) -> (priority: u32) {
        match self {
            AnySource::Json(s) => s.priority(),
            AnySource::Yaml(s) => s.priority(),
            AnySource::Toml(s) => s.priority(),
            AnySource::Env(s) => s.priority(),
            AnySource::DotEnv(s) => s.priority(),
            AnySource::Azure(s) => s.priority(),
            AnySource::Custom(s) => s.priority(),
        }
    }
}

/// Whether the sources stand in ascending order of priority number.
pub open spec fn in_order(sources: Seq<AnySource>) -> bool {
    forall|i: int, j: int|
        0 <= i < j < sources.len() ==> (#[trigger] sources[i]).rank() <= (
        #[trigger] sources[j]).rank()
}

/// The sources of one priority number, in the order in which they stand.
pub open spec fn at_rank(sources: Seq<AnySource>, rank: u32) -> Seq<AnySource> {
    sources.filter(|s: AnySource| s.rank() == rank)
}

/// Fluent builder for assembling configuration sources in priority order.
///
/// Lower priority numbers mean higher precedence: where several sources define the
/// same key, the one with the lowest number wins.
#[derive(Debug)]
pub struct ConfigBuilder {
    sources: Vec<AnySource>,
}

impl Default for ConfigBuilder {
    /// A builder without sources.
    fn default() -> (builder: Self)
        ensures
            builder.registered() == Seq::<AnySource>::empty(),
    {
        ConfigBuilder { sources: Vec::new() }
    }
}

/// Put `source` after every source whose priority number is not above its own.
fn place(sources: &mut Vec<AnySource>, source: AnySource)
    requires
        in_order(old(sources)@),
    ensures
        in_order(final(sources)@),
        final(sources)@.len() == old(sources)@.len() + 1,
        forall|rank: u32|
            #[trigger] at_rank(final(sources)@, rank) == at_rank(old(sources)@.push(source), rank),
{
    let ghost before = sources@;
    let priority: u32 = source.priority();
    let mut at: usize = sources.len();
    while at > 0 && sources[at - 1].priority() > priority
        invariant
            at <= sources@.len(),
            sources@ == before,
            forall|i: int| at <= i < sources@.len() ==> (#[trigger] sources@[i]).rank() > priority,
        decreases at,
    {
        at = at - 1;
    }
    sources.insert(at, source);
    proof {
        let head = before.take(at as int);
        let tail = before.skip(at as int);
        assert(before =~= head + tail);
        assert(sources@ =~= head + seq![source] + tail);
        assert(before.push(source) =~= head + tail + seq![source]);
        assert forall|rank: u32|
            #[trigger] at_rank(sources@, rank) == at_rank(before.push(source), rank) by {
            let p = |s: AnySource| s.rank() == rank;
            Seq::filter_distributes_over_add(head + seq![source], tail, p);
            Seq::filter_distributes_over_add(head, seq![source], p);
            Seq::filter_distributes_over_add(head + tail, seq![source], p);
            Seq::filter_distributes_over_add(head, tail, p);
            if rank == priority {
                lemma_none(tail, p);
                assert(at_rank(sources@, rank) =~= at_rank(before.push(source), rank));
            } else {
                lemma_none(seq![source], p);
                assert(at_rank(sources@, rank) =~= at_rank(before.push(source), rank));
            }
        }
        assert forall|i: int, j: int| 0 <= i < j < sources@.len() implies (
        #[trigger] sources@[i]).rank() <= (#[trigger] sources@[j]).rank() by {
            if j < at {
                assert(before[i].rank() <= before[j].rank());
            } else if j == at {
                assert(before[i].rank() <= before[at - 1].rank());
            } else if i < at {
                assert(before[i].rank() <= before[j - 1].rank());
            } else if i > at {
                assert(before[i - 1].rank() <= before[j - 1].rank());
            } else {
                assert(before[j - 1].rank() > priority);
            }
        }
    }
}

/// A predicate that holds of nothing in a sequence selects nothing.
proof fn lemma_none(sources: Seq<AnySource>, p: spec_fn(AnySource) -> bool)
    requires
        forall|i: int| 0 <= i < sources.len() ==> !p(#[trigger] sources[i]),
    ensures
        sources.filter(p) == Seq::<AnySource>::empty(),
    decreases sources.len(),
{
    reveal(Seq::filter);
    if sources.len() > 0 {
        let shorter = sources.drop_last();
        assert forall|i: int| 0 <= i < shorter.len() implies !p(#[trigger] shorter[i]) by {
            assert(shorter[i] == sources[i]);
        }
        lemma_none(shorter, p);
    }
}

impl ConfigBuilder {
    /// The sources registered so far, in the order of registration.
    pub closed spec fn registered(&self) -> Seq<AnySource> {
        self.sources@
    }

    /// Add an arbitrary source.
    pub fn source(self, source: AnySource) -> (builder: ConfigBuilder)
        ensures
            builder.registered() == self.registered().push(source),
    {
        let mut sources: Vec<AnySource> = self.sources;
        sources.push(source);
        ConfigBuilder { sources }
    }

    /// Consume the builder and return its sources, ordered by precedence: the lowest
    /// priority number first, and those of one number in the order of registration.
    pub fn build_sources(self) -> (sources: Vec<AnySource>)
        ensures
            in_order(sources@),
            sources@.len() == self.registered().len(),
            forall|rank: u32|
                #[trigger] at_rank(sources@, rank) == at_rank(self.registered(), rank),
    {
        let ghost given = self.registered();
        let mut pending: Vec<AnySource> = self.sources;
        let mut sources: Vec<AnySource> = Vec::new();
        proof {
            assert(given.take(0) =~= Seq::<AnySource>::empty());
        }
        while pending.len() > 0
            invariant
                given == self.registered(),
                pending@.len() + sources@.len() == given.len(),
                pending@ == given.skip(sources@.len() as int),
                in_order(sources@),
                forall|rank: u32|
                    #[trigger] at_rank(sources@, rank) == at_rank(
                        given.take(sources@.len() as int),
                        rank,
                    ),
            decreases pending.len(),
        {
            let ghost n = sources@.len() as int;
            let ghost placed = sources@;
            let source: AnySource = pending.remove(0);
            place(&mut sources, source);
            proof {
                assert(source == given[n]);
                assert(pending@ =~= given.skip(n + 1));
                assert forall|rank: u32|
                    #[trigger] at_rank(sources@, rank) == at_rank(given.take(n + 1), rank) by {
                    let p = |s: AnySource| s.rank() == rank;
                    assert(placed.push(source) =~= placed + seq![source]);
                    assert(given.take(n + 1) =~= given.take(n) + seq![source]);
                    Seq::filter_distributes_over_add(placed, seq![source], p);
                    Seq::filter_distributes_over_add(given.take(n), seq![source], p);
                    assert(at_rank(placed, rank) == at_rank(given.take(n), rank));
                }
            }
        }
        proof {
            assert(given.take(sources@.len() as int) =~= given);
        }
        sources
    }

    /// Add a JSON file source.
    pub fn json(self, path: &str, priority: u32) -> (builder: ConfigBuilder)
        ensures
            builder.registered().drop_last() == self.registered(),
            builder.registered().len() == self.registered().len() + 1,
            builder.registered().last() matches AnySource::Json(s) && s.file() == path@ && s.rank()
                == priority,
    {
        let builder: ConfigBuilder = self.source(AnySource::Json(JsonSource::new(path, priority)));
        proof {
            assert(builder.registered().drop_last() =~= self.registered());
        }
        builder
    }

    /// Add a YAML file source.
    pub fn yaml(self, path: &str, priority: u32) -> (builder: ConfigBuilder)
        ensures
            builder.registered().drop_last() == self.registered(),
            builder.registered().len() == self.registered().len() + 1,
            builder.registered().last() matches AnySource::Yaml(s) && s.file() == path@ && s.rank()
                == priority,
    {
        let builder: ConfigBuilder = self.source(AnySource::Yaml(YamlSource::new(path, priority)));
        proof {
            assert(builder.registered().drop_last() =~= self.registered());
        }
        builder
    }

    /// Add a TOML file source.
    pub fn toml(self, path: &str, priority: u32) -> (builder: ConfigBuilder)
        ensures
            builder.registered().drop_last() == self.registered(),
            builder.registered().len() == self.registered().len() + 1,
            builder.registered().last() matches AnySource::Toml(s) && s.file() == path@ && s.rank()
                == priority,
    {
        let builder: ConfigBuilder = self.source(AnySource::Toml(TomlSource::new(path, priority)));
        proof {
            assert(builder.registered().drop_last() =~= self.registered());
        }
        builder
    }

    /// Add an environment variable source.
    ///
    /// With prefix `"APP_"` and separator `"__"`, `APP_DB__PORT=5432` is
    /// `{"db": {"port": "5432"}}`.
    pub fn env(self, prefix: &str, separator: &str, priority: u32) -> (builder: ConfigBuilder)
        ensures
            builder.registered().drop_last() == self.registered(),
            builder.registered().len() == self.registered().len() + 1,
            builder.registered().last() matches AnySource::Env(s) && s.selection()
                == Selection::Prefix(prefix@) && s.delimiter() == separator@ && s.rank()
                == priority,
    {
        let builder: ConfigBuilder = self.source(
            AnySource::Env(EnvSource::new(prefix, separator, priority)),
        );
        proof {
            assert(builder.registered().drop_last() =~= self.registered());
        }
        builder
    }

    /// Add a source over exactly the named environment variables.
    pub fn env_keys(self, keys: &[&str], separator: &str, priority: u32) -> (builder: ConfigBuilder)
        ensures
            builder.registered().drop_last() == self.registered(),
            builder.registered().len() == self.registered().len() + 1,
            builder.registered().last() matches AnySource::Env(s) && s.selection()
                == Selection::Keys(keys@.map_values(|key: &str| text::ascii_uppered(key@)))
                && s.delimiter() == separator@ && s.rank() == priority,
    {
        let builder: ConfigBuilder = self.source(
            AnySource::Env(EnvSource::with_keys(keys, separator, priority)),
        );
        proof {
            assert(builder.registered().drop_last() =~= self.registered());
        }
        builder
    }

    /// Add a `.env` file source, given what loading the file into the environment
    /// gave. Fails where the load did.
    pub fn dotenv(
        self,
        loaded: Result<(), String>,
        prefix: &str,
        separator: &str,
        priority: u32,
    ) -> (builder: Result<ConfigBuilder, Error>)
        ensures
            match loaded {
                Ok(_) => {
                    &&& builder is Ok
                    &&& builder->Ok_0.registered().drop_last() == self.registered()
                    &&& builder->Ok_0.registered().len() == self.registered().len() + 1
                    &&& builder->Ok_0.registered().last() matches AnySource::DotEnv(s)
                    &&& s.selection() == Selection::Prefix(prefix@)
                    &&& s.delimiter() == separator@
                    &&& s.rank() == priority
                },
                Err(e) => builder matches Err(Error::Other(message)) && message@
                    == "Failed to load .env file: "@ + e@,
            },
    {
        match DotEnvSource::new(loaded, prefix, separator, priority) {
            Ok(source) => {
                let builder: ConfigBuilder = self.source(AnySource::DotEnv(source));
                proof {
                    assert(builder.registered().drop_last() =~= self.registered());
                }
                Ok(builder)
            },
            Err(e) => Err(e),
        }
    }

    /// Add an Azure App Configuration source.
    ///
    /// For a label filter or another separator, construct [`AzureAppConfigSource`]
    /// and pass it to [`ConfigBuilder::source`].
    pub fn azure(self, endpoint: &str, priority: u32) -> (builder: ConfigBuilder)
        ensures
            builder.registered().drop_last() == self.registered(),
            builder.registered().len() == self.registered().len() + 1,
            builder.registered().last() matches AnySource::Azure(s) && s.store()
                == text::without_trailing(endpoint@, '/') && s.label_filter() is None
                && !s.resolves() && s.delimiter() == azure_source::DEFAULT_SEPARATOR@ && s.rank()
                == priority,
    {
        let builder: ConfigBuilder = self.source(
            AnySource::Azure(AzureAppConfigSource::new(endpoint, priority)),
        );
        proof {
            assert(builder.registered().drop_last() =~= self.registered());
        }
        builder
    }

    /// Build a [`Store`], given what loading each source gave, in the order of
    /// [`ConfigBuilder::build_sources`].
    ///
    /// Fails where any source failed to load.
    pub fn build(self, loads: Vec<Result<ConfigValue, Error>>) -> (store: Result<Store, Error>)
        ensures
            store::builds(self.registered(), loads@, store),
    {
        Store::from_builder(self, loads)
    }
}

/// What the builder promises of the order of its sources leaves no choice: two orders
/// that are ascending and keep the sources of each number in the order of registration
/// are the same.
pub proof fn law_order_is_determined(a: Seq<AnySource>, b: Seq<AnySource>)
    requires
        in_order(a),
        in_order(b),
        a.len() == b.len(),
        forall|rank: u32| #[trigger] at_rank(a, rank) == at_rank(b, rank),
    ensures
        a == b,
    decreases a.len(),
{
    if a.len() > 0 {
        lemma_last_at_rank(a, b);
        lemma_last_at_rank(b, a);
        let rank = a.last().rank();
        lemma_drop_last(a, rank);
        lemma_drop_last(b, rank);
        assert(at_rank(a, rank).last() == at_rank(b, rank).last());
        let shorter_a = a.drop_last();
        let shorter_b = b.drop_last();
        assert forall|r: u32| #[trigger] at_rank(shorter_a, r) == at_rank(shorter_b, r) by {
            lemma_drop_last(a, r);
            lemma_drop_last(b, r);
            assert(at_rank(a, r) == at_rank(b, r));
            if r == rank {
                assert(at_rank(shorter_a, r) =~= at_rank(a, r).drop_last());
                assert(at_rank(shorter_b, r) =~= at_rank(b, r).drop_last());
            }
        }
        law_order_is_determined(shorter_a, shorter_b);
        assert(a =~= shorter_a.push(a.last()));
        assert(b =~= shorter_b.push(b.last()));
    } else {
        assert(a =~= b);
    }
}

/// The sources of one number without the last source of all.
pub proof fn lemma_drop_last(sources: Seq<AnySource>, rank: u32)
    requires
        sources.len() > 0,
    ensures
        at_rank(sources, rank) == if sources.last().rank() == rank {
            at_rank(sources.drop_last(), rank).push(sources.last())
        } else {
            at_rank(sources.drop_last(), rank)
        },
{
    reveal(Seq::filter);
}

/// Without a source of a number there are none of that number.
pub proof fn lemma_no_rank(sources: Seq<AnySource>, rank: u32)
    requires
        forall|i: int| 0 <= i < sources.len() ==> (#[trigger] sources[i]).rank() != rank,
    ensures
        at_rank(sources, rank) == Seq::<AnySource>::empty(),
    decreases sources.len(),
{
    if sources.len() > 0 {
        lemma_drop_last(sources, rank);
        lemma_no_rank(sources.drop_last(), rank);
    } else {
        reveal(Seq::filter);
    }
}

/// The last source of one order has a number not above that of the last of the other.
proof fn lemma_last_at_rank(a: Seq<AnySource>, b: Seq<AnySource>)
    requires
        a.len() > 0,
        b.len() > 0,
        in_order(b),
        forall|rank: u32| #[trigger] at_rank(a, rank) == at_rank(b, rank),
    ensures
        a.last().rank() <= b.last().rank(),
{
    let rank = a.last().rank();
    lemma_drop_last(a, rank);
    if rank > b.last().rank() {
        assert forall|i: int| 0 <= i < b.len() implies (#[trigger] b[i]).rank() != rank by {
            assert(b[i].rank() <= b.last().rank());
        }
        lemma_no_rank(b, rank);
        assert(at_rank(a, rank) == at_rank(b, rank));
        assert(at_rank(a, rank).len() == at_rank(a.drop_last(), rank).len() + 1);
    }
}

/// Lower priority number wins: a value other than an object that one source holds at
/// a path is what the merge holds there, provided every other source whose number is
/// not above that source's says nothing about the path. Sources with higher numbers
/// may hold anything.
pub proof fn law_lower_number_wins(
    sources: Seq<AnySource>,
    values: Seq<Json>,
    path: Seq<Seq<char>>,
    i: int,
)
    requires
        in_order(sources),
        values.len() == sources.len(),
        0 <= i < sources.len(),
        value::lookup(values[i], path) is Some,
        value::lookup(values[i], path)->0 !is Object,
        forall|j: int|
            0 <= j < sources.len() && j != i && (#[trigger] sources[j]).rank() <= sources[i].rank()
                ==> store::silent(values[j], path),
    ensures
        value::lookup(store::merged_all(values), path) == value::lookup(values[i], path),
{
    assert forall|j: int| 0 <= j < i implies store::silent(#[trigger] values[j], path) by {
        assert(sources[j].rank() <= sources[i].rank());
    }
    store::law_precedence(values, path, i);
}

/// Sources of one number keep the order in which they stand: those of a list and then
/// those of another are those of the two lists one behind the other, and a single source
/// counts exactly where it has the number.
pub proof fn law_equal_numbers_keep_order(
    a: Seq<AnySource>,
    b: Seq<AnySource>,
    one: AnySource,
    rank: u32,
)
    ensures
        at_rank(a + b, rank) == at_rank(a, rank) + at_rank(b, rank),
        one.rank() == rank ==> at_rank(seq![one], rank) == seq![one],
        one.rank() != rank ==> at_rank(seq![one], rank) == Seq::<AnySource>::empty(),
    decreases b.len(),
{
    let none = Seq::<AnySource>::empty();
    lemma_no_rank(none, rank);
    lemma_drop_last(seq![one], rank);
    assert(seq![one].drop_last() =~= none);
    assert(none.push(one) =~= seq![one]);
    if b.len() == 0 {
        assert(a + b =~= a);
        lemma_no_rank(b, rank);
        assert(at_rank(a, rank) + at_rank(b, rank) =~= at_rank(a, rank));
    } else {
        law_equal_numbers_keep_order(a, b.drop_last(), one, rank);
        assert((a + b).drop_last() =~= a + b.drop_last());
        assert((a + b).last() == b.last());
        lemma_drop_last(a + b, rank);
        lemma_drop_last(b, rank);
        assert(at_rank(a + b, rank) =~= at_rank(a, rank) + at_rank(b, rank));
    }
}

/// A source counts under its own number and its own name, whatever kind it is of.
pub proof fn law_sources_keep_their_number(
    json: JsonSource,
    yaml: YamlSource,
    toml: TomlSource,
    env: EnvSource,
    dotenv: DotEnvSource,
    azure: AzureAppConfigSource,
    custom: CustomSource,
)
    ensures
        AnySource::Json(json).rank() == json.rank(),
        AnySource::Yaml(yaml).rank() == yaml.rank(),
        AnySource::Toml(toml).rank() == toml.rank(),
        AnySource::Env(env).rank() == env.rank(),
        AnySource::DotEnv(dotenv).rank() == dotenv.rank(),
        AnySource::Azure(azure).rank() == azure.rank(),
        AnySource::Custom(custom).rank() == custom.priority,
        AnySource::Json(json).label() == "json"@,
        AnySource::Yaml(yaml).label() == "yaml"@,
        AnySource::Toml(toml).label() == "toml"@,
        AnySource::Env(env).label() == "env"@,
        AnySource::DotEnv(dotenv).label() == "dotenv"@,
        AnySource::Azure(azure).label() == "azure_app_config"@,
        AnySource::Custom(custom).label() == custom.name@,
{
}

/// What a store answers: where building succeeds, the sources stand in ascending order of
/// their numbers, and a value other than an object that one of them loaded at a path is
/// what the store holds there, provided every source before it says nothing about the
/// path.
pub proof fn law_store_holds_the_first(
    registered: Seq<AnySource>,
    loads: Seq<Result<ConfigValue, Error>>,
    built: Store,
    path: Seq<Seq<char>>,
    i: int,
)
    requires
        store::builds(registered, loads, Ok::<Store, Error>(built)),
        0 <= i < loads.len(),
        loads[i] is Ok ==> value::lookup(loads[i]->Ok_0@, path) is Some,
        loads[i] is Ok ==> value::lookup(loads[i]->Ok_0@, path)->0 !is Object,
        forall|j: int|
            0 <= j < i && (#[trigger] loads[j]) is Ok ==> store::silent(loads[j]->Ok_0@, path),
    ensures
        value::lookup(built.tree(), path) == value::lookup(loads[i]->Ok_0@, path),
        built.sources().len() == registered.len(),
        forall|a: int, b: int|
            0 <= a < b < built.sources().len() ==> (#[trigger] built.sources()[a]).rank() <= (
            #[trigger] built.sources()[b]).rank(),
{
    let values = store::trees(loads);
    assert(loads[i] is Ok);
    assert(values[i] == loads[i]->Ok_0@);
    assert forall|j: int| 0 <= j < i implies store::silent(#[trigger] values[j], path) by {
        assert(loads[j] is Ok);
        assert(values[j] == loads[j]->Ok_0@);
    }
    store::law_precedence(values, path, i);
}

} // verus!

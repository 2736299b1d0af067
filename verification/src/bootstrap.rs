//! Reading configuration and standing up logging from it, in that order.
//!
//! This is the only place that needs both halves at once: the configuration half never
//! depends on the logging half, and the logging half only reads from a store it is
//! handed.

use vstd::prelude::*;

use crate::config;
use crate::config::builder::{self as sources, AnySource};
use crate::config::source::env_source::Selection;
use crate::config::source::Source;
use crate::config::store;
use crate::config::value::{self, Json};
use crate::config::{ConfigBuilder, Store};
use crate::logging;
use crate::logging::appinsights::{self, AppInsightsConfig};
use crate::logging::builder::{self, Builder, Plan};
use crate::logging::double;
use crate::logging::filter::{self, Filter};
use crate::logging::settings::{self, Settings};
use crate::logging::{ConsoleConfig, ConsoleTarget, Handle, LoggingState, TimestampFormat};
use crate::text::{self, ascii_lower};

verus! {

broadcast use vstd::string::group_string_axioms;

/// Priority of the configuration file: the committed default, which both the environment
/// and the `.env` file exist to beat. Lower number wins.
pub const FILE_PRIORITY: u32 = 100;

/// Priority of the environment.
pub const ENV_PRIORITY: u32 = 50;

/// Priority of the `.env` file.
pub const DOTENV_PRIORITY: u32 = 10;

/// The configuration everything else reads, and the handle of the logging stack.
#[derive(Debug)]
#[non_exhaustive]
pub struct Bootstrap {
    /// The merged configuration store.
    pub config: Store,
    /// Keep this for the process lifetime; it is what `flush` and `shutdown` are driven
    /// through.
    pub logging: Handle,
}

impl Bootstrap {
    /// Both halves together.
    pub fn new(config: Store, logging: Handle) -> (bootstrap: Bootstrap)
        ensures
            bootstrap.config == config,
            bootstrap.logging == logging,
    {
        Bootstrap { config, logging }
    }
}

/// Everything that can go wrong before the first log line.
///
/// Nothing can be logged while this is failing, so the message carries the whole story.
#[derive(Debug)]
#[non_exhaustive]
pub enum InitError {
    /// The configuration store could not be built.
    Config(config::Error),
    /// The logging block was present but invalid, or the stack could not be installed.
    Logging(logging::Error),
}

impl InitError {
    /// What [`InitError::message`] renders.
    pub open spec fn text(&self) -> Seq<char> {
        match self {
            InitError::Config(e) => "could not load configuration: "@ + e.text(),
            InitError::Logging(e) => "could not initialize logging: "@ + e.text(),
        }
    }

    /// The error as a sentence for people.
    pub fn message(&self) -> (text: String)
        ensures
            text@ == self.text(),
    {
        match self {
            InitError::Config(e) => "could not load configuration: ".to_owned().concat(
                e.message().as_str(),
            ),
            InitError::Logging(e) => "could not initialize logging: ".to_owned().concat(
                e.message().as_str(),
            ),
        }
    }
}

/// How [`init_with`] builds the stack. [`Options::new`] gives the conventional setup;
/// every field is overridable from there.
#[derive(Debug)]
#[non_exhaustive]
pub struct Options {
    /// Recorded on every Application Insights record, and useful in file prefixes.
    pub service_name: String,
    /// TOML file read at the lowest precedence, skipped silently when absent.
    pub config_file: String,
    /// Read a `.env` file that *overrides* the environment. On by default: a value written
    /// in the file should not lose to a shell variable someone exported last week.
    pub dotenv: bool,
    /// The store key holding the [`Settings`] block. An absent block means defaults
    /// (console at `info`), not an error; a present but invalid block is a startup error.
    pub logging_key: String,
    /// Prefix filter for the environment source. Empty by default, capturing the whole
    /// environment: platform-injected values have conventional names, not an application
    /// prefix.
    pub env_prefix: String,
}

impl Options {
    /// The conventional stack for `service_name`.
    pub fn new(service_name: &str) -> (options: Options)
        ensures
            options.service_name@ == service_name@,
            options.config_file@ == "config.toml"@,
            options.dotenv,
            options.logging_key@ == "logging"@,
            options.env_prefix@ == ""@,
    {
        Options {
            service_name: service_name.to_owned(),
            config_file: "config.toml".to_owned(),
            dotenv: true,
            logging_key: "logging".to_owned(),
            env_prefix: "".to_owned(),
        }
    }
}

/// Whether `registered` are the sources of the options, in the order in which they are
/// registered: the environment, the configuration file where it is there, and the `.env`
/// file where it is read.
pub open spec fn is_stack(
    options: Options,
    file_exists: bool,
    reads_dotenv: bool,
    registered: Seq<AnySource>,
) -> bool {
    &&& registered.len() == 1 + (if file_exists {
        1int
    } else {
        0
    }) + (if reads_dotenv {
        1int
    } else {
        0
    })
    &&& registered[0] matches AnySource::Env(s) && s.selection() == Selection::Prefix(
        options.env_prefix@,
    ) && s.delimiter() == "__"@ && s.rank() == ENV_PRIORITY
    &&& file_exists ==> (registered[1] matches AnySource::Toml(s) && s.file()
        == options.config_file@ && s.rank() == FILE_PRIORITY)
    &&& reads_dotenv ==> (registered.last() matches AnySource::DotEnv(s) && s.selection()
        == Selection::Prefix(""@) && s.delimiter() == "__"@ && s.rank() == DOTENV_PRIORITY)
}

/// Assemble the sources for the options, given whether the configuration file is there
/// and, where a `.env` file is there, what loading it into the environment gave.
pub fn build_store(
    options: &Options,
    file_exists: bool,
    dotenv: Option<Result<(), String>>,
) -> (builder: Result<ConfigBuilder, config::Error>)
    ensures
        match dotenv {
            Some(Err(e)) if options.dotenv => builder matches Err(config::Error::Other(message))
                && message@ == "Failed to load .env file: "@ + e@,
            _ => builder is Ok && is_stack(
                *options,
                file_exists,
                options.dotenv && dotenv is Some,
                builder->Ok_0.registered(),
            ),
        },
{
    let mut builder: ConfigBuilder = ConfigBuilder::default().env(
        options.env_prefix.as_str(),
        "__",
        ENV_PRIORITY,
    );
    if file_exists {
        builder = builder.toml(options.config_file.as_str(), FILE_PRIORITY);
        proof {
            assert(builder.registered()[0] == builder.registered().drop_last()[0]);
        }
    }
    if options.dotenv {
        match dotenv {
            Some(loaded) => {
                let read: Result<ConfigBuilder, config::Error> = builder.dotenv(
                    loaded,
                    "",
                    "__",
                    DOTENV_PRIORITY,
                );
                proof {
                    if read is Ok {
                        let after = read->Ok_0.registered();
                        assert(after[0] == after.drop_last()[0]);
                        assert(file_exists ==> after[1] == after.drop_last()[1]);
                    }
                }
                return read;
            },
            None => {},
        }
    }
    Ok(builder)
}

/// The sources of a stack in precedence order: the `.env` file, the environment, the
/// configuration file.
pub open spec fn precedence(
    file_exists: bool,
    reads_dotenv: bool,
    registered: Seq<AnySource>,
) -> Seq<AnySource> {
    (if reads_dotenv {
        seq![registered.last()]
    } else {
        Seq::empty()
    }) + seq![registered[0]] + (if file_exists {
        seq![registered[1]]
    } else {
        Seq::empty()
    })
}

/// A source where it has the number.
spec fn if_ranked(source: AnySource, rank: u32) -> Seq<AnySource> {
    if source.rank() == rank {
        seq![source]
    } else {
        Seq::empty()
    }
}

/// The sources of one number, with one source more.
proof fn lemma_at_rank_push(a: Seq<AnySource>, source: AnySource, rank: u32)
    ensures
        sources::at_rank(a.push(source), rank) == sources::at_rank(a, rank) + if_ranked(
            source,
            rank,
        ),
{
    sources::lemma_drop_last(a.push(source), rank);
    assert(a.push(source).drop_last() =~= a);
    if source.rank() == rank {
        assert(sources::at_rank(a, rank).push(source) =~= sources::at_rank(a, rank) + seq![source]);
    } else {
        assert(sources::at_rank(a, rank) =~= sources::at_rank(a, rank)
            + Seq::<AnySource>::empty());
    }
}

/// The sources of one number in a list of one.
proof fn lemma_at_rank_one(x: AnySource, rank: u32)
    ensures
        sources::at_rank(seq![x], rank) == if_ranked(x, rank),
{
    let none = Seq::<AnySource>::empty();
    sources::lemma_no_rank(none, rank);
    lemma_at_rank_push(none, x, rank);
    assert(none.push(x) =~= seq![x]);
    assert(none + if_ranked(x, rank) =~= if_ranked(x, rank));
}

/// The sources of one number in a list of two.
proof fn lemma_at_rank_two(x: AnySource, y: AnySource, rank: u32)
    ensures
        sources::at_rank(seq![x, y], rank) == if_ranked(x, rank) + if_ranked(y, rank),
{
    lemma_at_rank_one(x, rank);
    lemma_at_rank_push(seq![x], y, rank);
    assert(seq![x].push(y) =~= seq![x, y]);
}

/// The sources of one number in a list of three.
proof fn lemma_at_rank_three(x: AnySource, y: AnySource, z: AnySource, rank: u32)
    ensures
        sources::at_rank(seq![x, y, z], rank) == if_ranked(x, rank) + if_ranked(y, rank)
            + if_ranked(z, rank),
{
    lemma_at_rank_two(x, y, rank);
    lemma_at_rank_push(seq![x, y], z, rank);
    assert(seq![x, y].push(z) =~= seq![x, y, z]);
}

/// Registration and precedence hold the same sources of each number: no two sources
/// share one.
proof fn lemma_same_at_rank(
    options: Options,
    file_exists: bool,
    reads_dotenv: bool,
    registered: Seq<AnySource>,
    rank: u32,
)
    requires
        is_stack(options, file_exists, reads_dotenv, registered),
    ensures
        sources::at_rank(precedence(file_exists, reads_dotenv, registered), rank)
            == sources::at_rank(registered, rank),
{
    let expected = precedence(file_exists, reads_dotenv, registered);
    let env = registered[0];
    let second = registered[1];
    let last = registered.last();
    if file_exists && reads_dotenv {
        assert(registered =~= seq![env, second, last]);
        assert(expected =~= seq![last, env, second]);
        lemma_at_rank_three(env, second, last, rank);
        lemma_at_rank_three(last, env, second, rank);
        assert(if_ranked(env, rank) + if_ranked(second, rank) + if_ranked(last, rank)
            =~= if_ranked(last, rank) + if_ranked(env, rank) + if_ranked(second, rank));
    } else if file_exists {
        assert(registered =~= expected);
    } else if reads_dotenv {
        assert(registered =~= seq![env, last]);
        assert(expected =~= seq![last, env]);
        lemma_at_rank_two(env, last, rank);
        lemma_at_rank_two(last, env, rank);
        assert(if_ranked(env, rank) + if_ranked(last, rank) =~= if_ranked(last, rank)
            + if_ranked(env, rank));
    } else {
        assert(registered =~= expected);
    }
}

/// Precedence, lowest to highest: the configuration file, the environment, `.env`. In a
/// store built from the stack, a value other than an object that the `.env` file holds at
/// a path stands; one that the environment holds stands where the `.env` file is absent or
/// says nothing about the path; one that the file holds stands where both say nothing.
pub proof fn law_stack_precedence(
    options: Options,
    file_exists: bool,
    reads_dotenv: bool,
    registered: Seq<AnySource>,
    ordered: Seq<AnySource>,
    values: Seq<Json>,
    path: Seq<Seq<char>>,
    i: int,
)
    requires
        is_stack(options, file_exists, reads_dotenv, registered),
        sources::in_order(ordered),
        ordered.len() == registered.len(),
        forall|rank: u32|
            #[trigger] sources::at_rank(ordered, rank) == sources::at_rank(registered, rank),
        values.len() == ordered.len(),
        0 <= i < values.len(),
        value::lookup(values[i], path) is Some,
        value::lookup(values[i], path)->0 !is Object,
        forall|j: int| 0 <= j < i ==> store::silent(#[trigger] values[j], path),
    ensures
        ordered == precedence(file_exists, reads_dotenv, registered),
        value::lookup(store::merged_all(values), path) == value::lookup(values[i], path),
{
    let expected = precedence(file_exists, reads_dotenv, registered);
    assert(sources::in_order(expected));
    assert forall|rank: u32|
        #[trigger] sources::at_rank(ordered, rank) == sources::at_rank(expected, rank) by {
        lemma_same_at_rank(options, file_exists, reads_dotenv, registered, rank);
        assert(sources::at_rank(ordered, rank) == sources::at_rank(registered, rank));
    }
    sources::law_order_is_determined(ordered, expected);
    store::law_precedence(values, path, i);
}

/// The settings block, given what reading it gave: absent is no error, anything else
/// wrong with it is.
pub fn optional_settings(
    read: Result<Settings, config::Error>,
) -> (settings: Result<Option<Settings>, InitError>)
    ensures
        match read {
            Ok(s) => settings == Ok::<Option<Settings>, InitError>(Some(s)),
            Err(config::Error::NotFound(_)) => settings == Ok::<Option<Settings>, InitError>(None),
            Err(e) => settings == Err::<Option<Settings>, InitError>(
                InitError::Logging(logging::Error::Settings(e)),
            ),
        },
{
    match read {
        Ok(s) => Ok(Some(s)),
        Err(config::Error::NotFound(_)) => Ok(None),
        Err(e) => Err(InitError::Logging(logging::Error::Settings(e))),
    }
}

/// Whether `builder` is the console-only default.
pub open spec fn is_console_only(given: Builder) -> bool {
    &&& given.console == Some(
        ConsoleConfig {
            target_stream: ConsoleTarget::Stderr,
            timestamp: TimestampFormat::Utc,
            use_color: true,
            thread_ids: true,
            target: true,
            lossy: false,
        },
    )
    &&& builder::is_empty(Builder { console: None, ..given })
}

/// The builder the settings describe, or the console-only default where there is no
/// block.
///
/// An explicit block is honoured or fails loudly here.
pub fn logging_builder(
    settings: &Option<Settings>,
    store: &Store,
) -> (builder: Result<Builder, InitError>)
    ensures
        match settings {
            Some(s) => match builder {
                Ok(b) => settings::is_applied(*s, store.tree(), Ok(b)),
                Err(InitError::Logging(e)) => settings::is_applied(*s, store.tree(), Err(e)),
                Err(InitError::Config(_)) => false,
            },
            None => builder is Ok && is_console_only(builder->Ok_0),
        },
{
    match settings {
        Some(s) => match s.apply(store) {
            Ok(b) => Ok(b),
            Err(e) => Err(InitError::Logging(e)),
        },
        None => Ok(builder::builder().console(ConsoleConfig::default())),
    }
}

/// The builder with the level from the store, given what parsing it gave, where there is
/// one.
pub fn with_store_level(
    builder: Builder,
    parsed: Option<Result<Filter, String>>,
) -> (leveled: Result<Builder, InitError>)
    ensures
        match parsed {
            None => leveled == Ok::<Builder, InitError>(builder),
            Some(Ok(f)) => leveled == Ok::<Builder, InitError>(
                Builder { filter: Some(f), ..builder },
            ),
            Some(Err(e)) => leveled matches Err(
                InitError::Logging(logging::Error::InvalidSettings(message)),
            ) && message@ == "rust_log: "@ + e@,
        },
{
    match parsed {
        None => Ok(builder),
        Some(Ok(f)) => Ok(builder.with_filter(f)),
        Some(Err(e)) => Err(
            InitError::Logging(
                logging::Error::InvalidSettings("rust_log: ".to_owned().concat(e.as_str())),
            ),
        ),
    }
}

/// The level the settings ask for.
pub open spec fn level_of(settings: Option<Settings>) -> Option<Seq<char>> {
    match settings {
        Some(s) => text::view_opt(s.level),
        None => None,
    }
}

/// Whether the settings hold an `app_insights` block.
pub open spec fn claims_export(settings: Option<Settings>) -> bool {
    match settings {
        Some(s) => s.app_insights is Some,
        None => false,
    }
}

/// With no explicit level, fall back to `rust_log` *from the store* rather than the
/// process environment.
///
/// Sourced from configuration, a typo is a startup error, not a lenient parse.
pub fn apply_store_level(
    builder: Builder,
    settings: &Option<Settings>,
    store: &Store,
) -> (leveled: Result<Builder, InitError>)
    ensures
        is_leveled(builder, *settings, store.tree(), leveled),
{
    let explicit: bool = match settings {
        Some(s) => s.level.is_some(),
        None => false,
    };
    if explicit {
        return Ok(builder);
    }
    match store.get_str("rust_log") {
        None => with_store_level(builder, None),
        Some(directives) => with_store_level(builder, Some(Filter::parse(directives.as_str()))),
    }
}

/// Whether `leveled` is the builder with the level from the store.
pub open spec fn is_leveled(
    given: Builder,
    settings: Option<Settings>,
    tree: Json,
    leveled: Result<Builder, InitError>,
) -> bool {
    if level_of(settings) is Some {
        leveled == Ok::<Builder, InitError>(given)
    } else {
        match filter::compiled(settings::text_at(tree, "rust_log"@)) {
            None => leveled == Ok::<Builder, InitError>(given),
            Some(Ok(d)) => leveled matches Ok(b) && b == (Builder {
                filter: b.filter,
                ..given
            }) && filter::text_of(b.filter) == Some(d),
            Some(Err(e)) => leveled matches Err(
                InitError::Logging(logging::Error::InvalidSettings(message)),
            ) && message@ == "rust_log: "@ + e,
        }
    }
}

/// Turn the exporter on when the conventional connection string is in the store and no
/// settings block claimed it.
///
/// Present means on: the connection string is a secret, so it arrives through the store
/// and never sits in the file itself. Its absence is a choice, not a failure.
pub fn auto_app_insights(
    builder: Builder,
    settings: &Option<Settings>,
    store: &Store,
    service_name: &str,
) -> (wired: Builder)
    ensures
        is_wired(builder, *settings, store.tree(), service_name@, wired),
{
    let claimed: bool = match settings {
        Some(s) => s.app_insights.is_some(),
        None => false,
    };
    if claimed {
        return builder;
    }
    let key: String = ascii_lower(appinsights::CONNECTION_STRING_VAR);
    match AppInsightsConfig::from_found(service_name, store.get_str(key.as_str())) {
        Ok(config) => builder.app_insights(config),
        Err(_) => builder,
    }
}

/// Whether `wired` is the builder with the export that the store calls for.
pub open spec fn is_wired(
    given: Builder,
    settings: Option<Settings>,
    tree: Json,
    service_name: Seq<char>,
    wired: Builder,
) -> bool {
    let found = settings::text_at(tree, text::ascii_lowered(appinsights::CONNECTION_STRING_VAR@));
    if claims_export(settings) || found is None {
        wired == given
    } else {
        &&& wired == (Builder { app_insights: wired.app_insights, ..given })
        &&& wired.app_insights matches Some(config)
        &&& config.connection_string@ == found->0
        &&& config.service_name@ == service_name
        &&& config.sample_rate.bits == double::ONE
    }
}

/// Whether `configured` is the builder that the settings and the store describe.
pub open spec fn is_configured(
    settings: Option<Settings>,
    tree: Json,
    service_name: Seq<char>,
    configured: Result<Builder, InitError>,
) -> bool {
    exists|base: Result<Builder, InitError>, leveled: Result<Builder, InitError>| #[trigger]
        is_chain(settings, tree, service_name, base, leveled, configured)
}

/// Whether the three steps lead to `configured`: what the settings describe, the level
/// from the store, the export from the store. The first step that fails is the outcome.
pub open spec fn is_chain(
    settings: Option<Settings>,
    tree: Json,
    service_name: Seq<char>,
    base: Result<Builder, InitError>,
    leveled: Result<Builder, InitError>,
    configured: Result<Builder, InitError>,
) -> bool {
    &&& match settings {
        Some(s) => match base {
            Ok(b) => settings::is_applied(s, tree, Ok(b)),
            Err(InitError::Logging(e)) => settings::is_applied(s, tree, Err(e)),
            Err(InitError::Config(_)) => false,
        },
        None => base is Ok && is_console_only(base->Ok_0),
    }
    &&& match base {
        Ok(b) => is_leveled(b, settings, tree, leveled),
        Err(_) => leveled == base,
    }
    &&& match leveled {
        Ok(l) => configured is Ok && is_wired(l, settings, tree, service_name, configured->Ok_0),
        Err(_) => configured == leveled,
    }
}

/// The builder of the stack, given the store and what reading the settings block from it
/// gave.
pub fn configure(
    options: &Options,
    read: Result<Settings, config::Error>,
    store: &Store,
) -> (configured: Result<Builder, InitError>)
    ensures
        match read {
            Ok(s) => is_configured(Some(s), store.tree(), options.service_name@, configured),
            Err(config::Error::NotFound(_)) => is_configured(
                None,
                store.tree(),
                options.service_name@,
                configured,
            ),
            Err(e) => configured == Err::<Builder, InitError>(
                InitError::Logging(logging::Error::Settings(e)),
            ),
        },
{
    let settings: Option<Settings> = match optional_settings(read) {
        Ok(s) => s,
        Err(e) => {
            return Err(e);
        },
    };
    let base: Result<Builder, InitError> = logging_builder(&settings, store);
    let ghost first = base;
    let leveled: Result<Builder, InitError> = match base {
        Ok(b) => apply_store_level(b, &settings, store),
        Err(e) => Err(e),
    };
    let ghost second = leveled;
    let configured: Result<Builder, InitError> = match leveled {
        Ok(b) => Ok(auto_app_insights(b, &settings, store, options.service_name.as_str())),
        Err(e) => Err(e),
    };
    proof {
        assert(is_chain(
            settings,
            store.tree(),
            options.service_name@,
            first,
            second,
            configured,
        ));
    }
    configured
}

/// Say what the stack consists of, given the store, what reading the settings block from
/// it gave, the slot of the installed stack, the value of `RUST_LOG` and the time of the
/// clock the gates go by.
pub fn init_with(
    options: &Options,
    read: Result<Settings, config::Error>,
    store: &Store,
    state: &LoggingState,
    rust_log: Option<&str>,
    now: u64,
) -> (plan: Result<Plan, InitError>)
    ensures
        match read {
            Ok(s) => is_initialized(
                Some(s),
                store.tree(),
                options.service_name@,
                *state,
                view_of(rust_log),
                now,
                plan,
            ),
            Err(config::Error::NotFound(_)) => is_initialized(
                None,
                store.tree(),
                options.service_name@,
                *state,
                view_of(rust_log),
                now,
                plan,
            ),
            Err(e) => plan == Err::<Plan, InitError>(
                InitError::Logging(logging::Error::Settings(e)),
            ),
        },
{
    match configure(options, read, store) {
        Ok(builder) => {
            let ghost configured = Ok::<Builder, InitError>(builder);
            let planned: Result<Plan, logging::Error> = builder.init(state, rust_log, now);
            let plan: Result<Plan, InitError> = match planned {
                Ok(plan) => Ok(plan),
                Err(e) => Err(InitError::Logging(e)),
            };
            proof {
                assert(is_planned(configured, *state, view_of(rust_log), now, plan));
            }
            plan
        },
        Err(e) => {
            proof {
                assert(is_planned(
                    Err::<Builder, InitError>(e),
                    *state,
                    view_of(rust_log),
                    now,
                    Err::<Plan, InitError>(e),
                ));
            }
            Err(e)
        },
    }
}

/// The text of a string that may be absent.
pub open spec fn view_of(s: Option<&str>) -> Option<Seq<char>> {
    match s {
        Some(text) => Some(text@),
        None => None,
    }
}

/// Whether `plan` is what comes of a builder: its own failure, a refusal where a stack is
/// installed already, or what building gives.
pub open spec fn is_planned(
    configured: Result<Builder, InitError>,
    state: LoggingState,
    rust_log: Option<Seq<char>>,
    now: u64,
    plan: Result<Plan, InitError>,
) -> bool {
    match configured {
        Err(e) => plan == Err::<Plan, InitError>(e),
        Ok(b) => if state.stored_handle() is Some {
            plan == Err::<Plan, InitError>(InitError::Logging(logging::Error::AlreadyInitialized))
        } else {
            match plan {
                Ok(p) => builder::is_plan(b, rust_log, now, Ok(p)),
                Err(InitError::Logging(e)) => builder::is_plan(b, rust_log, now, Err(e)),
                Err(InitError::Config(_)) => false,
            }
        },
    }
}

/// Whether `plan` is what the settings and the store come to.
pub open spec fn is_initialized(
    settings: Option<Settings>,
    tree: Json,
    service_name: Seq<char>,
    state: LoggingState,
    rust_log: Option<Seq<char>>,
    now: u64,
    plan: Result<Plan, InitError>,
) -> bool {
    exists|configured: Result<Builder, InitError>|
        is_configured(settings, tree, service_name, configured) && #[trigger] is_planned(
            configured,
            state,
            rust_log,
            now,
            plan,
        )
}

/// Render the configuration file for the line that reports the install: the path where it
/// was read, or an explicit absence.
pub fn describe_file(path: &str, present: bool) -> (rendered: String)
    ensures
        rendered@ == if present {
            path@
        } else {
            path@ + " (absent, skipped)"@
        },
{
    if present {
        path.to_owned()
    } else {
        path.to_owned().concat(" (absent, skipped)")
    }
}

/// The sources of a stack: the environment always, read with the prefix of the options;
/// the configuration file where it is there; the `.env` file where it is read, which wins
/// over the environment, which wins over the file.
pub proof fn law_stack_sources(
    options: Options,
    file_exists: bool,
    reads_dotenv: bool,
    registered: Seq<AnySource>,
    i: int,
    j: int,
)
    requires
        is_stack(options, file_exists, reads_dotenv, registered),
        0 <= i < registered.len(),
        0 <= j < registered.len(),
    ensures
        registered[i] is Env || registered[i] is Toml || registered[i] is DotEnv,
        registered[i] is Env && registered[j] is Env ==> i == j,
        registered[i] is Toml && registered[j] is Toml ==> i == j,
        registered[i] is DotEnv && registered[j] is DotEnv ==> i == j,
        registered[i] is DotEnv && registered[j] is Env ==> registered[i].rank()
            < registered[j].rank(),
        registered[i] is Env && registered[j] is Toml ==> registered[i].rank()
            < registered[j].rank(),
        registered[i] is Toml ==> file_exists,
        registered[i] is DotEnv ==> reads_dotenv,
        file_exists ==> exists|k: int| 0 <= k < registered.len() && #[trigger] registered[k] is Toml,
        reads_dotenv ==> exists|k: int|
            0 <= k < registered.len() && #[trigger] registered[k] is DotEnv,
        exists|k: int| 0 <= k < registered.len() && #[trigger] registered[k] is Env,
        registered[i] matches AnySource::Env(s) ==> s.selection() == Selection::Prefix(
            options.env_prefix@,
        ) && s.delimiter() == "__"@,
        registered[i] matches AnySource::Toml(s) ==> s.file() == options.config_file@,
        registered[i] matches AnySource::DotEnv(s) ==> s.selection() == Selection::Prefix(""@)
            && s.delimiter() == "__"@,
{
    assert(registered[0] is Env);
    if file_exists {
        assert(registered[1] is Toml);
    }
    if reads_dotenv {
        assert(registered[registered.len() - 1] is DotEnv);
    }
}

/// An explicit level is not overridden; without one the level is what `rust_log` in the
/// store says, and a value there that does not parse is an error. The level is all that
/// this changes.
pub proof fn law_level_from_store(
    given: Builder,
    settings: Option<Settings>,
    tree: Json,
    leveled: Result<Builder, InitError>,
)
    requires
        is_leveled(given, settings, tree, leveled),
    ensures
        settings is Some && settings->0.level is Some ==> leveled == Ok::<Builder, InitError>(
            given,
        ),
        settings is None || settings->0.level is None ==> (match value::lookup(
            tree,
            text::split("rust_log"@, '.'),
        ) {
            Some(Json::Text(directives)) => match filter::parsed_filter(directives) {
                Ok(_) => leveled is Ok && filter::text_of(leveled->Ok_0.filter) == Some(directives),
                Err(_) => leveled is Err,
            },
            _ => leveled == Ok::<Builder, InitError>(given),
        }),
        leveled matches Ok(b) ==> b == (Builder { filter: b.filter, ..given }),
{
}

/// The exporter is on exactly where it is asked for or the store holds the conventional
/// connection string: an `app_insights` block keeps what it asked for, and without one
/// the string in the store turns the export on, for every trace, under the service's
/// name. The export is all that this changes.
pub proof fn law_export_from_store(
    given: Builder,
    settings: Option<Settings>,
    tree: Json,
    service_name: Seq<char>,
    wired: Builder,
)
    requires
        is_wired(given, settings, tree, service_name, wired),
    ensures
        settings is Some && settings->0.app_insights is Some ==> wired == given,
        settings is None || settings->0.app_insights is None ==> (match value::lookup(
            tree,
            text::split("applicationinsights_connection_string"@, '.'),
        ) {
            Some(Json::Text(found)) => wired.app_insights is Some
                && wired.app_insights->0.connection_string@ == found
                && wired.app_insights->0.service_name@ == service_name
                && wired.app_insights->0.sample_rate.bits == 0x3FF0_0000_0000_0000,
            _ => wired == given,
        }),
        wired == (Builder { app_insights: wired.app_insights, ..given }),
{
    reveal_strlit("APPLICATIONINSIGHTS_CONNECTION_STRING");
    reveal_strlit("applicationinsights_connection_string");
    assert(text::ascii_lowered("APPLICATIONINSIGHTS_CONNECTION_STRING"@)
        =~= "applicationinsights_connection_string"@);
}

/// Whether a tree holds a text at a dot-separated key path.
pub open spec fn holds_text(tree: Json, key: Seq<char>) -> bool {
    value::lookup(tree, text::split(key, '.')) is Some && value::lookup(
        tree,
        text::split(key, '.'),
    )->0 is Text
}

/// Without a settings block there is a console, on the error stream and in colour, and
/// nothing else but what the store adds: a level, and the export.
pub proof fn law_defaults_without_settings(
    tree: Json,
    service_name: Seq<char>,
    configured: Result<Builder, InitError>,
)
    requires
        is_configured(None, tree, service_name, configured),
    ensures
        configured is Err <==> holds_text(tree, "rust_log"@) && filter::parsed_filter(
            value::lookup(tree, text::split("rust_log"@, '.'))->0->Text_0,
        ) is Err,
        configured matches Ok(b) ==> ({
            &&& b.console is Some
            &&& b.console->0.target_stream == ConsoleTarget::Stderr
            &&& b.console->0.timestamp == TimestampFormat::Utc
            &&& b.console->0.use_color
            &&& b.console->0.thread_ids
            &&& b.console->0.target
            &&& !b.console->0.lossy
            &&& b.json is None && b.file is None && b.syslog is None
            &&& b.sampling is None && b.rate_limit is None
            &&& b.redact_keys@.len() == 0 && b.global_fields@.len() == 0
            &&& b.filter is Some <==> holds_text(tree, "rust_log"@)
            &&& b.app_insights is Some <==> holds_text(
                tree,
                "applicationinsights_connection_string"@,
            )
        }),
{
    let (base, leveled) = choose|base: Result<Builder, InitError>, leveled: Result<
        Builder,
        InitError,
    >| #[trigger] is_chain(None, tree, service_name, base, leveled, configured);
    law_level_from_store(base->Ok_0, None, tree, leveled);
    if leveled is Ok {
        law_export_from_store(leveled->Ok_0, None, tree, service_name, configured->Ok_0);
    }
}

/// A second stack is never installed: where one is there, what is configured is refused,
/// and where none is, nothing is refused on that account. A configuration that failed
/// fails as it did.
pub proof fn law_one_stack(
    configured: Result<Builder, InitError>,
    state: LoggingState,
    rust_log: Option<Seq<char>>,
    now: u64,
    plan: Result<Plan, InitError>,
)
    requires
        is_planned(configured, state, rust_log, now, plan),
    ensures
        configured matches Err(e) ==> plan == Err::<Plan, InitError>(e),
        configured is Ok && state.stored_handle() is Some ==> plan == Err::<Plan, InitError>(
            InitError::Logging(logging::Error::AlreadyInitialized),
        ),
        configured is Ok && state.stored_handle() is None ==> (plan is Err
            <==> filter::first_invalid(configured->Ok_0.sink_filters) is Some),
{
}

/// With a settings block the stack is the one that the block describes, and the store
/// only fills in what the block leaves open: the level, where the block has none, and the
/// export, where the block has none. It fails exactly where the block cannot be honoured,
/// or the level in the store that would be used does not parse.
pub proof fn law_settings_come_first(
    settings: Settings,
    tree: Json,
    service_name: Seq<char>,
    configured: Result<Builder, InitError>,
)
    requires
        is_configured(Some(settings), tree, service_name, configured),
    ensures
        ({
            let bad_level = settings.level is Some && filter::parsed_filter(settings.level->0@) is Err;
            let no_string = settings.app_insights is Some && !holds_text(
                tree,
                settings.app_insights->0.connection_string_key@,
            );
            let bad_store_level = settings.level is None && holds_text(tree, "rust_log"@)
                && filter::parsed_filter(
                value::lookup(tree, text::split("rust_log"@, '.'))->0->Text_0,
            ) is Err;
            &&& configured is Err <==> bad_level || no_string || bad_store_level
            &&& configured matches Ok(b) ==> ({
                &&& b.console is Some <==> settings.console is Some
                &&& b.json is Some <==> settings.json is Some
                &&& b.file is Some <==> settings.file is Some
                &&& b.sampling is Some <==> settings.sampling is Some
                &&& b.rate_limit is Some <==> settings.rate_limit is Some
                &&& b.queue_size == settings.queue_size
                &&& settings.level is Some ==> b.filter is Some && b.filter->0.text()
                    == settings.level->0@
                &&& settings.level is None && holds_text(tree, "rust_log"@) ==> b.filter is Some
                    && b.filter->0.text() == value::lookup(
                    tree,
                    text::split("rust_log"@, '.'),
                )->0->Text_0
                &&& settings.level is None && !holds_text(tree, "rust_log"@) ==> b.filter is None
                &&& b.app_insights is Some <==> settings.app_insights is Some || holds_text(
                    tree,
                    "applicationinsights_connection_string"@,
                )
                &&& settings.app_insights is Some ==> b.app_insights->0.service_name@
                    == settings.app_insights->0.service_name@ && b.app_insights->0.sample_rate
                    == settings.app_insights->0.sample_rate
            })
        }),
{
    let (base, leveled) = choose|base: Result<Builder, InitError>, leveled: Result<
        Builder,
        InitError,
    >| #[trigger] is_chain(Some(settings), tree, service_name, base, leveled, configured);
    match base {
        Ok(b) => {
            settings::law_honoured_or_fails(settings, tree, Ok(b));
            law_level_from_store(b, Some(settings), tree, leveled);
            if leveled is Ok {
                law_export_from_store(
                    leveled->Ok_0,
                    Some(settings),
                    tree,
                    service_name,
                    configured->Ok_0,
                );
            }
        },
        Err(InitError::Logging(e)) => {
            settings::law_honoured_or_fails(settings, tree, Err(e));
        },
        Err(InitError::Config(_)) => {},
    }
}

/// A service that configures nothing gets a console: with no settings block and nothing
/// in the store, and where no stack is installed yet, initialising succeeds with a console
/// sink and no other, filtered by `RUST_LOG` where it parses and at `info` otherwise.
pub proof fn law_default_stack(
    tree: Json,
    service_name: Seq<char>,
    state: LoggingState,
    rust_log: Option<Seq<char>>,
    now: u64,
    plan: Result<Plan, InitError>,
)
    requires
        is_initialized(None, tree, service_name, state, rust_log, now, plan),
        !holds_text(tree, "rust_log"@),
        !holds_text(tree, "applicationinsights_connection_string"@),
    ensures
        state.stored_handle() is Some <==> plan is Err,
        plan matches Err(e) ==> e == InitError::Logging(logging::Error::AlreadyInitialized),
        plan matches Ok(p) ==> p.console is Some && p.json is None && p.file is None
            && p.syslog is None && p.app_insights is None && p.gates is None
            && p.console->0.stream == ConsoleTarget::Stderr && p.console->0.line.redact@.len() == 0,
        plan matches Ok(p) ==> p.filter.text() == (if rust_log is Some && filter::parsed_filter(
            rust_log->0,
        ) is Ok {
            rust_log->0
        } else {
            "info"@
        }),
{
    let configured = choose|configured: Result<Builder, InitError>|
        is_configured(None, tree, service_name, configured) && #[trigger] is_planned(
            configured,
            state,
            rust_log,
            now,
            plan,
        );
    law_defaults_without_settings(tree, service_name, configured);
    let (base, leveled) = choose|base: Result<Builder, InitError>, leveled: Result<
        Builder,
        InitError,
    >| #[trigger] is_chain(None, tree, service_name, base, leveled, configured);
    let b = configured->Ok_0;
    assert(b.sink_filters == base->Ok_0.sink_filters);
    filter::law_first_invalid_sink(b.sink_filters);
    if plan is Ok {
        builder::law_configured_sinks(b, rust_log, now, Ok(plan->Ok_0));
        builder::law_global_filter(b, rust_log, now, plan->Ok_0);
        let redact = text::views(plan->Ok_0.console->0.line.redact@);
        assert(redact == text::views(b.redact_keys@));
        assert(redact.len() == 0);
    }
}

/// A failure to start is told in the words of the failure behind it, and the two kinds
/// are told apart by how the message begins.
pub proof fn law_init_message(config: config::Error, logging: logging::Error)
    ensures
        ({
            let text = InitError::Config(config).text();
            text.len() >= config.text().len() && text.skip(text.len() - config.text().len())
                == config.text()
        }),
        ({
            let text = InitError::Logging(logging).text();
            text.len() >= logging.text().len() && text.skip(text.len() - logging.text().len())
                == logging.text()
        }),
        InitError::Config(config).text() != InitError::Logging(logging).text(),
{
    let a = InitError::Config(config).text();
    let b = InitError::Logging(logging).text();
    assert(a.skip(a.len() - config.text().len()) =~= config.text());
    assert(b.skip(b.len() - logging.text().len()) =~= logging.text());
    reveal_strlit("could not load configuration: ");
    reveal_strlit("could not initialize logging: ");
    assert(a[10] == 'l');
    assert(b[10] == 'i');
}

/// A level in the store that does not parse is reported under its key, with what is wrong
/// with it.
pub proof fn law_bad_store_level_is_named(
    given: Builder,
    settings: Option<Settings>,
    tree: Json,
    leveled: Result<Builder, InitError>,
)
    requires
        is_leveled(given, settings, tree, leveled),
        leveled is Err,
    ensures
        leveled->Err_0 matches InitError::Logging(logging::Error::InvalidSettings(message))
            && message@ == "rust_log: "@ + filter::parsed_filter(
            value::lookup(tree, text::split("rust_log"@, '.'))->0->Text_0,
        )->Err_0,
{
}

/// A service that configures its logging gets what it configured: where initialising
/// succeeds, no stack was installed before, and the sinks are those the settings block
/// has, with the export where the block or the store asks for it. Where a stack is
/// installed already it never succeeds.
pub proof fn law_configured_stack(
    settings: Settings,
    tree: Json,
    service_name: Seq<char>,
    state: LoggingState,
    rust_log: Option<Seq<char>>,
    now: u64,
    plan: Result<Plan, InitError>,
)
    requires
        is_initialized(Some(settings), tree, service_name, state, rust_log, now, plan),
    ensures
        plan is Ok ==> state.stored_handle() is None,
        plan matches Ok(p) ==> ({
            &&& p.console is Some <==> settings.console is Some
            &&& p.json is Some <==> settings.json is Some
            &&& p.file is Some <==> settings.file is Some
            &&& p.gates is Some <==> settings.sampling is Some || settings.rate_limit is Some
            &&& p.app_insights is Some <==> settings.app_insights is Some || holds_text(
                tree,
                "applicationinsights_connection_string"@,
            )
            &&& settings.level is Some ==> p.filter.text() == settings.level->0@
        }),
        settings.level is Some && filter::parsed_filter(settings.level->0@) is Err ==> plan is Err,
{
    let configured = choose|configured: Result<Builder, InitError>|
        is_configured(Some(settings), tree, service_name, configured) && #[trigger] is_planned(
            configured,
            state,
            rust_log,
            now,
            plan,
        );
    law_settings_come_first(settings, tree, service_name, configured);
    law_one_stack(configured, state, rust_log, now, plan);
    if plan is Ok {
        let b = configured->Ok_0;
        builder::law_configured_sinks(b, rust_log, now, Ok(plan->Ok_0));
        builder::law_global_filter(b, rust_log, now, plan->Ok_0);
    }
}

} // verus!

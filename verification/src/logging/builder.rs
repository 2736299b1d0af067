//! Assembles the logging stack: sinks, filters, gates, exporters.

use vstd::prelude::*;

use crate::logging::appinsights::{self, AppInsightsConfig};
use crate::logging::error::Error;
use crate::logging::filter::{
    self, clone_filter, default_filter, Filter, ParsedSinkFilters, SinkFilters,
};
use crate::logging::flush::FlushCounters;
use crate::logging::gate::{self, layer_for, Gate, GateLayer};
use crate::logging::handle::{may_install, Handle, LoggingState};
use crate::logging::rate_limit::{self, RateLimit};
use crate::logging::sampling::{self, Rate, SampleConfig};
use crate::logging::sink_config::{ConsoleConfig, FileConfig, JsonConfig};
use crate::logging::sinks::{
    self, console_group, file_group, json_group, render_globals, syslog_group, ConsolePlan, FilePlan,
    JsonPlan, SyslogPlan,
};
use crate::logging::syslog::SyslogConfig;
use crate::text::{self, same, to_lowercase};

verus! {

broadcast use vstd::string::group_string_axioms;

/// Capacity of a sink's queue where none was asked for.
pub const DEFAULT_QUEUE_SIZE: usize = 128_000;

/// Assembles the logging stack.
///
/// Chain what the service needs, and finish with [`Builder::build`], which says what the
/// stack consists of.
#[derive(Debug)]
#[non_exhaustive]
pub struct Builder {
    /// Console sink, when configured.
    pub console: Option<ConsoleConfig>,
    /// JSON sink, when configured.
    pub json: Option<JsonConfig>,
    /// File sink, when configured.
    pub file: Option<FileConfig>,
    /// The global filter, when set.
    pub filter: Option<Filter>,
    /// Allow the global filter to be swapped at runtime.
    pub reloadable: bool,
    /// Capacity of the queues, when set.
    pub queue_size: Option<usize>,
    /// Rate limit, when configured.
    pub rate_limit: Option<RateLimit>,
    /// Sampling, when configured.
    pub sampling: Option<SampleConfig>,
    /// Whether the caller supplies layers of its own.
    pub custom_layers: bool,
    /// Whether a formatter of the caller's replaces the built-in console layout.
    pub console_format: bool,
    /// Whether a formatter of the caller's replaces the built-in text layout of the file
    /// sink.
    pub file_format: bool,
    /// Route panics through the subscriber.
    pub capture_panics: bool,
    /// Fields attached to every event.
    pub global_fields: Vec<(String, String)>,
    /// Lower-cased field names whose values are masked in rendered output.
    pub redact_keys: Vec<String>,
    /// Syslog sink, when configured.
    pub syslog: Option<SyslogConfig>,
    /// Application Insights export, when configured.
    pub app_insights: Option<AppInsightsConfig>,
    /// Per-sink filter directives.
    pub sink_filters: SinkFilters,
}

/// Whether nothing has been configured.
pub open spec fn is_empty(builder: Builder) -> bool {
    &&& builder.console is None
    &&& builder.json is None
    &&& builder.file is None
    &&& builder.filter is None
    &&& !builder.reloadable
    &&& builder.queue_size is None
    &&& builder.rate_limit is None
    &&& builder.sampling is None
    &&& !builder.custom_layers
    &&& !builder.console_format
    &&& !builder.file_format
    &&& !builder.capture_panics
    &&& builder.global_fields@.len() == 0
    &&& builder.redact_keys@.len() == 0
    &&& builder.syslog is None
    &&& builder.app_insights is None
    &&& builder.sink_filters == (SinkFilters {
        console: None,
        json: None,
        file: None,
        syslog: None,
        app_insights: None,
    })
}

impl Default for Builder {
    /// A builder on which nothing has been configured.
    fn default() -> (builder: Self)
        ensures
            is_empty(builder),
    {
        Builder {
            console: None,
            json: None,
            file: None,
            filter: None,
            reloadable: false,
            queue_size: None,
            rate_limit: None,
            sampling: None,
            custom_layers: false,
            console_format: false,
            file_format: false,
            capture_panics: false,
            global_fields: Vec::new(),
            redact_keys: Vec::new(),
            syslog: None,
            app_insights: None,
            sink_filters: SinkFilters::none(),
        }
    }
}

/// Start building the logging stack.
pub fn builder() -> (builder: Builder)
    ensures
        is_empty(builder),
{
    Builder::default()
}

/// The fields without those of one key.
pub open spec fn without_key(
    fields: Seq<(String, String)>,
    key: Seq<char>,
) -> Seq<(String, String)> {
    fields.filter(|field: (String, String)| field.0@ != key)
}

/// Whether no key stands in the fields twice.
pub open spec fn distinct_keys(fields: Seq<(String, String)>) -> bool {
    forall|i: int, j: int|
        0 <= i < j < fields.len() ==> (#[trigger] fields[i]).0@ != (#[trigger] fields[j]).0@
}

/// Whether a field has the key.
spec fn has_key(fields: Seq<(String, String)>, key: Seq<char>) -> bool {
    exists|i: int| 0 <= i < fields.len() && (#[trigger] fields[i]).0@ == key
}

/// What is left without a key: fields of other keys, and of no key that was not there.
proof fn lemma_without_key(fields: Seq<(String, String)>, key: Seq<char>)
    ensures
        !has_key(without_key(fields, key), key),
        forall|other: Seq<char>| #[trigger]
            has_key(without_key(fields, key), other) ==> has_key(fields, other),
        distinct_keys(fields) ==> distinct_keys(without_key(fields, key)),
    decreases fields.len(),
{
    reveal(Seq::filter);
    let left = without_key(fields, key);
    if fields.len() > 0 {
        let shorter = fields.drop_last();
        let before = without_key(shorter, key);
        lemma_without_key(shorter, key);
        assert forall|other: Seq<char>| has_key(shorter, other) implies has_key(fields, other) by {
            let i = choose|i: int|
                0 <= i < shorter.len() && (#[trigger] shorter[i]).0@ == other;
            assert(fields[i] == shorter[i]);
        }
        if fields.last().0@ != key {
            assert(left == before.push(fields.last()));
            assert forall|other: Seq<char>| has_key(left, other) implies has_key(fields, other) by {
                let i = choose|i: int| 0 <= i < left.len() && (#[trigger] left[i]).0@ == other;
                if i < before.len() {
                    assert(before[i] == left[i]);
                    assert(has_key(before, other));
                } else {
                    assert(fields[fields.len() - 1].0@ == other);
                }
            }
            if has_key(left, key) {
                let i = choose|i: int| 0 <= i < left.len() && (#[trigger] left[i]).0@ == key;
                assert(before[i] == left[i]);
                assert(has_key(before, key));
            }
            if distinct_keys(fields) {
                assert(distinct_keys(shorter)) by {
                    assert forall|i: int, j: int| 0 <= i < j < shorter.len() implies (
                    #[trigger] shorter[i]).0@ != (#[trigger] shorter[j]).0@ by {
                        assert(fields[i] == shorter[i] && fields[j] == shorter[j]);
                    }
                }
                assert forall|i: int, j: int| 0 <= i < j < left.len() implies (
                #[trigger] left[i]).0@ != (#[trigger] left[j]).0@ by {
                    assert(before[i] == left[i]);
                    if j < before.len() {
                        assert(before[j] == left[j]);
                    } else if left[i].0@ == left[j].0@ {
                        assert(has_key(before, fields.last().0@));
                        let k = choose|k: int|
                            0 <= k < shorter.len() && (#[trigger] shorter[k]).0@
                                == fields.last().0@;
                        assert(fields[k] == shorter[k]);
                        assert(fields[k].0@ != fields[fields.len() - 1].0@);
                    }
                }
            }
        } else {
            assert(left == before);
            if distinct_keys(fields) {
                assert forall|i: int, j: int| 0 <= i < j < shorter.len() implies (
                #[trigger] shorter[i]).0@ != (#[trigger] shorter[j]).0@ by {
                    assert(fields[i] == shorter[i] && fields[j] == shorter[j]);
                }
            }
        }
    }
}

/// A later global field replaces an earlier one of the same key: where no key stood
/// twice among the fields, none does after [`Builder::global_field`].
pub proof fn law_global_field_replaces(
    before: Seq<(String, String)>,
    after: Seq<(String, String)>,
    key: Seq<char>,
)
    requires
        distinct_keys(before),
        after.len() == without_key(before, key).len() + 1,
        after.drop_last() == without_key(before, key),
        after.last().0@ == key,
    ensures
        distinct_keys(after),
{
    let kept = without_key(before, key);
    lemma_without_key(before, key);
    assert forall|i: int, j: int| 0 <= i < j < after.len() implies (#[trigger] after[i]).0@ != (
    #[trigger] after[j]).0@ by {
        assert(after.drop_last()[i] == after[i]);
        assert(kept[i] == after[i]);
        if j < kept.len() {
            assert(after.drop_last()[j] == after[j]);
        } else if after[i].0@ == key {
            assert(has_key(kept, key));
        }
    }
}

impl Builder {
    /// Add the console sink.
    pub fn console(self, config: ConsoleConfig) -> (builder: Builder)
        ensures
            builder == (Builder { console: Some(config), ..self }),
    {
        let mut builder: Builder = self;
        builder.console = Some(config);
        builder
    }

    /// Add the JSON sink.
    pub fn json(self, config: JsonConfig) -> (builder: Builder)
        ensures
            builder == (Builder { json: Some(config), ..self }),
    {
        let mut builder: Builder = self;
        builder.json = Some(config);
        builder
    }

    /// Add the file sink.
    pub fn file(self, config: FileConfig) -> (builder: Builder)
        ensures
            builder == (Builder { file: Some(config), ..self }),
    {
        let mut builder: Builder = self;
        builder.file = Some(config);
        builder
    }

    /// Compose a layer of the caller's onto the stack.
    ///
    /// It sits outside the global filter and inside the sampling and rate-limit gates, so
    /// it observes exactly the events the built-in sinks observe.
    pub fn with_layer(self) -> (builder: Builder)
        ensures
            builder == (Builder { custom_layers: true, ..self }),
    {
        let mut builder: Builder = self;
        builder.custom_layers = true;
        builder
    }

    /// Take full control of the console log line with a formatter of the caller's. It
    /// replaces the built-in layout, so colour, thread ids and target no longer apply.
    pub fn console_format(self) -> (builder: Builder)
        ensures
            builder == (Builder { console_format: true, ..self }),
    {
        let mut builder: Builder = self;
        builder.console_format = true;
        builder
    }

    /// Take full control of the plain-text file log line with a formatter of the caller's.
    /// Applies only when the file sink writes text.
    pub fn file_format(self) -> (builder: Builder)
        ensures
            builder == (Builder { file_format: true, ..self }),
    {
        let mut builder: Builder = self;
        builder.file_format = true;
        builder
    }

    /// Route panics through the logging stack.
    pub fn capture_panics(self) -> (builder: Builder)
        ensures
            builder == (Builder { capture_panics: true, ..self }),
    {
        let mut builder: Builder = self;
        builder.capture_panics = true;
        builder
    }

    /// Export events to Azure Application Insights.
    pub fn app_insights(self, config: AppInsightsConfig) -> (builder: Builder)
        ensures
            builder == (Builder { app_insights: Some(config), ..self }),
    {
        let mut builder: Builder = self;
        builder.app_insights = Some(config);
        builder
    }

    /// Add the syslog sink.
    pub fn syslog(self, config: SyslogConfig) -> (builder: Builder)
        ensures
            builder == (Builder { syslog: Some(config), ..self }),
    {
        let mut builder: Builder = self;
        builder.syslog = Some(config);
        builder
    }

    /// Set the global filter. Without it, `RUST_LOG` is consulted and `info` is the
    /// fallback.
    pub fn with_filter(self, filter: Filter) -> (builder: Builder)
        ensures
            builder == (Builder { filter: Some(filter), ..self }),
    {
        let mut builder: Builder = self;
        builder.filter = Some(filter);
        builder
    }

    /// Allow the global filter to be swapped at runtime.
    pub fn reloadable(self) -> (builder: Builder)
        ensures
            builder == (Builder { reloadable: true, ..self }),
    {
        let mut builder: Builder = self;
        builder.reloadable = true;
        builder
    }

    /// Override the default capacity of the queues.
    pub fn queue_size(self, size: usize) -> (builder: Builder)
        ensures
            builder == (Builder { queue_size: Some(size), ..self }),
    {
        let mut builder: Builder = self;
        builder.queue_size = Some(size);
        builder
    }

    /// Apply a token-bucket rate limit to every event, dropping the excess before it reaches
    /// any sink. Runs after sampling and before the global filter.
    pub fn rate_limit(self, limit: RateLimit) -> (builder: Builder)
        ensures
            builder == (Builder { rate_limit: Some(limit), ..self }),
    {
        let mut builder: Builder = self;
        builder.rate_limit = Some(limit);
        builder
    }

    /// Apply probabilistic event sampling. Consulted before the rate limit, so a sampled-out
    /// event does not spend a token.
    pub fn sampling(self, config: SampleConfig) -> (builder: Builder)
        ensures
            builder == (Builder { sampling: Some(config), ..self }),
    {
        let mut builder: Builder = self;
        builder.sampling = Some(config);
        builder
    }

    /// Filter the console sink independently of the others, on top of the global filter.
    pub fn console_filter(self, directives: &str) -> (builder: Builder)
        ensures
            text::view_opt(builder.sink_filters.console) == Some(directives@),
            builder == (Builder {
                sink_filters: SinkFilters {
                    console: builder.sink_filters.console,
                    ..self.sink_filters
                },
                ..self
            }),
    {
        let mut builder: Builder = self;
        builder.sink_filters.console = Some(directives.to_owned());
        builder
    }

    /// Filter the JSON sink independently of the others, on top of the global filter.
    pub fn json_filter(self, directives: &str) -> (builder: Builder)
        ensures
            text::view_opt(builder.sink_filters.json) == Some(directives@),
            builder == (Builder {
                sink_filters: SinkFilters {
                    json: builder.sink_filters.json,
                    ..self.sink_filters
                },
                ..self
            }),
    {
        let mut builder: Builder = self;
        builder.sink_filters.json = Some(directives.to_owned());
        builder
    }

    /// Filter the file sink independently of the others, on top of the global filter.
    pub fn file_filter(self, directives: &str) -> (builder: Builder)
        ensures
            text::view_opt(builder.sink_filters.file) == Some(directives@),
            builder == (Builder {
                sink_filters: SinkFilters {
                    file: builder.sink_filters.file,
                    ..self.sink_filters
                },
                ..self
            }),
    {
        let mut builder: Builder = self;
        builder.sink_filters.file = Some(directives.to_owned());
        builder
    }

    /// Filter the syslog sink independently of the others, on top of the global filter.
    pub fn syslog_filter(self, directives: &str) -> (builder: Builder)
        ensures
            text::view_opt(builder.sink_filters.syslog) == Some(directives@),
            builder == (Builder {
                sink_filters: SinkFilters {
                    syslog: builder.sink_filters.syslog,
                    ..self.sink_filters
                },
                ..self
            }),
    {
        let mut builder: Builder = self;
        builder.sink_filters.syslog = Some(directives.to_owned());
        builder
    }

    /// Filter the Application Insights sink independently of the others, on top of the global filter.
    pub fn app_insights_filter(self, directives: &str) -> (builder: Builder)
        ensures
            text::view_opt(builder.sink_filters.app_insights) == Some(directives@),
            builder == (Builder {
                sink_filters: SinkFilters {
                    app_insights: builder.sink_filters.app_insights,
                    ..self.sink_filters
                },
                ..self
            }),
    {
        let mut builder: Builder = self;
        builder.sink_filters.app_insights = Some(directives.to_owned());
        builder
    }

    /// Attach a field to every event this process emits. A later call with the same key
    /// replaces the earlier value.
    ///
    /// Applies to the text sinks. The JSON sink is not affected: text prepended to a JSON
    /// object would stop it being JSON.
    pub fn global_field(self, key: &str, value: &str) -> (builder: Builder)
        ensures
            builder == (Builder { global_fields: builder.global_fields, ..self }),
            builder.global_fields@.len() == without_key(self.global_fields@, key@).len() + 1,
            builder.global_fields@.drop_last() == without_key(self.global_fields@, key@),
            builder.global_fields@.last().0@ == key@,
            builder.global_fields@.last().1@ == value@,
    {
        let mut builder: Builder = self;
        let ghost given = self.global_fields@;
        let mut fields: Vec<(String, String)> = Vec::new();
        let mut i: usize = 0;
        proof {
            reveal(Seq::filter);
            assert(without_key(given.take(0), key@) =~= Seq::<(String, String)>::empty());
        }
        while i < builder.global_fields.len()
            invariant
                i <= given.len(),
                builder.global_fields@ == given,
                fields@ == without_key(given.take(i as int), key@),
            decreases builder.global_fields.len() - i,
        {
            proof {
                reveal(Seq::filter);
                assert(given.take(i + 1).drop_last() =~= given.take(i as int));
            }
            if !same(builder.global_fields[i].0.as_str(), key) {
                fields.push(
                    (builder.global_fields[i].0.clone(), builder.global_fields[i].1.clone()),
                );
            }
            i = i + 1;
        }
        proof {
            assert(given.take(i as int) =~= given);
        }
        let ghost kept = fields@;
        fields.push((key.to_owned(), value.to_owned()));
        proof {
            assert(fields@.drop_last() =~= kept);
        }
        builder.global_fields = fields;
        builder
    }

    /// Mask the values of the fields with these names, without regard to case.
    ///
    /// A safety net, not a guarantee: it works on rendered text, so a secret that never
    /// appears as `key=value` is not caught. Applies to the text sinks.
    pub fn redact(self, keys: &[&str]) -> (builder: Builder)
        ensures
            builder == (Builder { redact_keys: builder.redact_keys, ..self }),
            text::views(builder.redact_keys@) == text::views(self.redact_keys@)
                + keys@.map_values(|key: &str| text::lowercase(key@)),
    {
        let mut builder: Builder = self;
        let ghost given = text::views(self.redact_keys@);
        let ghost lowered = keys@.map_values(|key: &str| text::lowercase(key@));
        let mut names: Vec<String> = builder.redact_keys.clone();
        let mut i: usize = 0;
        proof {
            assert(text::views(names@) =~= given + lowered.take(0));
        }
        while i < keys.len()
            invariant
                i <= keys@.len(),
                lowered == keys@.map_values(|key: &str| text::lowercase(key@)),
                text::views(names@) == given + lowered.take(i as int),
            decreases keys.len() - i,
        {
            let ghost before = names@;
            names.push(to_lowercase(keys[i]));
            proof {
                assert(text::views(names@) =~= text::views(before).push(lowered[i as int]));
                assert(lowered.take(i + 1) =~= lowered.take(i as int).push(lowered[i as int]));
                assert(text::views(names@) =~= given + lowered.take(i + 1));
            }
            i = i + 1;
        }
        proof {
            assert(lowered.take(i as int) =~= lowered);
        }
        builder.redact_keys = names;
        builder
    }

    /// Say what the stack consists of, given the value of `RUST_LOG` and the time of the
    /// clock the gates go by.
    ///
    /// A bad filter directive fails here, naming the sink that owns it. What remains is
    /// to open the file writer and the exporter, which can fail, and to compose the
    /// layers.
    pub fn build(self, rust_log: Option<&str>, now: u64) -> (plan: Result<Plan, Error>)
        ensures
            is_plan(
                self,
                match rust_log {
                    Some(directives) => Some(directives@),
                    None => None,
                },
                now,
                plan,
            ),
    {
        let filters: ParsedSinkFilters = match self.sink_filters.parse() {
            Ok(filters) => filters,
            Err(e) => {
                return Err(e);
            },
        };
        let queue: usize = match self.queue_size {
            Some(size) => size,
            None => DEFAULT_QUEUE_SIZE,
        };
        let globals: String = render_globals(&self.global_fields);
        let console: Option<ConsolePlan> = console_group(
            &self.console,
            queue,
            globals.as_str(),
            &self.redact_keys,
            self.console_format,
            &filters.console,
        );
        let json: Option<JsonPlan> = json_group(&self.json, queue, &filters.json);
        let file: Option<FilePlan> = file_group(
            &self.file,
            queue,
            globals.as_str(),
            &self.redact_keys,
            self.file_format,
            &filters.file,
        );
        let filter: Filter = match self.filter {
            Some(filter) => filter,
            None => default_filter(rust_log),
        };
        let syslog: Option<SyslogPlan> = syslog_group(self.syslog, &filters.syslog);
        let app_insights: Option<ExportPlan> = match self.app_insights {
            Some(config) => {
                let sample_rate: Rate = config.effective_sample_rate();
                Some(
                    ExportPlan {
                        connection_string: config.connection_string,
                        service_name: config.service_name,
                        sample_rate,
                        filter: clone_filter(&filters.app_insights),
                    },
                )
            },
            None => None,
        };
        Ok(
            Plan {
                capture_panics: self.capture_panics,
                filter,
                reloadable: self.reloadable,
                custom_layers: self.custom_layers,
                gates: layer_for(self.sampling, self.rate_limit, now),
                console,
                json,
                file,
                syslog,
                app_insights,
            },
        )
    }

    /// [`Builder::build`] for a stack that is to be installed: fails before anything is
    /// built where one from this facade is installed already.
    pub fn init(
        self,
        state: &LoggingState,
        rust_log: Option<&str>,
        now: u64,
    ) -> (plan: Result<Plan, Error>)
        ensures
            if state.stored_handle() is Some {
                plan == Err::<Plan, Error>(Error::AlreadyInitialized)
            } else {
                is_plan(
                    self,
                    match rust_log {
                        Some(directives) => Some(directives@),
                        None => None,
                    },
                    now,
                    plan,
                )
            },
    {
        match may_install(state) {
            Ok(_) => self.build(rust_log, now),
            Err(e) => Err(e),
        }
    }
}

/// The Application Insights export to build.
#[derive(Debug)]
pub struct ExportPlan {
    /// The connection string.
    pub connection_string: String,
    /// The service name.
    pub service_name: String,
    /// Fraction of traces exported.
    pub sample_rate: Rate,
    /// What the log records are filtered by.
    pub filter: Filter,
}

/// What a stack consists of.
#[derive(Debug)]
pub struct Plan {
    /// Route panics through the subscriber.
    pub capture_panics: bool,
    /// The global filter, innermost.
    pub filter: Filter,
    /// Whether the global filter can be swapped at runtime.
    pub reloadable: bool,
    /// Whether the caller's layers are composed in. Without any there is no such layer:
    /// an empty list of layers would silence the stack.
    pub custom_layers: bool,
    /// The gates, where any were configured.
    pub gates: Option<GateLayer<Gate>>,
    /// The console sink.
    pub console: Option<ConsolePlan>,
    /// The JSON sink.
    pub json: Option<JsonPlan>,
    /// The file sink.
    pub file: Option<FilePlan>,
    /// The syslog sink.
    pub syslog: Option<SyslogPlan>,
    /// The Application Insights export.
    pub app_insights: Option<ExportPlan>,
}

impl Plan {
    /// The handle of the stack: a writer for each of the console, JSON and file sinks,
    /// which has done nothing yet.
    pub fn handle(&self) -> (handle: Handle)
        ensures
            handle.reloadable == self.reloadable,
            handle.console is Some <==> self.console is Some,
            handle.json is Some <==> self.json is Some,
            handle.file is Some <==> self.file is Some,
            handle.app_insights == self.app_insights is Some,
            forall|w: FlushCounters|
                handle.console == Some(w) || handle.json == Some(w) || handle.file == Some(w)
                    ==> w == (FlushCounters {
                    submitted: 0,
                    written: 0,
                    live_drops: 0,
                    retired_drops: 0,
                }),
    {
        Handle {
            reloadable: self.reloadable,
            console: if self.console.is_some() {
                Some(FlushCounters::new())
            } else {
                None
            },
            json: if self.json.is_some() {
                Some(FlushCounters::new())
            } else {
                None
            },
            file: if self.file.is_some() {
                Some(FlushCounters::new())
            } else {
                None
            },
            app_insights: self.app_insights.is_some(),
        }
    }
}

/// Capacity of the queues of a stack.
pub open spec fn queue_of(builder: Builder) -> usize {
    match builder.queue_size {
        Some(size) => size,
        None => DEFAULT_QUEUE_SIZE,
    }
}

/// The filter of a sink, once its directives have parsed.
pub open spec fn own_filter(directives: Option<String>) -> Option<Seq<char>> {
    match filter::compiled(text::view_opt(directives)) {
        Some(Ok(d)) => Some(d),
        _ => None,
    }
}

/// Whether `plan` is what building gives: the first bad directive, or the stack.
pub open spec fn is_plan(
    builder: Builder,
    rust_log: Option<Seq<char>>,
    now: u64,
    plan: Result<Plan, Error>,
) -> bool {
    match filter::first_invalid(builder.sink_filters) {
        Some((sink, e)) => plan matches Err(Error::InvalidFilter(message)) && message@ == sink
            + ": "@ + e,
        None => plan is Ok && is_stack(builder, rust_log, now, plan->Ok_0),
    }
}

/// Whether `plan` is the stack that was configured.
pub open spec fn is_stack(
    builder: Builder,
    rust_log: Option<Seq<char>>,
    now: u64,
    plan: Plan,
) -> bool {
    let queue = queue_of(builder);
    let globals = sinks::globals_text(builder.global_fields@);
    let redact = text::views(builder.redact_keys@);
    &&& plan.capture_panics == builder.capture_panics
    &&& plan.reloadable == builder.reloadable
    &&& plan.custom_layers == builder.custom_layers
    &&& plan.filter.text() == (match builder.filter {
        Some(f) => f.text(),
        None => filter::default_directives(rust_log),
    })
    &&& plan.gates is None <==> builder.sampling is None && builder.rate_limit is None
    &&& plan.gates is Some ==> gate::gates_for(
        builder.sampling,
        builder.rate_limit,
        now,
        plan.gates->0.gates(),
    )
    &&& match builder.console {
        Some(config) => plan.console is Some && sinks::is_console(
            plan.console->0,
            config,
            queue,
            globals,
            redact,
            builder.console_format,
            own_filter(builder.sink_filters.console),
        ),
        None => plan.console is None,
    }
    &&& match builder.json {
        Some(config) => plan.json is Some && sinks::is_json(
            plan.json->0,
            config,
            queue,
            own_filter(builder.sink_filters.json),
        ),
        None => plan.json is None,
    }
    &&& match builder.file {
        Some(config) => plan.file is Some && sinks::is_file(
            plan.file->0,
            config,
            queue,
            globals,
            redact,
            builder.file_format,
            own_filter(builder.sink_filters.file),
        ),
        None => plan.file is None,
    }
    &&& match builder.syslog {
        Some(config) => plan.syslog is Some && plan.syslog->0.config == config
            && plan.syslog->0.filter.text() == filter::sink_directives(
            own_filter(builder.sink_filters.syslog),
        ),
        None => plan.syslog is None,
    }
    &&& match builder.app_insights {
        Some(config) => plan.app_insights matches Some(export) && export.connection_string
            == config.connection_string && export.service_name == config.service_name
            && export.sample_rate.bits == appinsights::applied_rate(config.sample_rate.bits)
            && export.filter.text() == filter::sink_directives(
            own_filter(builder.sink_filters.app_insights),
        ),
        None => plan.app_insights is None,
    }
}

/// A stack has exactly the sinks that were configured, and building fails exactly where
/// a sink's directives do not parse, whatever else is configured.
pub proof fn law_configured_sinks(
    builder: Builder,
    rust_log: Option<Seq<char>>,
    now: u64,
    plan: Result<Plan, Error>,
)
    requires
        is_plan(builder, rust_log, now, plan),
    ensures
        plan is Err <==> filter::first_invalid(builder.sink_filters) is Some,
        plan matches Err(e) ==> e is InvalidFilter,
        plan matches Ok(p) ==> (p.console is Some <==> builder.console is Some) && (p.json is Some
            <==> builder.json is Some) && (p.file is Some <==> builder.file is Some) && (
        p.syslog is Some <==> builder.syslog is Some) && (p.app_insights is Some
            <==> builder.app_insights is Some) && (p.gates is Some <==> builder.sampling is Some
            || builder.rate_limit is Some),
{
}

/// Every sink of a stack has a queue of the same capacity: the one that was set, or
/// 128,000 lines.
pub proof fn law_one_queue_size(
    builder: Builder,
    rust_log: Option<Seq<char>>,
    now: u64,
    plan: Plan,
)
    requires
        is_plan(builder, rust_log, now, Ok::<Plan, Error>(plan)),
    ensures
        ({
            let size = if builder.queue_size is Some {
                builder.queue_size->0
            } else {
                128_000
            };
            &&& plan.console matches Some(sink) ==> sink.queue == size
            &&& plan.json matches Some(sink) ==> sink.queue == size
            &&& plan.file matches Some(sink) ==> sink.writer.queue == size
        }),
{
}

/// A filter that was set is the one that counts, whatever the environment says; without
/// one `RUST_LOG` counts where it parses, and `info` where it does not or is absent. The
/// switches are those that were set.
pub proof fn law_global_filter(
    builder: Builder,
    rust_log: Option<Seq<char>>,
    now: u64,
    plan: Plan,
)
    requires
        is_plan(builder, rust_log, now, Ok::<Plan, Error>(plan)),
    ensures
        builder.filter matches Some(f) ==> plan.filter.text() == f.text(),
        builder.filter is None && rust_log is None ==> plan.filter.text() == "info"@,
        builder.filter is None && rust_log is Some && filter::parsed_filter(rust_log->0) is Ok
            ==> plan.filter.text() == rust_log->0,
        builder.filter is None && rust_log is Some && filter::parsed_filter(rust_log->0) is Err
            ==> plan.filter.text() == "info"@,
        plan.reloadable == builder.reloadable,
        plan.capture_panics == builder.capture_panics,
        plan.custom_layers == builder.custom_layers,
{
}

/// Fields and redaction reach every text sink alike: the console and a text file have
/// the same fields in front and mask the same keys, and each sink has its own filter.
pub proof fn law_text_sinks_agree(
    builder: Builder,
    rust_log: Option<Seq<char>>,
    now: u64,
    plan: Plan,
)
    requires
        is_plan(builder, rust_log, now, Ok::<Plan, Error>(plan)),
        plan.console is Some,
        plan.file is Some,
        plan.file->0.layout is Text,
    ensures
        plan.console->0.line.prefix@ == plan.file->0.layout->line.prefix@,
        text::views(plan.console->0.line.redact@) == text::views(
            plan.file->0.layout->line.redact@,
        ),
        text::views(plan.console->0.line.redact@) == text::views(builder.redact_keys@),
        plan.console->0.line.prefix@ == text::joined(
            Seq::new(
                builder.global_fields@.len(),
                |i: int|
                    builder.global_fields@[i].0@ + seq!['='] + builder.global_fields@[i].1@,
            ),
            seq![' '],
        ),
{
    sinks::law_globals_are_joined(builder.global_fields@);
}

/// What a sink without directives of its own lets through is everything, and what one
/// with directives lets through is decided by them, for every sink alike.
pub proof fn law_own_filters(
    builder: Builder,
    rust_log: Option<Seq<char>>,
    now: u64,
    plan: Plan,
)
    requires
        is_plan(builder, rust_log, now, Ok::<Plan, Error>(plan)),
    ensures
        plan.console is Some ==> plan.console->0.filter.text() == filter::sink_directives(
            text::view_opt(builder.sink_filters.console),
        ),
        plan.json is Some ==> plan.json->0.filter.text() == filter::sink_directives(
            text::view_opt(builder.sink_filters.json),
        ),
        plan.file is Some ==> plan.file->0.filter.text() == filter::sink_directives(
            text::view_opt(builder.sink_filters.file),
        ),
        plan.syslog is Some ==> plan.syslog->0.filter.text() == filter::sink_directives(
            text::view_opt(builder.sink_filters.syslog),
        ),
        plan.app_insights is Some ==> plan.app_insights->0.filter.text()
            == filter::sink_directives(text::view_opt(builder.sink_filters.app_insights)),
{
    filter::law_first_invalid_sink(builder.sink_filters);
}

/// The export goes where it was told to, under the name it was given, and exports the
/// fraction it was asked for, brought into range.
pub proof fn law_export(
    builder: Builder,
    rust_log: Option<Seq<char>>,
    now: u64,
    plan: Plan,
)
    requires
        is_plan(builder, rust_log, now, Ok::<Plan, Error>(plan)),
        builder.app_insights is Some,
    ensures
        plan.app_insights is Some,
        plan.app_insights->0.connection_string@ == builder.app_insights->0.connection_string@,
        plan.app_insights->0.service_name@ == builder.app_insights->0.service_name@,
        builder.app_insights->0.sample_rate.bits <= 0x3FF0_0000_0000_0000
            ==> plan.app_insights->0.sample_rate.bits == builder.app_insights->0.sample_rate.bits,
{
    appinsights::law_applied_rate(builder.app_insights->0.sample_rate.bits);
}

/// Taking a key out of the fields takes every field of that key and no other.
pub proof fn law_other_fields_stay(fields: Seq<(String, String)>, key: Seq<char>, i: int)
    requires
        0 <= i < fields.len(),
    ensures
        fields[i].0@ != key ==> without_key(fields, key).contains(fields[i]),
        !exists|j: int|
            0 <= j < without_key(fields, key).len() && (#[trigger] without_key(
                fields,
                key,
            )[j]).0@ == key,
        without_key(fields, key).len() <= fields.len(),
    decreases fields.len(),
{
    reveal(Seq::filter);
    lemma_without_key(fields, key);
    let left = without_key(fields, key);
    let shorter = fields.drop_last();
    let before = without_key(shorter, key);
    if i < shorter.len() {
        law_other_fields_stay(shorter, key, i);
        assert(shorter[i] == fields[i]);
        if fields[i].0@ != key {
            let k = choose|k: int| 0 <= k < before.len() && before[k] == fields[i];
            assert(left[k] == fields[i]);
        }
    } else {
        if shorter.len() > 0 {
            law_other_fields_stay(shorter, key, 0);
        }
        if fields[i].0@ != key {
            assert(left == before.push(fields.last()));
            assert(left[left.len() - 1] == fields[i]);
        }
    }
}

/// The syslog sink logs under the tag and the facility it was given.
pub proof fn law_syslog_sink(
    builder: Builder,
    rust_log: Option<Seq<char>>,
    now: u64,
    plan: Plan,
)
    requires
        is_plan(builder, rust_log, now, Ok::<Plan, Error>(plan)),
        builder.syslog is Some,
    ensures
        plan.syslog is Some,
        plan.syslog->0.config.tag@ == builder.syslog->0.tag@,
        plan.syslog->0.config.facility == builder.syslog->0.facility,
{
}

/// A directive that does not parse is reported with the sink it is for and what is wrong
/// with it.
pub proof fn law_bad_directive_names_its_sink(
    builder: Builder,
    rust_log: Option<Seq<char>>,
    now: u64,
    plan: Result<Plan, Error>,
)
    requires
        is_plan(builder, rust_log, now, plan),
        plan is Err,
    ensures
        ({
            let bad = |d: Option<String>| d is Some && filter::parsed_filter(d->0@) is Err;
            let why = |d: Option<String>| filter::parsed_filter(d->0@)->Err_0;
            let filters = builder.sink_filters;
            plan->Err_0 matches Error::InvalidFilter(message) && (if bad(filters.console) {
                message@ == "console"@ + ": "@ + why(filters.console)
            } else if bad(filters.json) {
                message@ == "json"@ + ": "@ + why(filters.json)
            } else if bad(filters.file) {
                message@ == "file"@ + ": "@ + why(filters.file)
            } else if bad(filters.syslog) {
                message@ == "syslog"@ + ": "@ + why(filters.syslog)
            } else {
                message@ == "app_insights"@ + ": "@ + why(filters.app_insights)
            })
        }),
{
    filter::law_first_invalid_sink(builder.sink_filters);
}

/// A fresh builder has no sink, no filter, no limit and no switch set: building it gives a
/// stack without a sink, filtered as the environment says.
pub proof fn law_fresh_builder(
    builder: Builder,
    rust_log: Option<Seq<char>>,
    now: u64,
    plan: Result<Plan, Error>,
)
    requires
        is_empty(builder),
        is_plan(builder, rust_log, now, plan),
    ensures
        plan is Ok,
        plan matches Ok(p) ==> p.console is None && p.json is None && p.file is None
            && p.syslog is None && p.app_insights is None && p.gates is None && !p.capture_panics
            && !p.reloadable && !p.custom_layers,
        plan is Ok && rust_log is None ==> plan->Ok_0.filter.text() == "info"@,
        builder.queue_size is None && !builder.console_format && !builder.file_format
            && builder.global_fields@.len() == 0 && builder.redact_keys@.len() == 0
            && builder.filter is None,
{
    filter::law_first_invalid_sink(builder.sink_filters);
}

/// The gates of a stack are those that were configured: an event passes exactly where the
/// sampling that was set keeps it and the rate limit that was set, its bucket full when
/// the stack was built, has a token for it.
pub proof fn law_stack_gates(
    builder: Builder,
    rust_log: Option<Seq<char>>,
    now: u64,
    plan: Plan,
    meta: gate::Metadata,
    around: gate::Ambient,
    allowed: bool,
    after: Seq<Gate>,
    around_after: gate::Ambient,
)
    requires
        is_plan(builder, rust_log, now, Ok::<Plan, Error>(plan)),
        plan.gates is Some,
        gate::chain_answers(
            plan.gates->0.gates(),
            0,
            meta,
            around,
            allowed,
            after,
            around_after,
        ),
    ensures
        allowed <==> {
            &&& builder.sampling matches Some(config) ==> sampling::sampled(
                config,
                meta.level,
                around.generator,
            ).0
            &&& builder.rate_limit matches Some(limit) ==> rate_limit::admitted(
                limit,
                rate_limit::BucketState {
                    credit: rate_limit::capacity(limit),
                    last: now as int,
                },
                around.now as int,
            ).0
        },
{
    gate::law_configured_gates(
        builder.sampling,
        builder.rate_limit,
        now,
        plan.gates->0.gates(),
        meta,
        around,
        allowed,
        after,
        around_after,
    );
}

} // verus!

//! The declarative half of the logging API: the shape of a `[logging]` section, and the
//! builder it describes.

use vstd::prelude::*;

use crate::config;
use crate::config::value::{self, Json};
use crate::config::Store;
use crate::logging::appinsights::AppInsightsConfig;
use crate::logging::builder::{builder, Builder};
use crate::logging::double::{self, clamp};
use crate::logging::error::Error;
use crate::logging::file::Rotation;
use crate::logging::filter::{self, Filter, SinkFilters};
use crate::logging::level::LevelFilter;
use crate::logging::rate_limit::RateLimit;
use crate::logging::sampling::{Rate, SampleConfig};
use crate::logging::sink_config::{
    ConsoleConfig, ConsoleTarget, FileConfig, FileFormat, JsonConfig, TimestampFormat,
};
use crate::text::{self, ascii_lower, same};

verus! {

broadcast use vstd::string::group_string_axioms;

/// `true`.
pub fn default_true() -> (r: bool)
    ensures
        r,
{
    true
}

/// One second.
pub fn default_one() -> (r: u64)
    ensures
        r == 1,
{
    1
}

/// `"daily"`.
pub fn default_rotation() -> (r: String)
    ensures
        r@ == "daily"@,
{
    "daily".to_owned()
}

/// `"trace"`.
pub fn default_trace() -> (r: String)
    ensures
        r@ == "trace"@,
{
    "trace".to_owned()
}

/// `"stderr"`.
pub fn default_stream() -> (r: String)
    ensures
        r@ == "stderr"@,
{
    "stderr".to_owned()
}

/// `"utc"`.
pub fn default_timestamp() -> (r: String)
    ensures
        r@ == "utc"@,
{
    "utc".to_owned()
}

/// 64 MiB: large enough that rolling is rare, small enough to open in an editor.
pub fn default_max_bytes() -> (r: u64)
    ensures
        r == 64 * 1024 * 1024,
{
    64 * 1024 * 1024
}

/// Five retired files.
pub fn default_max_files() -> (r: usize)
    ensures
        r == 5,
{
    5
}

/// `"app.log"`.
pub fn default_prefix() -> (r: String)
    ensures
        r@ == "app.log"@,
{
    "app.log".to_owned()
}

/// `"json"`.
pub fn default_file_format() -> (r: String)
    ensures
        r@ == "json"@,
{
    "json".to_owned()
}

/// The store key the Application Insights connection string is found under where the
/// settings name none.
pub fn default_connection_string_key() -> (r: String)
    ensures
        r@ == "applicationinsights_connection_string"@,
{
    "applicationinsights_connection_string".to_owned()
}

/// The stream a name stands for, without regard to case.
pub open spec fn stream_of(name: Seq<char>) -> ConsoleTarget {
    if text::ascii_lowered(name) == "stdout"@ {
        ConsoleTarget::Stdout
    } else {
        ConsoleTarget::Stderr
    }
}

/// The timestamp format a name stands for, without regard to case.
pub open spec fn timestamp_of(name: Seq<char>) -> TimestampFormat {
    if text::ascii_lowered(name) == "local"@ {
        TimestampFormat::Local
    } else if text::ascii_lowered(name) == "none"@ {
        TimestampFormat::Omitted
    } else {
        TimestampFormat::Utc
    }
}

/// The file format a name stands for, without regard to case.
pub open spec fn file_format_of(name: Seq<char>) -> FileFormat {
    if text::ascii_lowered(name) == "text"@ {
        FileFormat::Text
    } else {
        FileFormat::Json
    }
}

/// Unrecognised values fall back to the default rather than failing the load: a typo in
/// one optional field should not stop a service from starting with logging it can
/// otherwise use.
pub fn parse_stream(value: &str) -> (target: ConsoleTarget)
    ensures
        target == stream_of(value@),
{
    if same(ascii_lower(value).as_str(), "stdout") {
        ConsoleTarget::Stdout
    } else {
        ConsoleTarget::Stderr
    }
}

/// The timestamp format a name stands for.
pub fn parse_timestamp(value: &str) -> (format: TimestampFormat)
    ensures
        format == timestamp_of(value@),
{
    let lower: String = ascii_lower(value);
    if same(lower.as_str(), "local") {
        TimestampFormat::Local
    } else if same(lower.as_str(), "none") {
        TimestampFormat::Omitted
    } else {
        TimestampFormat::Utc
    }
}

/// The file format a name stands for.
pub fn parse_file_format(value: &str) -> (format: FileFormat)
    ensures
        format == file_format_of(value@),
{
    if same(ascii_lower(value).as_str(), "text") {
        FileFormat::Text
    } else {
        FileFormat::Json
    }
}

/// The `[logging.console]` block.
#[derive(Debug, Clone, PartialEq, Eq)]
pub struct ConsoleSettings {
    /// `"stderr"` (default) or `"stdout"`.
    pub stream: String,
    /// `"utc"` (default), `"local"` or `"none"`.
    pub timestamp: String,
    /// ANSI colour in the output.
    pub color: bool,
    /// Include the emitting thread's id on each line.
    pub thread_ids: bool,
    /// Include the event's target (module path) on each line.
    pub target: bool,
    /// Drop events rather than block when the queue is full.
    pub lossy: bool,
}

impl ConsoleSettings {
    /// What [`ConsoleSettings::to_console_config`] returns.
    pub open spec fn config(&self) -> ConsoleConfig {
        ConsoleConfig {
            target_stream: stream_of(self.stream@),
            timestamp: timestamp_of(self.timestamp@),
            use_color: self.color,
            thread_ids: self.thread_ids,
            target: self.target,
            lossy: self.lossy,
        }
    }

    /// The console sink the block describes.
    pub fn to_console_config(&self) -> (config: ConsoleConfig)
        ensures
            config == self.config(),
    {
        ConsoleConfig {
            target_stream: parse_stream(self.stream.as_str()),
            timestamp: parse_timestamp(self.timestamp.as_str()),
            use_color: self.color,
            thread_ids: self.thread_ids,
            target: self.target,
            lossy: self.lossy,
        }
    }
}

impl Default for ConsoleSettings {
    /// What an empty block stands for.
    fn default() -> (settings: Self)
        ensures
            settings.stream@ == "stderr"@,
            settings.timestamp@ == "utc"@,
            settings.color,
            settings.thread_ids,
            settings.target,
            !settings.lossy,
    {
        ConsoleSettings {
            stream: default_stream(),
            timestamp: default_timestamp(),
            color: true,
            thread_ids: true,
            target: true,
            lossy: false,
        }
    }
}

/// The `[logging.json]` block.
#[derive(Debug, Clone, Copy, PartialEq, Eq, Structural)]
pub struct JsonSettings {
    /// Include the span scope on each record.
    pub span_list: bool,
    /// Flatten event fields into the top-level object.
    pub flatten: bool,
    /// Drop events rather than block when the queue is full.
    pub lossy: bool,
}

impl JsonSettings {
    /// What [`JsonSettings::to_json_config`] returns.
    pub open spec fn config(&self) -> JsonConfig {
        JsonConfig { span_list: self.span_list, flatten: self.flatten, lossy: self.lossy }
    }

    /// The JSON sink the block describes.
    pub fn to_json_config(&self) -> (config: JsonConfig)
        ensures
            config == self.config(),
    {
        JsonConfig { span_list: self.span_list, flatten: self.flatten, lossy: self.lossy }
    }
}

impl Default for JsonSettings {
    /// What an empty block stands for.
    fn default() -> (settings: Self)
        ensures
            settings == (JsonSettings { span_list: true, flatten: true, lossy: false }),
    {
        JsonSettings { span_list: true, flatten: true, lossy: false }
    }
}

/// The `[logging.file]` block.
#[derive(Debug, Clone, PartialEq, Eq)]
pub struct FileSettings {
    /// Directory the log files are written to. Created when absent.
    pub directory: String,
    /// Base name before the rotation suffix. Defaults to `"app.log"`.
    pub prefix: String,
    /// `"json"` (default) or `"text"`.
    pub format: String,
    /// `"utc"` (default), `"local"` or `"none"`.
    pub timestamp: String,
    /// `"daily"` (default), `"hourly"`, `"never"` or `"size"`.
    pub rotation: String,
    /// Delete rotated files older than this many days; `0` keeps all.
    pub retention_days: u32,
    /// Roll at this many bytes. Only used when `rotation = "size"`.
    pub max_bytes: u64,
    /// Retired files to keep when `rotation = "size"`.
    pub max_files: usize,
    /// Gzip retired files.
    pub compress: bool,
    /// Include the span scope on each JSON record.
    pub span_list: bool,
    /// Flatten event fields into the top-level JSON object.
    pub flatten: bool,
    /// Drop events rather than block when the queue is full.
    pub lossy: bool,
}

/// The rotation a name stands for, with the size limits where it is by size.
pub open spec fn rotation_of(name: Seq<char>, max_bytes: u64, max_files: usize) -> Rotation {
    if name == "hourly"@ {
        Rotation::Hourly
    } else if name == "never"@ {
        Rotation::Never
    } else if name == "size"@ {
        Rotation::Size { max_bytes, max_files }
    } else {
        Rotation::Daily
    }
}

impl FileSettings {
    /// Whether `config` is the file sink the block describes.
    pub open spec fn describes(&self, config: FileConfig) -> bool {
        &&& config.directory@ == self.directory@
        &&& config.rotation == rotation_of(self.rotation@, self.max_bytes, self.max_files)
        &&& config.retention_days == self.retention_days
        &&& config.json_config == (JsonConfig {
            span_list: self.span_list,
            flatten: self.flatten,
            lossy: self.lossy,
        })
        &&& config.format == file_format_of(self.format@)
        &&& config.prefix@ == self.prefix@
        &&& config.timestamp == timestamp_of(self.timestamp@)
        &&& config.compress == self.compress
    }

    /// The file sink the block describes.
    pub fn to_file_config(&self) -> (config: FileConfig)
        ensures
            self.describes(config),
    {
        let rotation: Rotation = if same(self.rotation.as_str(), "hourly") {
            Rotation::Hourly
        } else if same(self.rotation.as_str(), "never") {
            Rotation::Never
        } else if same(self.rotation.as_str(), "size") {
            Rotation::Size { max_bytes: self.max_bytes, max_files: self.max_files }
        } else {
            Rotation::Daily
        };
        FileConfig {
            directory: self.directory.clone(),
            rotation,
            retention_days: self.retention_days,
            json_config: JsonConfig {
                span_list: self.span_list,
                flatten: self.flatten,
                lossy: self.lossy,
            },
            format: parse_file_format(self.format.as_str()),
            prefix: self.prefix.clone(),
            timestamp: parse_timestamp(self.timestamp.as_str()),
            compress: self.compress,
        }
    }
}

impl Default for FileSettings {
    /// What a block stands for that leaves everything out.
    fn default() -> (settings: Self)
        ensures
            settings.directory@.len() == 0,
            settings.prefix@ == "app.log"@,
            settings.format@ == "json"@,
            settings.timestamp@ == "utc"@,
            settings.rotation@ == "daily"@,
            settings.max_bytes == 64 * 1024 * 1024,
            settings.max_files == 5,
            !settings.compress,
            settings.retention_days == 0,
            settings.span_list,
            settings.flatten,
            !settings.lossy,
    {
        FileSettings {
            directory: String::new(),
            prefix: default_prefix(),
            format: default_file_format(),
            timestamp: default_timestamp(),
            rotation: default_rotation(),
            max_bytes: default_max_bytes(),
            max_files: default_max_files(),
            compress: false,
            retention_days: 0,
            span_list: true,
            flatten: true,
            lossy: false,
        }
    }
}

/// The `[logging.rate_limit]` block.
#[derive(Debug, Clone, Copy, PartialEq, Eq, Structural)]
pub struct RateLimitSettings {
    /// Events admitted per window; the rest are discarded.
    pub max_events: u64,
    /// Window length in seconds. Defaults to 1.
    pub per_secs: u64,
}

impl RateLimitSettings {
    /// The rate limit the block describes.
    pub fn to_rate_limit(&self) -> (limit: RateLimit)
        ensures
            limit.max_events == self.max_events,
            limit.per_secs == self.per_secs,
    {
        RateLimit { max_events: self.max_events, per_secs: self.per_secs }
    }
}

/// The `[logging.sampling]` block.
#[derive(Debug, Clone, PartialEq, Eq)]
pub struct SamplingSettings {
    /// Fraction of events kept, brought into the range from zero to one when applied.
    pub rate: Rate,
    /// The least severe level eligible for sampling; anything more verbose is dropped.
    pub min_level: String,
}

/// The level a name stands for.
pub open spec fn min_level_of(name: Seq<char>) -> LevelFilter {
    if name == "error"@ {
        LevelFilter::Error
    } else if name == "warn"@ {
        LevelFilter::Warn
    } else if name == "info"@ {
        LevelFilter::Info
    } else if name == "debug"@ {
        LevelFilter::Debug
    } else {
        LevelFilter::Trace
    }
}

impl SamplingSettings {
    /// What [`SamplingSettings::to_sample_config`] returns.
    pub open spec fn config(&self) -> SampleConfig {
        SampleConfig {
            rate: Rate { bits: double::clamped(self.rate.bits) },
            min_level: min_level_of(self.min_level@),
        }
    }

    /// The sampling the block describes.
    pub fn to_sample_config(&self) -> (config: SampleConfig)
        ensures
            config == self.config(),
    {
        let name: &str = self.min_level.as_str();
        let min_level: LevelFilter = if same(name, "error") {
            LevelFilter::Error
        } else if same(name, "warn") {
            LevelFilter::Warn
        } else if same(name, "info") {
            LevelFilter::Info
        } else if same(name, "debug") {
            LevelFilter::Debug
        } else {
            LevelFilter::Trace
        };
        SampleConfig { rate: Rate { bits: clamp(self.rate.bits) }, min_level }
    }
}

/// The `[logging.filters]` block: filter directives per sink.
#[derive(Debug, Clone, PartialEq, Eq)]
pub struct FilterSettings {
    /// For the console sink.
    pub console: Option<String>,
    /// For the JSON sink.
    pub json: Option<String>,
    /// For the file sink.
    pub file: Option<String>,
    /// For the syslog sink.
    pub syslog: Option<String>,
    /// For the Application Insights sink.
    pub app_insights: Option<String>,
}

/// The `[logging.app_insights]` block.
///
/// The connection string is a secret: the block names the key it is found under, and the
/// value arrives through the store.
#[derive(Debug, Clone, PartialEq, Eq)]
pub struct AppInsightsSettings {
    /// Reported as the service name.
    pub service_name: String,
    /// Fraction of traces exported.
    pub sample_rate: Rate,
    /// The store key the connection string is found under.
    pub connection_string_key: String,
}

/// Logging configuration as data.
///
/// Every section is optional: omitted sections keep their defaults. Start with
/// [`Default`] and chain the `with_*` setters.
#[derive(Debug, Clone, PartialEq, Eq)]
#[non_exhaustive]
pub struct Settings {
    /// Default filter directive, such as `"info"` or `"my_crate=debug"`.
    pub level: Option<String>,
    /// Console sink; absent means no console output.
    pub console: Option<ConsoleSettings>,
    /// JSON sink; absent means no JSON output.
    pub json: Option<JsonSettings>,
    /// File sink; absent means no file output.
    pub file: Option<FileSettings>,
    /// Rate limiting; absent means unlimited.
    pub rate_limit: Option<RateLimitSettings>,
    /// Sampling; absent means every event is kept.
    pub sampling: Option<SamplingSettings>,
    /// Per-sink queue capacity; absent means the built-in default.
    pub queue_size: Option<usize>,
    /// Allow the filter to be swapped at runtime.
    pub reloadable: Option<bool>,
    /// Names of the fields whose values are masked.
    pub redact: Vec<String>,
    /// Route panics through the logging stack.
    pub capture_panics: Option<bool>,
    /// Filter directives per sink.
    pub filters: Option<FilterSettings>,
    /// Application Insights export; absent means none.
    pub app_insights: Option<AppInsightsSettings>,
}

impl Default for Settings {
    /// What an empty section stands for.
    fn default() -> (settings: Self)
        ensures
            settings.level is None,
            settings.console is None,
            settings.json is None,
            settings.file is None,
            settings.rate_limit is None,
            settings.sampling is None,
            settings.queue_size is None,
            settings.reloadable is None,
            settings.redact@.len() == 0,
            settings.capture_panics is None,
            settings.filters is None,
            settings.app_insights is None,
    {
        Settings {
            level: None,
            console: None,
            json: None,
            file: None,
            rate_limit: None,
            sampling: None,
            queue_size: None,
            reloadable: None,
            redact: Vec::new(),
            capture_panics: None,
            filters: None,
            app_insights: None,
        }
    }
}

/// Whether `filters` holds the directives of the block, where there is one.
pub open spec fn filters_match(block: Option<FilterSettings>, filters: SinkFilters) -> bool {
    match block {
        Some(f) => {
            &&& text::view_opt(filters.console) == text::view_opt(f.console)
            &&& text::view_opt(filters.json) == text::view_opt(f.json)
            &&& text::view_opt(filters.file) == text::view_opt(f.file)
            &&& text::view_opt(filters.syslog) == text::view_opt(f.syslog)
            &&& text::view_opt(filters.app_insights) == text::view_opt(f.app_insights)
        },
        None => filters == (SinkFilters {
            console: None,
            json: None,
            file: None,
            syslog: None,
            app_insights: None,
        }),
    }
}

/// Whether `builder` is what the settings describe, apart from the global filter and the
/// export.
pub open spec fn describes(settings: Settings, builder: Builder) -> bool {
    &&& match settings.console {
        Some(c) => builder.console == Some(c.config()),
        None => builder.console is None,
    }
    &&& match settings.json {
        Some(j) => builder.json == Some(j.config()),
        None => builder.json is None,
    }
    &&& match settings.file {
        Some(f) => builder.file is Some && f.describes(builder.file->0),
        None => builder.file is None,
    }
    &&& match settings.rate_limit {
        Some(r) => builder.rate_limit == Some(
            RateLimit { max_events: r.max_events, per_secs: r.per_secs },
        ),
        None => builder.rate_limit is None,
    }
    &&& match settings.sampling {
        Some(c) => builder.sampling == Some(c.config()),
        None => builder.sampling is None,
    }
    &&& builder.queue_size == settings.queue_size
    &&& builder.reloadable == (settings.reloadable == Some(true))
    &&& builder.capture_panics == (settings.capture_panics == Some(true))
    &&& text::views(builder.redact_keys@) == settings.redact@.map_values(
        |key: String| text::lowercase(key@),
    )
    &&& filters_match(settings.filters, builder.sink_filters)
    &&& !builder.custom_layers
    &&& !builder.console_format
    &&& !builder.file_format
    &&& builder.global_fields@.len() == 0
    &&& builder.syslog is None
}

/// A copy of a text that may be absent.
fn copy_opt(s: &Option<String>) -> (copy: Option<String>)
    ensures
        text::view_opt(copy) == text::view_opt(*s),
{
    match s {
        Some(text) => Some(text.clone()),
        None => None,
    }
}

/// The outcome of parsing directives that may be absent.
fn parse_opt(directives: &Option<String>) -> (parsed: Option<Result<Filter, String>>)
    ensures
        match filter::compiled(text::view_opt(*directives)) {
            None => parsed is None,
            Some(Ok(d)) => parsed matches Some(Ok(f)) && f.text() == d,
            Some(Err(e)) => parsed matches Some(Err(message)) && message@ == e,
        },
{
    match directives {
        Some(d) => Some(Filter::parse(d.as_str())),
        None => None,
    }
}

impl Settings {
    /// Set the default filter directive, such as `"info"` or `"my_crate=debug"`.
    pub fn with_level(self, level: &str) -> (settings: Settings)
        ensures
            text::view_opt(settings.level) == Some(level@),
            settings == (Settings { level: settings.level, ..self }),
    {
        let mut settings: Settings = self;
        settings.level = Some(level.to_owned());
        settings
    }

    /// Configure human-readable console output.
    pub fn with_console(self, config: ConsoleSettings) -> (settings: Settings)
        ensures
            settings == (Settings { console: Some(config), ..self }),
    {
        let mut settings: Settings = self;
        settings.console = Some(config);
        settings
    }

    /// Configure structured JSON output to stdout.
    pub fn with_json(self, config: JsonSettings) -> (settings: Settings)
        ensures
            settings == (Settings { json: Some(config), ..self }),
    {
        let mut settings: Settings = self;
        settings.json = Some(config);
        settings
    }

    /// Configure structured file output.
    pub fn with_file(self, config: FileSettings) -> (settings: Settings)
        ensures
            settings == (Settings { file: Some(config), ..self }),
    {
        let mut settings: Settings = self;
        settings.file = Some(config);
        settings
    }

    /// Configure global event rate limiting.
    pub fn with_rate_limit(self, config: RateLimitSettings) -> (settings: Settings)
        ensures
            settings == (Settings { rate_limit: Some(config), ..self }),
    {
        let mut settings: Settings = self;
        settings.rate_limit = Some(config);
        settings
    }

    /// Configure probabilistic event sampling.
    pub fn with_sampling(self, config: SamplingSettings) -> (settings: Settings)
        ensures
            settings == (Settings { sampling: Some(config), ..self }),
    {
        let mut settings: Settings = self;
        settings.sampling = Some(config);
        settings
    }

    /// Set the non-blocking writer queue capacity.
    pub fn with_queue_size(self, size: usize) -> (settings: Settings)
        ensures
            settings == (Settings { queue_size: Some(size), ..self }),
    {
        let mut settings: Settings = self;
        settings.queue_size = Some(size);
        settings
    }

    /// Enable or disable runtime filter reloading.
    pub fn with_reloadable(self, enabled: bool) -> (settings: Settings)
        ensures
            settings == (Settings { reloadable: Some(enabled), ..self }),
    {
        let mut settings: Settings = self;
        settings.reloadable = Some(enabled);
        settings
    }

    /// The builder the settings describe, with the given global filter, where there is
    /// one.
    pub fn builder_with(&self, level: Option<Filter>) -> (builder: Builder)
        ensures
            describes(*self, builder),
            builder.filter == level,
            builder.app_insights is None,
    {
        let mut builder: Builder = builder();
        builder.filter = level;
        match &self.console {
            Some(c) => {
                builder = builder.console(c.to_console_config());
            },
            None => {},
        }
        match &self.json {
            Some(j) => {
                builder = builder.json(j.to_json_config());
            },
            None => {},
        }
        match &self.file {
            Some(f) => {
                builder = builder.file(f.to_file_config());
            },
            None => {},
        }
        match &self.rate_limit {
            Some(r) => {
                builder = builder.rate_limit(r.to_rate_limit());
            },
            None => {},
        }
        match &self.sampling {
            Some(c) => {
                builder = builder.sampling(c.to_sample_config());
            },
            None => {},
        }
        match self.queue_size {
            Some(size) => {
                builder = builder.queue_size(size);
            },
            None => {},
        }
        match self.reloadable {
            Some(true) => {
                builder = builder.reloadable();
            },
            _ => {},
        }
        match self.capture_panics {
            Some(true) => {
                builder = builder.capture_panics();
            },
            _ => {},
        }
        let keys: Vec<&str> = borrow_all(&self.redact);
        builder = builder.redact(keys.as_slice());
        proof {
            assert(text::views(builder.redact_keys@) =~= self.redact@.map_values(
                |key: String| text::lowercase(key@),
            ));
        }
        match &self.filters {
            Some(f) => {
                builder.sink_filters = SinkFilters {
                    console: copy_opt(&f.console),
                    json: copy_opt(&f.json),
                    file: copy_opt(&f.file),
                    syslog: copy_opt(&f.syslog),
                    app_insights: copy_opt(&f.app_insights),
                };
            },
            None => {},
        }
        builder
    }

    /// The builder the settings describe, without anything that needs the store. A level
    /// that does not parse is passed over.
    pub fn to_builder(&self) -> (builder: Builder)
        ensures
            describes(*self, builder),
            filter::text_of(builder.filter) == (match filter::compiled(text::view_opt(self.level)) {
                Some(Ok(d)) => Some(d),
                _ => None,
            }),
            builder.app_insights is None,
    {
        let level: Option<Filter> = match parse_opt(&self.level) {
            Some(Ok(f)) => Some(f),
            _ => None,
        };
        self.builder_with(level)
    }

    /// The builder the settings describe, given what parsing the level and looking up the
    /// connection string gave.
    ///
    /// Whatever the settings ask for is honoured or fails, naming the key: a level that
    /// does not parse, or an `app_insights` block whose connection string is not there.
    pub fn apply_found(
        &self,
        level: Option<Result<Filter, String>>,
        connection_string: Option<String>,
    ) -> (builder: Result<Builder, Error>)
        ensures
            match level {
                Some(Err(e)) => builder matches Err(Error::InvalidSettings(message)) && message@
                    == "level: "@ + e@,
                _ => match (self.app_insights, connection_string) {
                    (Some(block), None) => builder matches Err(Error::InvalidSettings(message))
                        && message@ == "app_insights: "@ + block.connection_string_key@
                        + " is not set"@,
                    (Some(block), Some(found)) => builder matches Ok(b) && describes(*self, b)
                        && b.filter == ok_filter(level) && is_export(block, found@, b),
                    (None, _) => builder matches Ok(b) && describes(*self, b) && b.filter
                        == ok_filter(level) && b.app_insights is None,
                },
            },
    {
        let level: Option<Filter> = match level {
            Some(Ok(f)) => Some(f),
            Some(Err(e)) => {
                return Err(Error::InvalidSettings("level: ".to_owned().concat(e.as_str())));
            },
            None => None,
        };
        let builder: Builder = self.builder_with(level);
        match &self.app_insights {
            None => Ok(builder),
            Some(block) => match connection_string {
                None => {
                    let mut message: String = "app_insights: ".to_owned();
                    message.append(block.connection_string_key.as_str());
                    message.append(" is not set");
                    Err(Error::InvalidSettings(message))
                },
                Some(found) => {
                    let config: AppInsightsConfig = AppInsightsConfig::new(
                        found.as_str(),
                        block.service_name.as_str(),
                    ).with_sample_rate(block.sample_rate);
                    Ok(builder.app_insights(config))
                },
            },
        }
    }

    /// The builder the settings describe, with what they need from the store.
    pub fn apply(&self, store: &Store) -> (builder: Result<Builder, Error>)
        ensures
            is_applied(*self, store.tree(), builder),
    {
        let connection_string: Option<String> = match &self.app_insights {
            Some(block) => store.get_str(block.connection_string_key.as_str()),
            None => None,
        };
        self.apply_found(parse_opt(&self.level), connection_string)
    }

    /// The builder for a settings block, given what reading it from the store gave.
    ///
    /// [`Error::Settings`] where the key is missing or the block is malformed.
    pub fn from_store(
        settings: Result<Settings, config::Error>,
        store: &Store,
    ) -> (builder: Result<Builder, Error>)
        ensures
            match settings {
                Ok(s) => is_applied(s, store.tree(), builder),
                Err(e) => builder == Err::<Builder, Error>(Error::Settings(e)),
            },
    {
        match settings {
            Ok(s) => s.apply(store),
            Err(e) => Err(Error::Settings(e)),
        }
    }
}

/// The filter that a level parsed into.
pub open spec fn ok_filter(level: Option<Result<Filter, String>>) -> Option<Filter> {
    match level {
        Some(Ok(f)) => Some(f),
        _ => None,
    }
}

/// Whether `builder` exports as the block says, to the resource of the connection string.
pub open spec fn is_export(
    block: AppInsightsSettings,
    connection_string: Seq<char>,
    builder: Builder,
) -> bool {
    builder.app_insights matches Some(config) && config.connection_string@ == connection_string
        && config.service_name@ == block.service_name@ && config.sample_rate == block.sample_rate
}

/// The text at a dot-separated key path of a configuration tree.
pub open spec fn text_at(tree: Json, key: Seq<char>) -> Option<Seq<char>> {
    match value::lookup(tree, text::split(key, '.')) {
        Some(json) => value::text_of(json),
        None => None,
    }
}

/// Whether `builder` is what the settings come to with a store that holds `tree`.
pub open spec fn is_applied(
    settings: Settings,
    tree: Json,
    builder: Result<Builder, Error>,
) -> bool {
    match filter::compiled(text::view_opt(settings.level)) {
        Some(Err(e)) => builder matches Err(Error::InvalidSettings(message)) && message@
            == "level: "@ + e,
        parsed => {
            let level = match parsed {
                Some(Ok(d)) => Some(d),
                _ => None,
            };
            match settings.app_insights {
                Some(block) => match text_at(tree, block.connection_string_key@) {
                    None => builder matches Err(Error::InvalidSettings(message)) && message@
                        == "app_insights: "@ + block.connection_string_key@ + " is not set"@,
                    Some(found) => builder matches Ok(b) && describes(settings, b)
                        && filter::text_of(b.filter) == level && is_export(block, found, b),
                },
                None => builder matches Ok(b) && describes(settings, b) && filter::text_of(b.filter)
                    == level && b.app_insights is None,
            }
        },
    }
}

/// The strings, borrowed.
fn borrow_all(strings: &Vec<String>) -> (borrowed: Vec<&str>)
    ensures
        borrowed@.len() == strings@.len(),
        forall|i: int| 0 <= i < strings@.len() ==> (#[trigger] borrowed@[i])@ == strings@[i]@,
{
    let mut borrowed: Vec<&str> = Vec::new();
    let mut i: usize = 0;
    while i < strings.len()
        invariant
            i <= strings@.len(),
            borrowed@.len() == i,
            forall|j: int| 0 <= j < i ==> (#[trigger] borrowed@[j])@ == strings@[j]@,
        decreases strings.len() - i,
    {
        borrowed.push(strings[i].as_str());
        i = i + 1;
    }
    borrowed
}

/// A name stands for the same stream, timestamp and file format however its ASCII
/// letters are cased; a name that is none of the known ones stands for the default.
pub proof fn law_names_by_any_case(a: Seq<char>, b: Seq<char>)
    ensures
        text::ascii_lowered(a) == text::ascii_lowered(b) ==> stream_of(a) == stream_of(b)
            && timestamp_of(a) == timestamp_of(b) && file_format_of(a) == file_format_of(b),
        stream_of("stdout"@) == ConsoleTarget::Stdout,
        stream_of("stderr"@) == ConsoleTarget::Stderr,
        timestamp_of("utc"@) == TimestampFormat::Utc,
        timestamp_of("local"@) == TimestampFormat::Local,
        timestamp_of("none"@) == TimestampFormat::Omitted,
        file_format_of("json"@) == FileFormat::Json,
        file_format_of("text"@) == FileFormat::Text,
        stream_of(a) == ConsoleTarget::Stdout ==> text::ascii_lowered(a) == "stdout"@,
        timestamp_of(a) == TimestampFormat::Local ==> text::ascii_lowered(a) == "local"@,
        timestamp_of(a) == TimestampFormat::Omitted ==> text::ascii_lowered(a) == "none"@,
        file_format_of(a) == FileFormat::Text ==> text::ascii_lowered(a) == "text"@,
{
    reveal_strlit("stdout");
    reveal_strlit("stderr");
    reveal_strlit("utc");
    reveal_strlit("local");
    reveal_strlit("none");
    reveal_strlit("json");
    reveal_strlit("text");
    assert(text::ascii_lowered("stdout"@) =~= "stdout"@);
    assert(text::ascii_lowered("stderr"@) =~= "stderr"@);
    assert("stderr"@[3] != "stdout"@[3]);
    assert(text::ascii_lowered("utc"@) =~= "utc"@);
    assert(text::ascii_lowered("local"@) =~= "local"@);
    assert(text::ascii_lowered("none"@) =~= "none"@);
    assert("utc"@.len() == 3 && "local"@.len() == 5 && "none"@.len() == 4);
    assert(text::ascii_lowered("json"@) =~= "json"@);
    assert(text::ascii_lowered("text"@) =~= "text"@);
    assert("json"@[0] != "text"@[0]);
}

/// A rotation and a minimum level are named in lower case; a name that is none of the
/// known ones is a daily rotation, and admits every level. The size limits count only
/// for rotation by size.
pub proof fn law_names_by_letter(name: Seq<char>, max_bytes: u64, max_files: usize)
    ensures
        rotation_of("hourly"@, max_bytes, max_files) == Rotation::Hourly,
        rotation_of("never"@, max_bytes, max_files) == Rotation::Never,
        rotation_of("daily"@, max_bytes, max_files) == Rotation::Daily,
        rotation_of("size"@, max_bytes, max_files) == (Rotation::Size { max_bytes, max_files }),
        rotation_of(name, max_bytes, max_files) != Rotation::Daily ==> name == "hourly"@ || name
            == "never"@ || name == "size"@,
        min_level_of("error"@) == LevelFilter::Error,
        min_level_of("warn"@) == LevelFilter::Warn,
        min_level_of("info"@) == LevelFilter::Info,
        min_level_of("debug"@) == LevelFilter::Debug,
        min_level_of("trace"@) == LevelFilter::Trace,
        min_level_of(name) != LevelFilter::Off,
        min_level_of(name) != LevelFilter::Trace ==> name == "error"@ || name == "warn"@ || name
            == "info"@ || name == "debug"@,
{
    reveal_strlit("hourly");
    reveal_strlit("never");
    reveal_strlit("daily");
    reveal_strlit("size");
    reveal_strlit("error");
    reveal_strlit("warn");
    reveal_strlit("info");
    reveal_strlit("debug");
    reveal_strlit("trace");
    assert("never"@[0] == 'n' && "hourly"@[0] == 'h' && "daily"@[0] == 'd' && "size"@[0] == 's');
    assert("error"@[0] == 'e' && "warn"@[0] == 'w' && "info"@[0] == 'i' && "debug"@[0] == 'd'
        && "trace"@[0] == 't');
}

/// Each block sets the sink, limit or sampling it is named after, and an absent block leaves
/// that one out, whatever the others say; what belongs to no block stays as it is on a
/// fresh builder.
pub proof fn law_blocks_are_independent(settings: Settings, builder: Builder)
    requires
        describes(settings, builder),
    ensures
        builder.console is Some <==> settings.console is Some,
        builder.json is Some <==> settings.json is Some,
        builder.file is Some <==> settings.file is Some,
        builder.rate_limit is Some <==> settings.rate_limit is Some,
        builder.sampling is Some <==> settings.sampling is Some,
        builder.syslog is None,
        builder.global_fields@.len() == 0,
        !builder.custom_layers && !builder.console_format && !builder.file_format,
{
}

/// The console and JSON sinks are as their blocks say, switch for switch, and so are the
/// rate limit and the sampling, whose rate is brought into range.
pub proof fn law_blocks_are_honoured(settings: Settings, builder: Builder)
    requires
        describes(settings, builder),
    ensures
        settings.console matches Some(c) ==> ({
            let sink = builder.console->0;
            &&& sink.target_stream == stream_of(c.stream@)
            &&& sink.timestamp == timestamp_of(c.timestamp@)
            &&& sink.use_color == c.color
            &&& sink.thread_ids == c.thread_ids
            &&& sink.target == c.target
            &&& sink.lossy == c.lossy
        }),
        settings.json matches Some(j) ==> ({
            let sink = builder.json->0;
            &&& sink.span_list == j.span_list
            &&& sink.flatten == j.flatten
            &&& sink.lossy == j.lossy
        }),
        settings.rate_limit matches Some(r) ==> builder.rate_limit->0.max_events == r.max_events
            && builder.rate_limit->0.per_secs == r.per_secs,
        settings.sampling matches Some(s) ==> builder.sampling->0.min_level == min_level_of(
            s.min_level@,
        ) && (s.rate.bits <= 0x3FF0_0000_0000_0000 ==> builder.sampling->0.rate == s.rate) && (
        0x3FF0_0000_0000_0000 < s.rate.bits <= 0x7FF0_0000_0000_0000
            ==> builder.sampling->0.rate.bits == 0x3FF0_0000_0000_0000) && (0x8000_0000_0000_0000
            < s.rate.bits <= 0xFFF0_0000_0000_0000 ==> builder.sampling->0.rate.bits == 0),
{
    match settings.sampling {
        Some(s) => double::law_clamp_keeps(s.rate.bits),
        None => {},
    }
}

/// The file sink is as its block says, switch for switch.
pub proof fn law_file_block_is_honoured(settings: Settings, builder: Builder)
    requires
        describes(settings, builder),
        settings.file is Some,
    ensures
        ({
            let block = settings.file->0;
            let sink = builder.file->0;
            &&& builder.file is Some
            &&& sink.directory@ == block.directory@
            &&& sink.prefix@ == block.prefix@
            &&& sink.format == file_format_of(block.format@)
            &&& sink.timestamp == timestamp_of(block.timestamp@)
            &&& sink.rotation == rotation_of(block.rotation@, block.max_bytes, block.max_files)
            &&& sink.retention_days == block.retention_days
            &&& sink.compress == block.compress
            &&& sink.json_config.span_list == block.span_list
            &&& sink.json_config.flatten == block.flatten
            &&& sink.json_config.lossy == block.lossy
        }),
{
}

/// The switches are off unless they are set to on, the queue is the one that is set, the
/// keys to mask are all of those listed, in lower case and in their order, and each
/// filter goes to the sink it is named after.
pub proof fn law_switches_and_lists(settings: Settings, builder: Builder, i: int)
    requires
        describes(settings, builder),
    ensures
        builder.reloadable <==> settings.reloadable == Some(true),
        builder.capture_panics <==> settings.capture_panics == Some(true),
        builder.queue_size == settings.queue_size,
        builder.redact_keys@.len() == settings.redact@.len(),
        0 <= i < settings.redact@.len() ==> builder.redact_keys@[i]@ == text::lowercase(
            settings.redact@[i]@,
        ),
        settings.filters is None ==> builder.sink_filters.console is None
            && builder.sink_filters.json is None && builder.sink_filters.file is None
            && builder.sink_filters.syslog is None && builder.sink_filters.app_insights is None,
        settings.filters matches Some(f) ==> text::view_opt(builder.sink_filters.console)
            == text::view_opt(f.console) && text::view_opt(builder.sink_filters.json)
            == text::view_opt(f.json) && text::view_opt(builder.sink_filters.file)
            == text::view_opt(f.file) && text::view_opt(builder.sink_filters.syslog)
            == text::view_opt(f.syslog) && text::view_opt(builder.sink_filters.app_insights)
            == text::view_opt(f.app_insights),
{
    let keys = settings.redact@.map_values(|key: String| text::lowercase(key@));
    assert(text::views(builder.redact_keys@).len() == keys.len());
    if 0 <= i < settings.redact@.len() {
        assert(text::views(builder.redact_keys@)[i] == keys[i]);
    }
}

/// Whatever the settings ask for is honoured or fails: applying them fails exactly where
/// the level does not parse, or an export is asked for and its connection string is not
/// in the store; otherwise the level and the export are as asked for.
pub proof fn law_honoured_or_fails(
    settings: Settings,
    tree: Json,
    builder: Result<Builder, Error>,
)
    requires
        is_applied(settings, tree, builder),
    ensures
        ({
            let bad_level = settings.level is Some && filter::parsed_filter(settings.level->0@) is Err;
            let no_string = settings.app_insights is Some && !(value::lookup(
                tree,
                text::split(settings.app_insights->0.connection_string_key@, '.'),
            ) matches Some(Json::Text(_)));
            &&& builder is Err <==> bad_level || no_string
            &&& builder matches Err(e) ==> e is InvalidSettings
            &&& builder matches Ok(b) ==> (settings.level is Some <==> b.filter is Some) && (
            settings.level is Some ==> b.filter->0.text() == settings.level->0@)
            &&& builder matches Ok(b) ==> (settings.app_insights is Some <==> b.app_insights is Some)
            &&& builder is Ok && settings.app_insights is Some ==> ({
                let export = builder->Ok_0.app_insights->0;
                let block = settings.app_insights->0;
                &&& value::lookup(tree, text::split(block.connection_string_key@, '.')) == Some(
                    Json::Text(export.connection_string@),
                )
                &&& export.service_name@ == block.service_name@
                &&& export.sample_rate == block.sample_rate
            })
        }),
{
}

/// A refusal names the key: the level, with what is wrong with it, or the key under which
/// the connection string was looked for.
pub proof fn law_refusal_names_the_key(
    settings: Settings,
    tree: Json,
    builder: Result<Builder, Error>,
)
    requires
        is_applied(settings, tree, builder),
        builder is Err,
    ensures
        builder->Err_0 matches Error::InvalidSettings(message) && (if settings.level is Some
            && filter::parsed_filter(settings.level->0@) is Err {
            message@ == "level: "@ + filter::parsed_filter(settings.level->0@)->Err_0
        } else {
            message@ == "app_insights: "@ + settings.app_insights->0.connection_string_key@
                + " is not set"@
        }),
{
}

} // verus!

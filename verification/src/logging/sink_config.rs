//! What the sinks can be configured to do.

use vstd::prelude::*;

use crate::logging::file::Rotation;

verus! {

broadcast use vstd::string::group_string_axioms;

/// Default base name for log files. Overridable per sink via
/// [`FileConfig::with_prefix`].
pub const LOG_FILE_PREFIX: &'static str = "app.log";

/// Where the console sink writes.
///
/// Container platforms conventionally read stdout, and some log shippers treat anything
/// on stderr as an error regardless of its level, so the choice matters.
#[derive(Debug, Clone, Copy, PartialEq, Eq, Structural)]
pub enum ConsoleTarget {
    /// Standard error. The default.
    Stderr,
    /// Standard output.
    Stdout,
}

/// How timestamps are rendered.
#[derive(Debug, Clone, Copy, PartialEq, Eq, Structural)]
pub enum TimestampFormat {
    /// RFC 3339 in UTC. The default.
    Utc,
    /// RFC 3339 in the machine's local timezone, or in UTC where the offset cannot be
    /// determined.
    Local,
    /// No timestamp at all, for when something downstream already stamps them.
    Omitted,
}

/// Wire format for the file sink.
#[derive(Debug, Clone, Copy, PartialEq, Eq, Structural)]
pub enum FileFormat {
    /// One JSON object per line. The default.
    Json,
    /// The same human-readable layout the console sink uses, without colour.
    Text,
}

impl Default for ConsoleTarget {
    /// Standard error.
    fn default() -> (target: Self)
        ensures
            target == ConsoleTarget::Stderr,
    {
        ConsoleTarget::Stderr
    }
}

impl Default for TimestampFormat {
    /// UTC.
    fn default() -> (format: Self)
        ensures
            format == TimestampFormat::Utc,
    {
        TimestampFormat::Utc
    }
}

impl Default for FileFormat {
    /// JSON.
    fn default() -> (format: Self)
        ensures
            format == FileFormat::Json,
    {
        FileFormat::Json
    }
}

/// Text output to the console. Start from [`Default`] and chain the `with_*` setters.
#[derive(Debug, Clone, Copy, PartialEq, Eq, Structural)]
#[non_exhaustive]
pub struct ConsoleConfig {
    /// Stream to write to. Defaults to [`ConsoleTarget::Stderr`].
    pub target_stream: ConsoleTarget,
    /// Timestamp rendering. Defaults to [`TimestampFormat::Utc`].
    pub timestamp: TimestampFormat,
    /// Emit ANSI colour codes.
    pub use_color: bool,
    /// Include the emitting thread's id on each line.
    pub thread_ids: bool,
    /// Include the event's target (module path) on each line.
    pub target: bool,
    /// When `true`, drop events instead of blocking when the queue is full.
    pub lossy: bool,
}

impl Default for ConsoleConfig {
    /// Stderr, UTC timestamps, everything shown, nothing dropped.
    fn default() -> (config: Self)
        ensures
            config == (ConsoleConfig {
                target_stream: ConsoleTarget::Stderr,
                timestamp: TimestampFormat::Utc,
                use_color: true,
                thread_ids: true,
                target: true,
                lossy: false,
            }),
    {
        ConsoleConfig {
            target_stream: ConsoleTarget::default(),
            timestamp: TimestampFormat::default(),
            use_color: true,
            thread_ids: true,
            target: true,
            lossy: false,
        }
    }
}

impl ConsoleConfig {
    /// Write console output to stdout or stderr. Defaults to stderr.
    pub fn with_target_stream(self, target: ConsoleTarget) -> (config: ConsoleConfig)
        ensures
            config == (ConsoleConfig { target_stream: target, ..self }),
    {
        let mut config: ConsoleConfig = self;
        config.target_stream = target;
        config
    }

    /// Choose how timestamps are rendered. Defaults to UTC.
    pub fn with_timestamp(self, timestamp: TimestampFormat) -> (config: ConsoleConfig)
        ensures
            config == (ConsoleConfig { timestamp, ..self }),
    {
        let mut config: ConsoleConfig = self;
        config.timestamp = timestamp;
        config
    }

    /// Emit ANSI colour codes.
    pub fn with_color(self, enabled: bool) -> (config: ConsoleConfig)
        ensures
            config == (ConsoleConfig { use_color: enabled, ..self }),
    {
        let mut config: ConsoleConfig = self;
        config.use_color = enabled;
        config
    }

    /// Include the originating thread's id on each line.
    pub fn with_thread_ids(self, enabled: bool) -> (config: ConsoleConfig)
        ensures
            config == (ConsoleConfig { thread_ids: enabled, ..self }),
    {
        let mut config: ConsoleConfig = self;
        config.thread_ids = enabled;
        config
    }

    /// Include the event's target (usually the module path).
    pub fn with_target(self, enabled: bool) -> (config: ConsoleConfig)
        ensures
            config == (ConsoleConfig { target: enabled, ..self }),
    {
        let mut config: ConsoleConfig = self;
        config.target = enabled;
        config
    }

    /// Drop events rather than block the caller when the queue is full.
    pub fn with_lossy(self, enabled: bool) -> (config: ConsoleConfig)
        ensures
            config == (ConsoleConfig { lossy: enabled, ..self }),
    {
        let mut config: ConsoleConfig = self;
        config.lossy = enabled;
        config
    }
}

/// Structured JSON output. Start from [`Default`] and chain the `with_*` setters.
#[derive(Debug, Clone, Copy, PartialEq, Eq, Structural)]
#[non_exhaustive]
pub struct JsonConfig {
    /// Include the span scope on each record.
    pub span_list: bool,
    /// Flatten event fields into the top-level object.
    pub flatten: bool,
    /// When `true`, drop events instead of blocking when the queue is full.
    pub lossy: bool,
}

impl Default for JsonConfig {
    /// Everything shown, nothing dropped.
    fn default() -> (config: Self)
        ensures
            config == (JsonConfig { span_list: true, flatten: true, lossy: false }),
    {
        JsonConfig { span_list: true, flatten: true, lossy: false }
    }
}

impl JsonConfig {
    /// Include the full list of enclosing spans on each event.
    pub fn with_span_list(self, enabled: bool) -> (config: JsonConfig)
        ensures
            config == (JsonConfig { span_list: enabled, ..self }),
    {
        let mut config: JsonConfig = self;
        config.span_list = enabled;
        config
    }

    /// Flatten event fields into the top-level object.
    pub fn with_flatten(self, enabled: bool) -> (config: JsonConfig)
        ensures
            config == (JsonConfig { flatten: enabled, ..self }),
    {
        let mut config: JsonConfig = self;
        config.flatten = enabled;
        config
    }

    /// Drop events rather than block the caller when the queue is full.
    pub fn with_lossy(self, enabled: bool) -> (config: JsonConfig)
        ensures
            config == (JsonConfig { lossy: enabled, ..self }),
    {
        let mut config: JsonConfig = self;
        config.lossy = enabled;
        config
    }
}

/// The rotating file sink's configuration.
#[derive(Debug)]
pub struct FileConfig {
    /// Directory the log files are written to. Created when absent.
    pub directory: String,
    /// When the current file is retired for a fresh one.
    pub rotation: Rotation,
    /// Maximum age of rotated log files in days. Files older than this are deleted at
    /// startup. 0 disables retention.
    pub retention_days: u32,
    /// Shape of each record when the format is JSON.
    pub json_config: JsonConfig,
    /// Wire format. Defaults to [`FileFormat::Json`].
    pub format: FileFormat,
    /// Base name for log files, before the rotation suffix. Defaults to `"app.log"`.
    ///
    /// Two services sharing a log directory need different prefixes, or their files
    /// collide and a shipper cannot route by name.
    pub prefix: String,
    /// Timestamp rendering. Defaults to [`TimestampFormat::Utc`].
    pub timestamp: TimestampFormat,
    /// Gzip retired files. Only honoured for [`Rotation::Size`].
    pub compress: bool,
}

impl FileConfig {
    /// Whether this is the configuration for `directory` with everything else at its
    /// default.
    pub open spec fn is_default_for(&self, directory: Seq<char>) -> bool {
        &&& self.directory@ == directory
        &&& self.rotation == Rotation::Daily
        &&& self.retention_days == 0
        &&& self.json_config == (JsonConfig { span_list: true, flatten: true, lossy: false })
        &&& self.format == FileFormat::Json
        &&& self.prefix@ == LOG_FILE_PREFIX@
        &&& self.timestamp == TimestampFormat::Utc
        &&& !self.compress
    }

    /// Log to `directory`, rotating daily with retention disabled.
    pub fn new(directory: &str) -> (config: FileConfig)
        ensures
            config.is_default_for(directory@),
    {
        FileConfig {
            directory: directory.to_owned(),
            rotation: Rotation::Daily,
            retention_days: 0,
            json_config: JsonConfig::default(),
            format: FileFormat::default(),
            prefix: LOG_FILE_PREFIX.to_owned(),
            timestamp: TimestampFormat::default(),
            compress: false,
        }
    }

    /// How often a new log file is started.
    pub fn with_rotation(self, rotation: Rotation) -> (config: FileConfig)
        ensures
            config == (FileConfig { rotation, ..self }),
    {
        let mut config: FileConfig = self;
        config.rotation = rotation;
        config
    }

    /// Delete rotated files older than `days` at startup. 0 disables it.
    pub fn with_retention_days(self, days: u32) -> (config: FileConfig)
        ensures
            config == (FileConfig { retention_days: days, ..self }),
    {
        let mut config: FileConfig = self;
        config.retention_days = days;
        config
    }

    /// Choose the wire format for this file sink.
    pub fn with_format(self, format: FileFormat) -> (config: FileConfig)
        ensures
            config == (FileConfig { format, ..self }),
    {
        let mut config: FileConfig = self;
        config.format = format;
        config
    }

    /// Gzip retired files. Best-effort, and only with [`Rotation::Size`].
    pub fn with_compression(self, compress: bool) -> (config: FileConfig)
        ensures
            config == (FileConfig { compress, ..self }),
    {
        let mut config: FileConfig = self;
        config.compress = compress;
        config
    }

    /// Choose how timestamps are rendered. Defaults to UTC.
    pub fn with_timestamp(self, timestamp: TimestampFormat) -> (config: FileConfig)
        ensures
            config == (FileConfig { timestamp, ..self }),
    {
        let mut config: FileConfig = self;
        config.timestamp = timestamp;
        config
    }

    /// Set the JSON record shape used when the format is JSON.
    pub fn with_json_config(self, json_config: JsonConfig) -> (config: FileConfig)
        ensures
            config == (FileConfig { json_config, ..self }),
    {
        let mut config: FileConfig = self;
        config.json_config = json_config;
        config
    }

    /// Set the base file name, before the rotation suffix.
    pub fn with_prefix(self, prefix: &str) -> (config: FileConfig)
        ensures
            config.prefix@ == prefix@,
            config == (FileConfig { prefix: config.prefix, ..self }),
    {
        let mut config: FileConfig = self;
        config.prefix = prefix.to_owned();
        config
    }
}

impl Default for FileConfig {
    /// The configuration for `/var/log/app`.
    fn default() -> (config: Self)
        ensures
            config.is_default_for("/var/log/app"@),
    {
        FileConfig::new("/var/log/app")
    }
}

/// A file sink with nothing but a directory set writes JSON to `app.log`, with a new file
/// each day, and keeps every file as it was written.
pub proof fn law_file_defaults(config: FileConfig, directory: Seq<char>)
    requires
        config.is_default_for(directory),
    ensures
        config.directory@ == directory,
        config.prefix@ == "app.log"@,
        config.rotation == Rotation::Daily,
        config.retention_days == 0,
        config.format == FileFormat::Json,
        config.timestamp == TimestampFormat::Utc,
        !config.compress,
        config.json_config.span_list,
        config.json_config.flatten,
        !config.json_config.lossy,
{
}

} // verus!

//! Structured logging: what the facade decides, apart from the machinery that
//! carries it out.

pub mod appinsights;
pub mod builder;
pub mod directive;
pub mod double;
pub mod error;
pub mod file;
pub mod filter;
pub mod flush;
pub mod gate;
pub mod handle;
pub mod level;
pub mod line;
pub mod period;
pub mod rate_limit;
pub mod redaction;
pub mod sampling;
pub mod settings;
pub mod sink_config;
pub mod sinks;
pub mod size_rolling;
pub mod span;
pub mod syslog;
pub mod timestamp;

pub use builder::{builder, Builder};
pub use error::Error;
pub use flush::{DroppedLines, QueueDepth};
pub use handle::{flush, handle, is_initialized, reload_filter, reset, Handle, LoggingState};
pub use sink_config::{
    ConsoleConfig, ConsoleTarget, FileConfig, FileFormat, JsonConfig, TimestampFormat,
};
pub use span::{request_context, EventInfo, LineFormatter, SpanInfo, SpanScope};

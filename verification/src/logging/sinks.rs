//! How each sink is put together.
//!
//! A sink that was not configured is absent: a formatter or a filter on its own conjures
//! no sink the caller never asked for. Where a sink can take several shapes, exactly one
//! of them is built.

use vstd::prelude::*;

use crate::logging::file::Rotation;
use crate::logging::filter::{self, clone_filter, Filter};
use crate::logging::line::WithGlobals;
use crate::logging::sink_config::{
    ConsoleConfig, ConsoleTarget, FileConfig, FileFormat, JsonConfig, TimestampFormat,
};
use crate::logging::syslog::SyslogConfig;
use crate::text;

verus! {

broadcast use vstd::string::group_string_axioms;

/// The parts of a built-in text line.
#[derive(Debug, Clone, Copy, PartialEq, Eq, Structural)]
pub struct TextStyle {
    /// Emit ANSI colour codes.
    pub ansi: bool,
    /// Include the emitting thread's id.
    pub thread_ids: bool,
    /// Include the event's target.
    pub target: bool,
    /// Include the level.
    pub level: bool,
    /// How the timestamp is rendered.
    pub timestamp: TimestampFormat,
}

/// Who lays a text line out.
#[derive(Debug, Clone, Copy, PartialEq, Eq, Structural)]
pub enum TextLayout {
    /// The built-in layout.
    Builtin(TextStyle),
    /// A formatter of the caller's. Span fields are rendered for it without colour.
    Custom,
}

/// The shape of a JSON record.
#[derive(Debug, Clone, Copy, PartialEq, Eq, Structural)]
pub struct JsonStyle {
    /// Include the current span.
    pub current_span: bool,
    /// Include the span scope.
    pub span_list: bool,
    /// Flatten event fields into the top-level object.
    pub flatten: bool,
    /// How the timestamp is rendered.
    pub timestamp: TimestampFormat,
}

/// The console sink to build.
#[derive(Debug)]
pub struct ConsolePlan {
    /// Stream to write to.
    pub stream: ConsoleTarget,
    /// Drop events instead of blocking when the queue is full.
    pub lossy: bool,
    /// Capacity of the queue.
    pub queue: usize,
    /// Who lays the line out.
    pub layout: TextLayout,
    /// What every line goes through.
    pub line: WithGlobals,
    /// What the sink filters by.
    pub filter: Filter,
}

/// The JSON sink to build.
#[derive(Debug)]
pub struct JsonPlan {
    /// Drop events instead of blocking when the queue is full.
    pub lossy: bool,
    /// Capacity of the queue.
    pub queue: usize,
    /// The shape of a record.
    pub style: JsonStyle,
    /// What the sink filters by.
    pub filter: Filter,
}

/// Which appender the file sink writes through.
#[derive(Debug, Clone, Copy, PartialEq, Eq, Structural)]
pub enum AppenderKind {
    /// A fresh file each day.
    Daily,
    /// A fresh file each hour.
    Hourly,
    /// One file.
    Never,
    /// The size-rolling writer.
    Size {
        /// Size at which the active file is retired.
        max_bytes: u64,
        /// How many retired files to keep.
        max_files: usize,
        /// Gzip retired files.
        compress: bool,
    },
}

/// The writer of the file sink to open.
#[derive(Debug)]
pub struct FileWriterPlan {
    /// The directory, to be created where it is absent.
    pub directory: String,
    /// The base name of the files.
    pub prefix: String,
    /// Remove files older than this many days first, where there is a limit.
    pub cleanup_days: Option<u32>,
    /// Which appender to write through.
    pub appender: AppenderKind,
    /// Capacity of the queue.
    pub queue: usize,
    /// Drop events instead of blocking when the queue is full.
    pub lossy: bool,
}

/// How the file sink renders an event.
#[derive(Debug)]
pub enum FileLayout {
    /// As a JSON record.
    Json(JsonStyle),
    /// As a line of text.
    Text {
        /// Who lays the line out.
        layout: TextLayout,
        /// What every line goes through.
        line: WithGlobals,
    },
}

/// The file sink to build.
#[derive(Debug)]
pub struct FilePlan {
    /// The writer to open.
    pub writer: FileWriterPlan,
    /// How an event is rendered.
    pub layout: FileLayout,
    /// What the sink filters by.
    pub filter: Filter,
}

/// The syslog sink to build.
#[derive(Debug)]
pub struct SyslogPlan {
    /// Its configuration.
    pub config: SyslogConfig,
    /// What the sink filters by.
    pub filter: Filter,
}

/// The line wrapper with the given prefix and keys.
pub open spec fn is_line(line: WithGlobals, globals: Seq<char>, redact: Seq<Seq<char>>) -> bool {
    line.prefix@ == globals && text::views(line.redact@) == redact
}

/// The layout of the console sink: a formatter of the caller's replaces the built-in
/// one.
pub open spec fn console_layout(config: ConsoleConfig, has_format: bool) -> TextLayout {
    if has_format {
        TextLayout::Custom
    } else {
        TextLayout::Builtin(
            TextStyle {
                ansi: config.use_color,
                thread_ids: config.thread_ids,
                target: config.target,
                level: true,
                timestamp: config.timestamp,
            },
        )
    }
}

/// Whether `plan` is the console sink for `config`.
pub open spec fn is_console(
    plan: ConsolePlan,
    config: ConsoleConfig,
    queue: usize,
    globals: Seq<char>,
    redact: Seq<Seq<char>>,
    has_format: bool,
    own_filter: Option<Seq<char>>,
) -> bool {
    &&& plan.stream == config.target_stream
    &&& plan.lossy == config.lossy
    &&& plan.queue == queue
    &&& plan.layout == console_layout(config, has_format)
    &&& is_line(plan.line, globals, redact)
    &&& plan.filter.text() == filter::sink_directives(own_filter)
}

/// The line wrapper with the given prefix and keys.
fn line_for(globals: &str, redact: &Vec<String>) -> (line: WithGlobals)
    ensures
        is_line(line, globals@, text::views(redact@)),
{
    let keys: Vec<String> = redact.clone();
    proof {
        assert(text::views(keys@) =~= text::views(redact@));
    }
    WithGlobals { prefix: globals.to_owned(), redact: keys }
}

/// The console sink, or nothing when no console was configured.
pub fn console_group(
    config: &Option<ConsoleConfig>,
    queue: usize,
    globals: &str,
    redact: &Vec<String>,
    has_format: bool,
    own_filter: &Option<Filter>,
) -> (plan: Option<ConsolePlan>)
    ensures
        match config {
            None => plan is None,
            Some(c) => plan is Some && is_console(
                plan->0,
                *c,
                queue,
                globals@,
                text::views(redact@),
                has_format,
                filter::text_of(*own_filter),
            ),
        },
{
    match config {
        None => None,
        Some(c) => {
            let layout: TextLayout = if has_format {
                TextLayout::Custom
            } else {
                TextLayout::Builtin(
                    TextStyle {
                        ansi: c.use_color,
                        thread_ids: c.thread_ids,
                        target: c.target,
                        level: true,
                        timestamp: c.timestamp,
                    },
                )
            };
            Some(
                ConsolePlan {
                    stream: c.target_stream,
                    lossy: c.lossy,
                    queue,
                    layout,
                    line: line_for(globals, redact),
                    filter: clone_filter(own_filter),
                },
            )
        },
    }
}

/// Whether `plan` is the JSON sink for `config`. It takes neither a formatter nor global
/// fields: both are text concerns, and either would stop the output being JSON.
pub open spec fn is_json(
    plan: JsonPlan,
    config: JsonConfig,
    queue: usize,
    own_filter: Option<Seq<char>>,
) -> bool {
    &&& plan.lossy == config.lossy
    &&& plan.queue == queue
    &&& plan.style == (JsonStyle {
        current_span: true,
        span_list: config.span_list,
        flatten: config.flatten,
        timestamp: TimestampFormat::Utc,
    })
    &&& plan.filter.text() == filter::sink_directives(own_filter)
}

/// The JSON sink, or nothing when none was configured.
pub fn json_group(
    config: &Option<JsonConfig>,
    queue: usize,
    own_filter: &Option<Filter>,
) -> (plan: Option<JsonPlan>)
    ensures
        match config {
            None => plan is None,
            Some(c) => plan is Some && is_json(plan->0, *c, queue, filter::text_of(*own_filter)),
        },
{
    match config {
        None => None,
        Some(c) => Some(
            JsonPlan {
                lossy: c.lossy,
                queue,
                style: JsonStyle {
                    current_span: true,
                    span_list: c.span_list,
                    flatten: c.flatten,
                    timestamp: TimestampFormat::Utc,
                },
                filter: clone_filter(own_filter),
            },
        ),
    }
}

/// The appender for a rotation. Compression is only honoured for rolling by size.
pub open spec fn appender_for(rotation: Rotation, compress: bool) -> AppenderKind {
    match rotation {
        Rotation::Daily => AppenderKind::Daily,
        Rotation::Hourly => AppenderKind::Hourly,
        Rotation::Never => AppenderKind::Never,
        Rotation::Size { max_bytes, max_files } => AppenderKind::Size {
            max_bytes,
            max_files,
            compress,
        },
    }
}

/// Whether `plan` is the writer for `config`. A full queue drops lines only where the
/// records are configured lossy, and blocks otherwise.
pub open spec fn is_writer(plan: FileWriterPlan, config: FileConfig, queue: usize) -> bool {
    &&& plan.directory@ == config.directory@
    &&& plan.prefix@ == config.prefix@
    &&& plan.cleanup_days == (if config.retention_days > 0 {
        Some(config.retention_days)
    } else {
        None
    })
    &&& plan.appender == appender_for(config.rotation, config.compress)
    &&& plan.queue == queue
    &&& plan.lossy == config.json_config.lossy
}

/// The writer of the file sink.
pub fn build_file_writer(config: &FileConfig, queue: usize) -> (plan: FileWriterPlan)
    ensures
        is_writer(plan, *config, queue),
{
    let appender: AppenderKind = match config.rotation {
        Rotation::Daily => AppenderKind::Daily,
        Rotation::Hourly => AppenderKind::Hourly,
        Rotation::Never => AppenderKind::Never,
        Rotation::Size { max_bytes, max_files } => AppenderKind::Size {
            max_bytes,
            max_files,
            compress: config.compress,
        },
    };
    FileWriterPlan {
        directory: config.directory.clone(),
        prefix: config.prefix.clone(),
        cleanup_days: if config.retention_days > 0 {
            Some(config.retention_days)
        } else {
            None
        },
        appender,
        queue,
        lossy: config.json_config.lossy,
    }
}

/// Whether `layout` is how the file sink for `config` renders an event: JSON whatever
/// formatter there is, otherwise text by the caller's formatter or the built-in layout
/// without colour. Either text goes through the global fields and the redaction.
pub open spec fn is_file_layout(
    layout: FileLayout,
    config: FileConfig,
    globals: Seq<char>,
    redact: Seq<Seq<char>>,
    has_format: bool,
) -> bool {
    match config.format {
        FileFormat::Json => layout == FileLayout::Json(
            JsonStyle {
                current_span: true,
                span_list: config.json_config.span_list,
                flatten: config.json_config.flatten,
                timestamp: config.timestamp,
            },
        ),
        FileFormat::Text => layout matches FileLayout::Text { layout: by, line } && is_line(
            line,
            globals,
            redact,
        ) && by == if has_format {
            TextLayout::Custom
        } else {
            TextLayout::Builtin(
                TextStyle {
                    ansi: false,
                    thread_ids: false,
                    target: true,
                    level: true,
                    timestamp: config.timestamp,
                },
            )
        },
    }
}

/// Whether `plan` is the file sink for `config`.
pub open spec fn is_file(
    plan: FilePlan,
    config: FileConfig,
    queue: usize,
    globals: Seq<char>,
    redact: Seq<Seq<char>>,
    has_format: bool,
    own_filter: Option<Seq<char>>,
) -> bool {
    &&& is_writer(plan.writer, config, queue)
    &&& is_file_layout(plan.layout, config, globals, redact, has_format)
    &&& plan.filter.text() == filter::sink_directives(own_filter)
}

/// The file sink, or nothing when none was configured.
pub fn file_group(
    config: &Option<FileConfig>,
    queue: usize,
    globals: &str,
    redact: &Vec<String>,
    has_format: bool,
    own_filter: &Option<Filter>,
) -> (plan: Option<FilePlan>)
    ensures
        match config {
            None => plan is None,
            Some(c) => plan is Some && is_file(
                plan->0,
                *c,
                queue,
                globals@,
                text::views(redact@),
                has_format,
                filter::text_of(*own_filter),
            ),
        },
{
    match config {
        None => None,
        Some(c) => {
            let layout: FileLayout = match c.format {
                FileFormat::Json => FileLayout::Json(
                    JsonStyle {
                        current_span: true,
                        span_list: c.json_config.span_list,
                        flatten: c.json_config.flatten,
                        timestamp: c.timestamp,
                    },
                ),
                FileFormat::Text => {
                    let by: TextLayout = if has_format {
                        TextLayout::Custom
                    } else {
                        TextLayout::Builtin(
                            TextStyle {
                                ansi: false,
                                thread_ids: false,
                                target: true,
                                level: true,
                                timestamp: c.timestamp,
                            },
                        )
                    };
                    FileLayout::Text { layout: by, line: line_for(globals, redact) }
                },
            };
            Some(
                FilePlan {
                    writer: build_file_writer(c, queue),
                    layout,
                    filter: clone_filter(own_filter),
                },
            )
        },
    }
}

/// The syslog sink, or nothing when none was configured.
pub fn syslog_group(
    config: Option<SyslogConfig>,
    own_filter: &Option<Filter>,
) -> (plan: Option<SyslogPlan>)
    ensures
        match config {
            None => plan is None,
            Some(c) => plan is Some && plan->0.config == c && plan->0.filter.text()
                == filter::sink_directives(filter::text_of(*own_filter)),
        },
{
    match config {
        None => None,
        Some(c) => Some(SyslogPlan { config: c, filter: clone_filter(own_filter) }),
    }
}

/// One field rendered.
pub open spec fn field_text(field: (String, String)) -> Seq<char> {
    field.0@ + "="@ + field.1@
}

/// The fields rendered one after another, with a space between two.
pub open spec fn globals_text(fields: Seq<(String, String)>) -> Seq<char>
    decreases fields.len(),
{
    if fields.len() == 0 {
        Seq::empty()
    } else if fields.len() == 1 {
        field_text(fields[0])
    } else {
        globals_text(fields.drop_last()) + " "@ + field_text(fields.last())
    }
}

/// Render process-wide fields into the prefix the text sinks prepend.
pub fn render_globals(fields: &Vec<(String, String)>) -> (rendered: String)
    ensures
        rendered@ == globals_text(fields@),
{
    let mut rendered: String = String::new();
    let mut i: usize = 0;
    while i < fields.len()
        invariant
            i <= fields@.len(),
            rendered@ == globals_text(fields@.take(i as int)),
        decreases fields.len() - i,
    {
        let ghost before = rendered@;
        if i > 0 {
            rendered.append(" ");
        }
        rendered.append(fields[i].0.as_str());
        rendered.append("=");
        rendered.append(fields[i].1.as_str());
        proof {
            let taken = fields@.take(i + 1);
            assert(taken.drop_last() =~= fields@.take(i as int));
            assert(taken.last() == fields@[i as int]);
            if i == 0 {
                assert(rendered@ =~= field_text(fields@[0]));
            } else {
                assert(rendered@ =~= before + " "@ + field_text(fields@[i as int]));
            }
        }
        i = i + 1;
    }
    proof {
        assert(fields@.take(i as int) =~= fields@);
    }
    rendered
}

/// The process-wide fields are rendered each as its key, `=` and its value, in their
/// order, with one space between any two.
pub proof fn law_globals_are_joined(fields: Seq<(String, String)>)
    ensures
        globals_text(fields) == text::joined(
            Seq::new(fields.len(), |i: int| fields[i].0@ + seq!['='] + fields[i].1@),
            seq![' '],
        ),
    decreases fields.len(),
{
    reveal_strlit("=");
    reveal_strlit(" ");
    assert("="@ =~= seq!['=']);
    assert(" "@ =~= seq![' ']);
    let parts = Seq::new(fields.len(), |i: int| fields[i].0@ + seq!['='] + fields[i].1@);
    if fields.len() == 1 {
        assert(parts[0] == field_text(fields[0]));
    } else if fields.len() > 1 {
        let shorter = fields.drop_last();
        law_globals_are_joined(shorter);
        assert(parts.drop_last() =~= Seq::new(
            shorter.len(),
            |i: int| shorter[i].0@ + seq!['='] + shorter[i].1@,
        ));
        assert(parts.last() == field_text(fields.last()));
        text::lemma_joined_back(parts, seq![' ']);
    }
}

/// The console sink writes where it is told to and shows what it is told to show; a
/// formatter of the caller's takes the place of the built-in layout and of nothing else,
/// so the line still has the fields in front and the values masked.
pub proof fn law_console_sink(
    plan: ConsolePlan,
    config: ConsoleConfig,
    queue: usize,
    globals: Seq<char>,
    redact: Seq<Seq<char>>,
    has_format: bool,
    own_filter: Option<Seq<char>>,
)
    requires
        is_console(plan, config, queue, globals, redact, has_format, own_filter),
    ensures
        plan.stream == config.target_stream,
        plan.lossy == config.lossy,
        plan.queue == queue,
        plan.line.prefix@ == globals,
        text::views(plan.line.redact@) == redact,
        has_format <==> plan.layout == TextLayout::Custom,
        plan.layout matches TextLayout::Builtin(style) ==> style.ansi == config.use_color
            && style.thread_ids == config.thread_ids && style.target == config.target
            && style.level && style.timestamp == config.timestamp,
        own_filter is None ==> plan.filter.text() == "trace"@,
{
}

/// The JSON sink stays JSON whatever else is configured: its records are flat or not and
/// list their spans or not as configured, always name the current span, and always have
/// their time in UTC.
pub proof fn law_json_sink(
    plan: JsonPlan,
    config: JsonConfig,
    queue: usize,
    own_filter: Option<Seq<char>>,
)
    requires
        is_json(plan, config, queue, own_filter),
    ensures
        plan.lossy == config.lossy,
        plan.queue == queue,
        plan.style.current_span,
        plan.style.span_list == config.span_list,
        plan.style.flatten == config.flatten,
        plan.style.timestamp == TimestampFormat::Utc,
        own_filter is None ==> plan.filter.text() == "trace"@,
{
}

/// The file sink writes below the directory, under the prefix, and rotates as
/// configured; old files are looked for exactly where a number of days is given, files
/// are gzipped only where they roll by size, and a full queue drops lines only where the
/// sink is lossy. Its records are JSON or text as configured, and only text has the
/// fields in front, the values masked, and a formatter of the caller's; text in a file
/// has no colour.
pub proof fn law_file_sink(
    plan: FilePlan,
    config: FileConfig,
    queue: usize,
    globals: Seq<char>,
    redact: Seq<Seq<char>>,
    has_format: bool,
    own_filter: Option<Seq<char>>,
)
    requires
        is_file(plan, config, queue, globals, redact, has_format, own_filter),
    ensures
        plan.writer.directory@ == config.directory@,
        plan.writer.prefix@ == config.prefix@,
        plan.writer.queue == queue,
        plan.writer.lossy == config.json_config.lossy,
        plan.writer.cleanup_days is Some <==> config.retention_days > 0,
        plan.writer.cleanup_days matches Some(days) ==> days == config.retention_days,
        plan.writer.appender == AppenderKind::Daily <==> config.rotation == Rotation::Daily,
        plan.writer.appender == AppenderKind::Hourly <==> config.rotation == Rotation::Hourly,
        plan.writer.appender == AppenderKind::Never <==> config.rotation == Rotation::Never,
        config.rotation matches Rotation::Size { max_bytes, max_files } ==> plan.writer.appender
            == (AppenderKind::Size { max_bytes, max_files, compress: config.compress }),
        plan.layout is Json <==> config.format == FileFormat::Json,
        plan.layout matches FileLayout::Json(style) ==> style.current_span && style.span_list
            == config.json_config.span_list && style.flatten == config.json_config.flatten
            && style.timestamp == config.timestamp,
        plan.layout matches FileLayout::Text { layout, line } ==> line.prefix@ == globals
            && text::views(line.redact@) == redact && (has_format <==> layout
            == TextLayout::Custom) && (layout matches TextLayout::Builtin(style) ==> !style.ansi
            && !style.thread_ids && style.target && style.level && style.timestamp
            == config.timestamp),
        own_filter is None ==> plan.filter.text() == "trace"@,
{
}

} // verus!

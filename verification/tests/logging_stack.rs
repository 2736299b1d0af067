//! Configuration of the logging stack: sink configurations, the builder and its plan, the
//! settings block, the installed handle, and the bootstrap.

use stratify::bootstrap::{
    apply_store_level, auto_app_insights, configure, describe_file, init_with, logging_builder,
    optional_settings, with_store_level, Bootstrap,
};
use stratify::config;
use stratify::config::source::document::parse_toml;
use stratify::config::Store;
use stratify::logging::appinsights::AppInsightsConfig;
use stratify::logging::builder::DEFAULT_QUEUE_SIZE;
use stratify::logging::file::Rotation;
use stratify::logging::filter::{default_filter, Filter, UNREADABLE};
use stratify::logging::gate::{Ambient, Metadata};
use stratify::logging::handle::{installed, may_install, FlushStep};
use stratify::logging::level::{Level, LevelFilter};
use stratify::logging::rate_limit::RateLimit;
use stratify::logging::sampling::{Rate, SampleConfig};
use stratify::logging::settings::{
    default_connection_string_key, parse_file_format, parse_stream, parse_timestamp,
    AppInsightsSettings, ConsoleSettings, FileSettings, FilterSettings, JsonSettings,
    RateLimitSettings, SamplingSettings, Settings,
};
use stratify::logging::sinks::{AppenderKind, FileLayout, TextLayout};
use stratify::logging::syslog::{Facility, SyslogConfig};
use stratify::logging::{
    builder, flush, handle, is_initialized, reload_filter, request_context, reset, Builder,
    ConsoleConfig, ConsoleTarget, Error, EventInfo, FileConfig, FileFormat, Handle, JsonConfig,
    LineFormatter, LoggingState, SpanScope, TimestampFormat,
};
use stratify::{InitError, Options};

fn rate(value: f64) -> Rate {
    Rate::from_bits(value.to_bits())
}

fn store(toml: &str) -> Store {
    config::Builder::default()
        .toml("config.toml", 10)
        .build(vec![parse_toml(toml)])
        .expect("the store builds")
}

fn built(builder: Builder) -> Handle {
    builder.build(None, 0).expect("builds").handle()
}

// ── Sink configurations ──

#[test]
fn console_config_defaults() {
    let c = ConsoleConfig::default();
    assert!(c.use_color);
    assert!(c.thread_ids);
    assert!(c.target);
    assert!(!c.lossy);
}

#[test]
fn json_config_defaults() {
    let j = JsonConfig::default();
    assert!(j.span_list);
    assert!(j.flatten);
    assert!(!j.lossy);
}

#[test]
fn file_config_defaults() {
    let f = FileConfig::default();
    assert_eq!(f.directory, "/var/log/app");
}

#[test]
fn lossy_mode_present_on_configs() {
    let cc = ConsoleConfig::default().with_lossy(true);
    assert!(cc.lossy);

    let jc = JsonConfig::default().with_lossy(true);
    assert!(jc.lossy);
}

#[test]
fn file_config_new_accepts_custom_path() {
    let fc = FileConfig::new("/custom/log/path");
    assert_eq!(fc.directory, "/custom/log/path");
}

#[test]
fn file_config_default_rotation_is_daily() {
    let fc = FileConfig::default();
    assert_eq!(fc.rotation, Rotation::Daily);
}

#[test]
fn console_config_is_fully_configurable_from_an_external_crate() {
    let config = ConsoleConfig::default()
        .with_color(false)
        .with_thread_ids(false)
        .with_target(false)
        .with_lossy(true);
    assert!(!config.use_color);
    assert!(!config.thread_ids);
    assert!(!config.target);
    assert!(config.lossy);
}

#[test]
fn json_config_is_fully_configurable_from_an_external_crate() {
    let config = JsonConfig::default()
        .with_span_list(false)
        .with_flatten(false)
        .with_lossy(true);
    assert!(!config.span_list);
    assert!(!config.flatten);
    assert!(config.lossy);
}

#[test]
fn file_config_is_fully_configurable_from_an_external_crate() {
    let config = FileConfig::new("/var/log/example")
        .with_rotation(Rotation::Hourly)
        .with_retention_days(14)
        .with_json_config(JsonConfig::default().with_span_list(false));
    assert_eq!(config.directory, "/var/log/example");
    assert_eq!(config.rotation, Rotation::Hourly);
    assert_eq!(config.retention_days, 14);
    assert!(!config.json_config.span_list);
}

#[test]
fn the_remaining_file_setters_set_their_field() {
    let config = FileConfig::new("d")
        .with_format(FileFormat::Text)
        .with_compression(true)
        .with_timestamp(TimestampFormat::Local)
        .with_prefix("svc.log");
    assert_eq!(config.format, FileFormat::Text);
    assert!(config.compress);
    assert_eq!(config.timestamp, TimestampFormat::Local);
    assert_eq!(config.prefix, "svc.log");
    assert_eq!(FileConfig::new("d").prefix, "app.log");
    assert_eq!(FileFormat::default(), FileFormat::Json);
}

// ── Builder ──

#[test]
fn builder_methods_are_chainable() {
    let b = builder()
        .console(ConsoleConfig::default())
        .json(JsonConfig::default())
        .file(FileConfig::new("/tmp/test"))
        .reloadable()
        .queue_size(64_000)
        .with_filter(Filter::parse("debug").unwrap());
    let _: Builder = b;
}

#[test]
fn build_is_testable() {
    let handle = built(builder().console(ConsoleConfig::default()));
    assert!(!handle.reloadable);
    assert!(handle.console.is_some());
    assert!(handle.json.is_none());
    assert!(handle.file.is_none());
}

#[test]
fn build_with_reload() {
    assert!(built(builder().reloadable()).reloadable);
}

#[test]
fn build_with_file() {
    assert!(built(builder().file(FileConfig::new("/tmp/logs"))).file.is_some());
}

#[test]
fn build_all_layers() {
    let handle = built(
        builder()
            .console(ConsoleConfig::default())
            .json(JsonConfig::default())
            .file(FileConfig::new("/tmp/logs")),
    );
    assert!(handle.console.is_some());
    assert!(handle.json.is_some());
    assert!(handle.file.is_some());
}

#[test]
fn custom_queue_size() {
    let plan = builder()
        .console(ConsoleConfig::default())
        .queue_size(1_000)
        .build(None, 0)
        .unwrap();
    assert_eq!(plan.console.unwrap().queue, 1_000);
    let plan = builder().json(JsonConfig::default()).build(None, 0).unwrap();
    assert_eq!(plan.json.unwrap().queue, DEFAULT_QUEUE_SIZE);
}

#[test]
fn clone_carries_the_same_writers() {
    let handle = built(builder().console(ConsoleConfig::default()).json(JsonConfig::default()));
    let cloned = handle.clone();
    assert_eq!(cloned.reloadable, handle.reloadable);
    assert!(cloned.console.is_some());
    assert!(cloned.json.is_some());
    assert!(cloned.file.is_none(), "no file layer was configured");
}

#[test]
fn handle_flush_does_not_panic() {
    let handle = built(builder().console(ConsoleConfig::default()));
    assert_eq!(handle.flush(), [FlushStep::DrainConsole]);
}

#[test]
fn a_flush_takes_the_exporter_first_and_a_shutdown_closes_it_last() {
    let handle = built(
        builder()
            .console(ConsoleConfig::default())
            .json(JsonConfig::default())
            .file(FileConfig::new("/tmp/logs"))
            .app_insights(AppInsightsConfig::new("cs", "svc")),
    );
    let flush = [
        FlushStep::FlushExporter,
        FlushStep::DrainConsole,
        FlushStep::DrainJson,
        FlushStep::DrainFile,
    ];
    assert_eq!(handle.flush(), flush);
    let mut shutdown = flush.to_vec();
    shutdown.push(FlushStep::ShutdownExporter);
    assert_eq!(handle.shutdown(), shutdown);
    assert_eq!(handle.queue_depth().total(), 0);
    assert!(!handle.dropped_lines().any());
}

#[test]
fn build_file_with_hourly_rotation() {
    let fc = FileConfig::new("/tmp/logs").with_rotation(Rotation::Hourly);
    let plan = builder().file(fc).build(None, 0).unwrap();
    assert!(plan.handle().file.is_some());
    assert_eq!(plan.file.unwrap().writer.appender, AppenderKind::Hourly);
}

#[test]
fn build_file_with_never_rotation() {
    let fc = FileConfig::new("/tmp/logs").with_rotation(Rotation::Never);
    let plan = builder().file(fc).build(None, 0).unwrap();
    assert!(plan.handle().file.is_some());
    assert_eq!(plan.file.unwrap().writer.appender, AppenderKind::Never);
}

#[test]
fn the_file_writer_is_planned_as_configured() {
    let fc = FileConfig::new("/tmp/logs")
        .with_rotation(Rotation::Size { max_bytes: 512, max_files: 2 })
        .with_compression(true)
        .with_retention_days(7)
        .with_prefix("nse-api.log");
    let plan = builder().file(fc).queue_size(9).build(None, 0).unwrap();
    let writer = plan.file.unwrap().writer;
    assert_eq!(writer.directory, "/tmp/logs");
    assert_eq!(writer.prefix, "nse-api.log");
    assert_eq!(writer.cleanup_days, Some(7));
    assert_eq!(writer.queue, 9);
    assert_eq!(
        writer.appender,
        AppenderKind::Size { max_bytes: 512, max_files: 2, compress: true }
    );
}

/// Those of `levels` that get past the gates of a stack.
fn passing(builder: Builder, levels: &[Level]) -> Vec<Level> {
    let plan = builder
        .file(FileConfig::new("/tmp/logs"))
        .with_filter(Filter::new("trace"))
        .build(None, 0)
        .unwrap();
    let mut around = Ambient { now: 0, generator: 1 };
    match plan.gates {
        None => levels.to_vec(),
        Some(mut gates) => levels
            .iter()
            .copied()
            .filter(|level| gates.enabled(&Metadata { level: *level, is_event: true }, &mut around))
            .collect(),
    }
}

#[test]
fn without_gating_every_event_reaches_the_sink() {
    assert_eq!(passing(builder(), &[Level::Info; 200]).len(), 200);
}

#[test]
fn sampling_min_level_gates_the_sink_through_the_builder() {
    let sampling = SampleConfig::default().with_min_level(LevelFilter::Warn);
    let kept = passing(
        builder().sampling(sampling),
        &[Level::Error, Level::Warn, Level::Info, Level::Debug, Level::Trace],
    );
    assert_eq!(kept, [Level::Error, Level::Warn]);
}

#[test]
fn the_file_queue_drops_lines_only_where_it_is_configured_lossy() {
    let lossy = |config: FileConfig| {
        builder().file(config).build(None, 0).unwrap().file.unwrap().writer.lossy
    };
    assert!(!lossy(FileConfig::new("/tmp/logs")));
    assert!(lossy(
        FileConfig::new("/tmp/logs").with_json_config(JsonConfig::default().with_lossy(true))
    ));
}

#[test]
fn redaction_is_case_insensitive_on_the_field_name() {
    let plan = builder()
        .with_filter(Filter::new("info"))
        .file(FileConfig::new("/tmp/logs").with_format(FileFormat::Text))
        .redact(&["AUTHORIZATION"])
        .build(None, 0)
        .unwrap();
    match plan.file.unwrap().layout {
        FileLayout::Text { line, .. } => {
            let body = line.format_event("INFO request authorization=\"Bearer abc123\"\n");
            assert!(!body.contains("abc123"), "the secret survived: {body}");
            assert_eq!(body, "INFO request authorization=[redacted]\n");
        }
        other => panic!("got {other:?}"),
    }
}

#[test]
fn a_directive_the_parser_cannot_cut_is_an_error() {
    for bad in ["\u{a0}a=info", " \u{e9}=info", "info, \u{e9}=info"] {
        assert_eq!(Filter::parse(bad).map(|_| ()), Err(UNREADABLE.to_string()));
        assert_eq!(default_filter(Some(bad)).directives(), "info");
        match builder().console_filter(bad).build(None, 0) {
            Err(Error::InvalidFilter(message)) => {
                assert_eq!(message, format!("console: {UNREADABLE}"))
            }
            other => panic!("got {other:?}"),
        }
    }
    for good in [
        "\u{e9}=info",
        "info,\u{e9}=info",
        "",
        "a=info",
        " \u{e9}",
        "  \u{e9}]x",
        "info, \u{e9}t\u{e9},warn",
    ] {
        assert!(Filter::parse(good).is_ok(), "{good:?}");
    }
    let refused = Filter::parse("???").map(|_| ()).expect_err("no directive");
    for stopped in ["???, \u{e9}=info", " \u{20ac}=info", "a[b, \u{e9}=info"] {
        assert_eq!(Filter::parse(stopped).map(|_| ()), Err(refused.clone()), "{stopped:?}");
    }
}

#[test]
fn the_console_target_is_selectable() {
    let plan = builder()
        .with_filter(Filter::new("info"))
        .console(ConsoleConfig::default().with_target_stream(ConsoleTarget::Stdout))
        .build(None, 0)
        .unwrap();
    assert_eq!(plan.console.unwrap().stream, ConsoleTarget::Stdout);
}

#[test]
fn global_fields_appear_on_every_text_line() {
    let plan = builder()
        .file(FileConfig::new("/tmp/logs").with_format(FileFormat::Text))
        .global_field("service", "nse-api")
        .global_field("version", "1.2.3")
        .build(None, 0)
        .unwrap();
    match plan.file.unwrap().layout {
        FileLayout::Text { line, .. } => {
            let out = line.format_event("event body");
            assert!(out.contains("service=nse-api"), "got: {out}");
            assert!(out.contains("version=1.2.3"), "got: {out}");
            assert_eq!(out, "service=nse-api version=1.2.3 event body");
        }
        other => panic!("got {other:?}"),
    }
}

#[test]
fn a_repeated_global_field_key_replaces_rather_than_duplicates() {
    let plan = builder()
        .console(ConsoleConfig::default())
        .global_field("env", "staging")
        .global_field("env", "prod")
        .build(None, 0)
        .unwrap();
    let out = plan.console.unwrap().line.format_event("event body");
    assert!(out.contains("env=prod"), "got: {out}");
    assert!(!out.contains("env=staging"), "got: {out}");
}

#[test]
fn redaction_applies_to_a_custom_file_formatter_too() {
    let plan = builder()
        .file(FileConfig::new("/tmp/logs").with_format(FileFormat::Text))
        .file_format()
        .redact(&["PASSWORD"])
        .build(None, 0)
        .unwrap();
    match plan.file.unwrap().layout {
        FileLayout::Text { layout, line } => {
            assert_eq!(layout, TextLayout::Custom);
            let body = line.format_event("password=\"hunter2\" message=login ");
            assert!(!body.contains("hunter2"), "the secret survived: {body}");
        }
        other => panic!("got {other:?}"),
    }
}

#[test]
fn a_per_sink_filter_narrows_only_that_sink() {
    let plan = builder()
        .with_filter(Filter::new("info"))
        .file(FileConfig::new("/tmp/logs").with_format(FileFormat::Text))
        .console(ConsoleConfig::default())
        .console_filter("warn")
        .build(None, 0)
        .unwrap();
    assert_eq!(plan.filter.directives(), "info");
    assert_eq!(plan.console.unwrap().filter.directives(), "warn");
    assert_eq!(plan.file.unwrap().filter.directives(), "trace");
}

#[test]
fn an_invalid_per_sink_filter_is_a_startup_error() {
    let built = builder()
        .with_filter(Filter::new("info"))
        .console(ConsoleConfig::default())
        .console_filter("this is not a filter=???")
        .build(None, 0);
    match built {
        Err(Error::InvalidFilter(message)) => {
            assert!(message.starts_with("console: "), "got: {message}")
        }
        other => panic!("a bad directive must fail the build, got {other:?}"),
    }
}

#[test]
fn each_sink_is_named_when_its_filter_is_invalid() {
    let bad = "this is not a filter=???";
    let cases: [(Builder, &str); 4] = [
        (builder().json_filter(bad), "json: "),
        (builder().file_filter(bad), "file: "),
        (builder().syslog_filter(bad), "syslog: "),
        (builder().app_insights_filter(bad), "app_insights: "),
    ];
    for (builder, sink) in cases {
        match builder.build(None, 0) {
            Err(Error::InvalidFilter(message)) => {
                assert!(message.starts_with(sink), "got: {message}")
            }
            other => panic!("got {other:?}"),
        }
    }
}

#[test]
fn a_file_filter_applies_to_a_custom_file_formatter_too() {
    let plan = builder()
        .with_filter(Filter::new("info"))
        .file(FileConfig::new("/tmp/logs").with_format(FileFormat::Text))
        .file_format()
        .file_filter("warn")
        .build(None, 0)
        .unwrap();
    assert_eq!(plan.file.unwrap().filter.directives(), "warn");
}

#[test]
fn default_filter_when_none_supplied() {
    let filter = |rust_log: Option<&str>| {
        let plan = builder().console(ConsoleConfig::default()).build(rust_log, 0).unwrap();
        plan.filter.directives().to_string()
    };
    assert_eq!(filter(None), "info");
    assert_eq!(filter(Some("warn")), "warn");
    assert_eq!(filter(Some("not[a]filter")), "info");
    assert_eq!(default_filter(Some("my_crate=debug")).directives(), "my_crate=debug");
}

#[test]
fn reloadable_returns_some_handle_when_enabled() {
    assert!(built(builder().reloadable()).reloadable);
}

#[test]
fn reloadable_returns_none_when_not_enabled() {
    assert!(!built(builder().console(ConsoleConfig::default())).reloadable);
}

#[test]
fn the_syslog_sink_and_the_exporter_are_planned_as_configured() {
    let plan = builder()
        .syslog(SyslogConfig::new("lk-test").with_facility(Facility::Daemon))
        .app_insights(AppInsightsConfig::new("cs", "svc").with_sample_rate(rate(7.0)))
        .app_insights_filter("info")
        .with_layer()
        .capture_panics()
        .build(None, 0)
        .unwrap();
    let syslog = plan.syslog.unwrap();
    assert_eq!(syslog.config.tag, "lk-test");
    assert_eq!(syslog.config.facility, Facility::Daemon);
    assert_eq!(syslog.filter.directives(), "trace");
    let export = plan.app_insights.unwrap();
    assert_eq!(export.connection_string, "cs");
    assert_eq!(export.sample_rate, rate(1.0));
    assert_eq!(export.filter.directives(), "info");
    assert!(plan.custom_layers);
    assert!(plan.capture_panics);
    assert!(plan.gates.is_none());
}

#[test]
fn without_a_formatter_the_built_in_layout_is_unchanged() {
    let text = || FileConfig::new("/tmp/logs").with_format(FileFormat::Text);
    let layout = |builder: Builder| match builder.build(None, 0).unwrap().file.unwrap().layout {
        FileLayout::Text { layout, .. } => layout,
        other => panic!("got {other:?}"),
    };
    assert!(matches!(
        layout(builder().file(text())),
        TextLayout::Builtin(style) if !style.ansi
    ));
    assert_eq!(layout(builder().file(text()).file_format()), TextLayout::Custom);
    let plan = builder()
        .console(ConsoleConfig::default())
        .console_format()
        .build(None, 0)
        .unwrap();
    assert_eq!(plan.console.unwrap().layout, TextLayout::Custom);
}

#[test]
fn json_remains_the_default() {
    let plan = builder().file(FileConfig::new("/tmp/logs")).build(None, 0).unwrap();
    assert!(matches!(plan.file.unwrap().layout, FileLayout::Json(_)));
    assert_eq!(FileFormat::default(), FileFormat::Json);
}

#[test]
fn every_config_type_composes_into_a_working_subscriber() {
    let plan = builder()
        .console(ConsoleConfig::default().with_color(false).with_lossy(true))
        .json(JsonConfig::default().with_flatten(false))
        .file(
            FileConfig::new("/tmp/logs")
                .with_rotation(Rotation::Never)
                .with_json_config(JsonConfig::default().with_span_list(true)),
        )
        .sampling(SampleConfig::new(rate(1.0)).with_min_level(LevelFilter::Info))
        .rate_limit(RateLimit::new(3, 60))
        .with_filter(Filter::new("trace"))
        .build(None, 0)
        .expect("build failed");
    assert!(plan.gates.is_some());
    assert!(plan.console.unwrap().lossy);
    assert!(!plan.json.unwrap().style.flatten);
    assert!(matches!(plan.file.unwrap().layout, FileLayout::Json(style) if style.span_list));
}

// ── The installed handle ──

#[test]
fn handle_returns_none_before_init() {
    let state = LoggingState::new();
    assert!(handle(&state).is_none());
    assert!(!is_initialized(&state));
}

#[test]
fn reset_clears_handle() {
    let mut state = LoggingState::new();
    assert!(!is_initialized(&state));
    reset(&mut state);
    assert!(!is_initialized(&state));
}

#[test]
fn error_paths_are_covered() {
    let state = LoggingState::new();
    assert!(flush(&state).is_err());
    assert!(reload_filter(&state).is_err());
}

#[test]
fn flush_before_init_reports_not_initialized() {
    let error = flush(&LoggingState::new()).expect_err("nothing has been initialized");
    assert!(
        matches!(error, Error::NotInitialized),
        "expected NotInitialized, got {error:?}"
    );
}

#[test]
fn reload_filter_before_init_reports_not_initialized() {
    let error = reload_filter(&LoggingState::new()).expect_err("nothing has been initialized");
    assert!(
        matches!(error, Error::NotInitialized),
        "expected NotInitialized, got {error:?}"
    );
}

#[test]
fn error_messages_stay_human_readable() {
    let error = flush(&LoggingState::new()).expect_err("not initialized");
    assert_eq!(error.message(), "logging is not initialized");
}

#[test]
fn logging_errors_read_as_sentences() {
    let text = || "x".to_string();
    let cases = [
        (Error::Io(text()), "I/O error: x"),
        (Error::AlreadyInitialized, "logging is already initialized"),
        (Error::ReloadNotEnabled, "runtime filter reload was not enabled during init"),
        (Error::LockPoisoned, "the logging state lock is poisoned"),
        (Error::InvalidFilter(text()), "invalid filter directives for x"),
        (Error::AppInsights(text()), "Application Insights: x"),
        (
            Error::SetGlobalDefault(text()),
            "failed to install the global tracing subscriber: x",
        ),
        (Error::FilterReload(text()), "failed to reload the runtime filter: x"),
        (Error::FilterParse(text()), "invalid filter directive: x"),
        (
            Error::Settings(config::Error::NotFound(text())),
            "could not read logging settings: Configuration source not found: x",
        ),
        (Error::InvalidSettings(text()), "invalid logging settings: x"),
    ];
    for (error, sentence) in cases {
        assert_eq!(error.message(), sentence);
    }
}

#[test]
fn init_then_reset_keeps_logging_alive_and_leaves_a_recoverable_state() {
    let mut state = LoggingState::new();
    let plan = builder()
        .file(FileConfig::new("/tmp/logs"))
        .with_filter(Filter::new("trace"))
        .init(&state, None, 0)
        .expect("init failed");
    installed(&mut state, plan.handle(), Ok(())).expect("installed");
    assert!(is_initialized(&state));

    let again = builder().init(&state, None, 0).expect_err("logging is already initialized");
    assert!(
        matches!(again, Error::AlreadyInitialized),
        "expected AlreadyInitialized, got {again:?}"
    );
    assert!(may_install(&state).is_err());

    let reload = reload_filter(&state).expect_err("this subscriber was not built reloadable");
    assert!(
        matches!(reload, Error::ReloadNotEnabled),
        "expected ReloadNotEnabled, got {reload:?}"
    );
    assert_eq!(flush(&state).expect("flush failed"), [FlushStep::DrainFile]);

    let kept = handle(&state).expect("handle should be reachable");
    reset(&mut state);
    assert!(!is_initialized(&state));
    assert!(handle(&state).is_none());
    let flushed = flush(&state).expect_err("there is no stored handle");
    assert!(matches!(flushed, Error::NotInitialized));
    assert_eq!(kept.flush(), [FlushStep::DrainFile]);

    let plan = builder()
        .file(FileConfig::new("/tmp/logs"))
        .init(&state, None, 0)
        .expect("the slot is free");
    let retry = installed(&mut state, plan.handle(), Err("already set".to_string()))
        .expect_err("the global subscriber is still installed");
    assert!(matches!(retry, Error::SetGlobalDefault(_)), "got {retry:?}");
    assert!(!is_initialized(&state), "the failed retry stored a handle");
}

#[test]
fn a_failed_init_leaves_the_singleton_clean_and_does_not_block_a_retry() {
    let mut state = LoggingState::new();
    for _ in 0..2 {
        let plan = builder()
            .console(ConsoleConfig::default())
            .init(&state, None, 0)
            .expect("nothing from this facade is installed");
        let result = installed(&mut state, plan.handle(), Err("taken".to_string()));
        assert!(matches!(result, Err(Error::SetGlobalDefault(_))));
        assert!(!is_initialized(&state));
        assert!(handle(&state).is_none());
    }
}

#[test]
fn a_reloadable_stack_may_be_reloaded() {
    let mut state = LoggingState::new();
    let plan = builder().reloadable().init(&state, None, 0).unwrap();
    installed(&mut state, plan.handle(), Ok(())).unwrap();
    assert!(reload_filter(&state).is_ok());
    assert!(installed(&mut state, plan.handle(), Ok(())).is_err());
}

// ── Spans and formatters ──

#[test]
fn request_context_creates_span() {
    let span = request_context("r1", "GET", "/api");
    drop(span);
}

#[test]
fn request_context_includes_all_fields() {
    let span = request_context("req-42", "POST", "/users");
    assert_eq!(span.name, "request");
    assert_eq!(span.fields, "request_id=req-42 method=POST path=/users");
}

struct Pipes;

impl LineFormatter for Pipes {
    fn format_line(&self, event: &EventInfo, spans: &SpanScope) -> Option<String> {
        Some(format!("|{:?}|{}|{}|", event.level, event.target, spans.spans().len()))
    }
}

#[test]
fn a_custom_formatter_sees_the_event_and_its_spans() {
    let event = EventInfo {
        level: stratify::logging::level::Level::Info,
        target: "svc".to_string(),
        fields: vec![("message".to_string(), "ignored".to_string())],
    };
    let scope = SpanScope::new(vec![request_context("r1", "GET", "/api")]);
    assert_eq!(Pipes.format_line(&event, &scope).as_deref(), Some("|Info|svc|1|"));
}

// ── Settings ──

#[test]
fn external_crate_can_fully_construct_logging_config() {
    let config = Settings::default()
        .with_level("debug")
        .with_console(ConsoleSettings {
            color: false,
            thread_ids: true,
            target: false,
            lossy: true,
            ..Default::default()
        })
        .with_json(JsonSettings { span_list: false, flatten: true, lossy: true })
        .with_file(FileSettings {
            directory: "/var/log/example".into(),
            rotation: "hourly".into(),
            retention_days: 14,
            span_list: true,
            flatten: false,
            lossy: false,
            ..Default::default()
        })
        .with_rate_limit(RateLimitSettings { max_events: 500, per_secs: 10 })
        .with_sampling(SamplingSettings { rate: rate(0.25), min_level: "debug".into() })
        .with_queue_size(32_000)
        .with_reloadable(true);

    assert_eq!(config.level.as_deref(), Some("debug"));
    assert_eq!(config.queue_size, Some(32_000));
    assert_eq!(config.reloadable, Some(true));
    assert!(config.console.as_ref().unwrap().lossy);
    assert!(!config.json.as_ref().unwrap().span_list);
    assert_eq!(config.file.as_ref().unwrap().retention_days, 14);
    assert_eq!(config.rate_limit.as_ref().unwrap().max_events, 500);
    assert_eq!(config.sampling.as_ref().unwrap().rate, rate(0.25));
}

#[test]
fn sampling_rate_clamped() {
    let s = SamplingSettings { rate: rate(15.0), min_level: "trace".to_string() };
    assert_eq!(s.rate, rate(15.0));
    assert_eq!(s.to_sample_config().rate, rate(1.0));
}

#[test]
fn an_absent_block_is_reported_as_not_found() {
    let store = store("[other]\nkey = 1\n");
    assert!(matches!(store.get("logging"), Err(config::Error::NotFound(_))));
}

#[test]
fn from_store_produces_a_builder() {
    let settings = Settings::default()
        .with_level("info")
        .with_console(ConsoleSettings { color: true, ..Default::default() })
        .with_rate_limit(RateLimitSettings { max_events: 100, per_secs: 1 });
    let builder = Settings::from_store(Ok(settings), &store("")).expect("a valid block");
    assert_eq!(builder.rate_limit, Some(RateLimit::new(100, 1)));
    assert_eq!(builder.filter.unwrap().directives(), "info");
    assert!(builder.console.unwrap().use_color);

    let missing = Settings::from_store(Err(config::Error::NotFound("logging".to_string())), &store(""));
    assert!(matches!(missing, Err(Error::Settings(config::Error::NotFound(_)))));
}

#[test]
fn text_values_that_are_not_known_fall_back_to_the_default() {
    assert_eq!(parse_stream("STDOUT"), ConsoleTarget::Stdout);
    assert_eq!(parse_stream("nowhere"), ConsoleTarget::Stderr);
    assert_eq!(parse_timestamp("Local"), TimestampFormat::Local);
    assert_eq!(parse_timestamp("none"), TimestampFormat::Omitted);
    assert_eq!(parse_timestamp("sidereal"), TimestampFormat::Utc);
    assert_eq!(parse_file_format("TEXT"), FileFormat::Text);
    assert_eq!(parse_file_format("xml"), FileFormat::Json);
}

#[test]
fn a_file_block_is_turned_into_its_configuration() {
    let block = FileSettings {
        directory: "/var/log/app".into(),
        rotation: "size".into(),
        max_bytes: 512,
        max_files: 3,
        compress: true,
        format: "text".into(),
        ..Default::default()
    };
    let config = block.to_file_config();
    assert_eq!(config.rotation, Rotation::Size { max_bytes: 512, max_files: 3 });
    assert!(config.compress);
    assert_eq!(config.format, FileFormat::Text);
    assert_eq!(config.prefix, "app.log");
    let rotation = |name: &str| {
        FileSettings { rotation: name.into(), ..Default::default() }.to_file_config().rotation
    };
    assert_eq!(rotation("hourly"), Rotation::Hourly);
    assert_eq!(rotation("never"), Rotation::Never);
    assert_eq!(rotation("daily"), Rotation::Daily);
    assert_eq!(rotation("weekly"), Rotation::Daily);
}

#[test]
fn a_level_that_does_not_parse_is_passed_over_or_fails_naming_the_key() {
    let settings = Settings::default().with_level("not[a]filter");
    assert!(settings.to_builder().filter.is_none());
    match settings.apply(&store("")) {
        Err(Error::InvalidSettings(message)) => {
            assert!(message.starts_with("level: "), "got: {message}")
        }
        other => panic!("got {other:?}"),
    }
    let parsed = settings.apply_found(Some(Err("bad".to_string())), None);
    assert!(matches!(parsed, Err(Error::InvalidSettings(message)) if message == "level: bad"));
}

#[test]
fn an_export_block_finds_its_connection_string_in_the_store_or_fails() {
    let mut settings = Settings::default();
    settings.redact = vec!["Password".to_string()];
    settings.capture_panics = Some(true);
    settings.filters = Some(FilterSettings {
        console: None,
        json: None,
        file: None,
        syslog: None,
        app_insights: Some("info".to_string()),
    });
    settings.app_insights = Some(AppInsightsSettings {
        service_name: "my-service".to_string(),
        sample_rate: rate(0.25),
        connection_string_key: default_connection_string_key(),
    });
    let found = store("applicationinsights_connection_string = \"InstrumentationKey=abc\"\n");
    let builder = settings.apply(&found).expect("the key is there");
    let export = builder.app_insights.expect("exports");
    assert_eq!(export.connection_string, "InstrumentationKey=abc");
    assert_eq!(export.service_name, "my-service");
    assert_eq!(export.sample_rate, rate(0.25));
    assert_eq!(builder.redact_keys, ["password"]);
    assert!(builder.capture_panics);
    assert_eq!(builder.sink_filters.app_insights.as_deref(), Some("info"));

    match settings.apply(&store("")) {
        Err(Error::InvalidSettings(message)) => assert_eq!(
            message,
            "app_insights: applicationinsights_connection_string is not set"
        ),
        other => panic!("got {other:?}"),
    }
}

// ── Bootstrap ──

#[test]
fn options_default_to_the_conventional_stack() {
    let options = Options::new("svc");
    assert_eq!(options.service_name, "svc");
    assert_eq!(options.config_file, "config.toml");
    assert!(options.dotenv);
    assert_eq!(options.logging_key, "logging");
    assert_eq!(options.env_prefix, "");
}

#[test]
fn describe_file_marks_an_absent_path() {
    let rendered = describe_file("definitely-not-here-9f3a.toml", false);
    assert!(rendered.contains("absent"), "got: {rendered}");
    assert_eq!(describe_file("config.toml", true), "config.toml");
}

#[test]
fn init_with_reports_an_invalid_logging_block() {
    let options = Options::new("svc");
    let read = Err(config::Error::Json("invalid type: integer `3`, expected a string".to_string()));
    let result = init_with(&options, read, &store("[logging]\nlevel = 3\n"), &LoggingState::new(), None, 0);
    assert!(matches!(result, Err(InitError::Logging(Error::Settings(_)))));
}

#[test]
fn an_absent_block_means_the_console_alone() {
    let options = Options::new("svc");
    let read = Err(config::Error::NotFound("logging".to_string()));
    let state = LoggingState::new();
    let plan = init_with(&options, read, &store(""), &state, None, 0).expect("defaults");
    assert!(plan.console.is_some());
    assert!(plan.json.is_none() && plan.file.is_none() && plan.syslog.is_none());
    assert!(plan.app_insights.is_none());
    assert_eq!(plan.filter.directives(), "info");
    assert!(optional_settings(Err(config::Error::NotFound("x".to_string()))).unwrap().is_none());
}

#[test]
fn init_reads_config_builds_logging_and_returns_both_halves() {
    let store = store("[database]\nhost = \"db.internal\"\n[logging]\nlevel = \"info\"\n");
    let settings = Settings::default().with_level("info").with_file(FileSettings {
        directory: "/tmp/logs".into(),
        format: "text".into(),
        ..Default::default()
    });
    let options = Options::new("bootstrap-test");
    let mut state = LoggingState::new();
    let plan = init_with(&options, Ok(settings), &store, &state, Some("trace"), 0)
        .expect("init succeeds on a valid config");
    assert_eq!(plan.filter.directives(), "info");
    assert_eq!(plan.file.as_ref().unwrap().writer.directory, "/tmp/logs");
    let handle = installed(&mut state, plan.handle(), Ok(())).expect("installed");
    let boot = Bootstrap::new(store, handle);
    assert_eq!(boot.config.get_str("database.host").as_deref(), Some("db.internal"));
    assert!(boot.logging.file.is_some());
}

#[test]
fn rust_log_from_the_store_drives_the_filter_when_no_level_is_set() {
    let store = store("rust_log = \"warn\"\n");
    let builder = apply_store_level(builder(), &Some(Settings::default()), &store).expect("parses");
    assert_eq!(builder.filter.unwrap().directives(), "warn");

    let explicit = Some(Settings::default().with_level("debug"));
    let base = logging_builder(&explicit, &store).expect("a valid level");
    let builder = apply_store_level(base, &explicit, &store).expect("unchanged");
    assert_eq!(builder.filter.unwrap().directives(), "debug");
}

#[test]
fn an_invalid_rust_log_in_the_store_is_a_startup_error() {
    let store = store("rust_log = \"not[a]filter\"\n");
    let options = Options::new("bad-rust-log-test");
    let read = Err(config::Error::NotFound("logging".to_string()));
    match configure(&options, read, &store) {
        Err(e) => assert!(e.message().contains("rust_log"), "got: {e:?}"),
        Ok(_) => panic!("an unparseable rust_log must be a startup error"),
    }
    match with_store_level(builder(), Some(Err("bad".to_string()))) {
        Err(InitError::Logging(Error::InvalidSettings(message))) => {
            assert_eq!(message, "rust_log: bad")
        }
        other => panic!("got {other:?}"),
    }
}

#[test]
fn a_connection_string_in_the_store_turns_the_exporter_on() {
    let found = store("applicationinsights_connection_string = \"InstrumentationKey=abc\"\n");
    let builder_on = auto_app_insights(builder(), &None, &found, "svc");
    let export = builder_on.app_insights.expect("on");
    assert_eq!(export.connection_string, "InstrumentationKey=abc");
    assert_eq!(export.service_name, "svc");
    assert!(auto_app_insights(builder(), &None, &store(""), "svc").app_insights.is_none());

    let mut claimed = Settings::default();
    claimed.app_insights = Some(AppInsightsSettings {
        service_name: "other".to_string(),
        sample_rate: rate(1.0),
        connection_string_key: "k".to_string(),
    });
    let untouched = auto_app_insights(builder(), &Some(claimed), &found, "svc");
    assert!(untouched.app_insights.is_none());
}

#[test]
fn init_errors_read_as_sentences() {
    assert_eq!(
        InitError::Config(config::Error::Other("x".to_string())).message(),
        "could not load configuration: x"
    );
    assert_eq!(
        InitError::Logging(Error::AlreadyInitialized).message(),
        "could not initialize logging: logging is already initialized"
    );
}

//! The rules of the logging half: sampling, rate limits, gates, rolling, retention,
//! masking, syslog frames, counters.

use std::cell::Cell;
use std::rc::Rc;

use stratify::logging::appinsights::{
    provider, providers, AppInsightsConfig, ExporterReply, CONNECTION_STRING_VAR,
};
use stratify::logging::file::{cleanup_old_files, LogEntry};
use stratify::logging::flush::FlushCounters;
use stratify::logging::gate::{layer_for, Ambient, EventGate, GateLayer, Metadata};
use stratify::logging::level::{Level, LevelFilter};
use stratify::logging::line::WithGlobals;
use stratify::logging::rate_limit::{RateLimit, RateLimiter};
use stratify::logging::sampling::{
    process_nonce, seed_for_new_thread, splitmix64, thread_random, Rate, SampleConfig, Sampler,
};
use stratify::logging::size_rolling::{
    compress_in_place, gzip_file, remove_after_gzip, GzipOutcome, RollAction, SizeRollingWriter, Slot,
    WriteError, WriteOutcome, WriteStep,
};
use stratify::logging::span::{finish_line, panic_message};
use stratify::logging::syslog::{severity, Facility, SyslogConfig, SyslogWriter};
use stratify::logging::timestamp::format_time;
use stratify::logging::{DroppedLines, Error, QueueDepth, SpanInfo, SpanScope, TimestampFormat};

const SECOND: u64 = 1_000_000_000;

fn rate(value: f64) -> Rate {
    Rate::from_bits(value.to_bits())
}

fn value_of(rate: Rate) -> f64 {
    f64::from_bits(rate.bits)
}

fn event(level: Level) -> Metadata {
    Metadata { level, is_event: true }
}

// ── Gates ──

/// A gate that records how often it was asked and answers from a script.
struct ScriptedGate {
    verdict: bool,
    calls: Rc<Cell<usize>>,
}

impl EventGate for ScriptedGate {
    fn answers(self, _: Metadata, _: Ambient, _: bool, _: Self, _: Ambient) -> bool {
        true
    }

    fn allows(&mut self, _meta: &Metadata, _around: &mut Ambient) -> bool {
        self.calls.set(self.calls.get() + 1);
        self.verdict
    }
}

fn scripted(verdict: bool) -> (ScriptedGate, Rc<Cell<usize>>) {
    let calls = Rc::new(Cell::new(0));
    (ScriptedGate { verdict, calls: Rc::clone(&calls) }, calls)
}

fn around() -> Ambient {
    Ambient { now: 0, generator: 1 }
}

#[test]
fn new_returns_none_without_gates() {
    let layer: Option<GateLayer<ScriptedGate>> = GateLayer::new(Vec::new());
    assert!(layer.is_none());
}

#[test]
fn new_returns_a_layer_when_gates_are_present() {
    let (gate, _) = scripted(true);
    let layer = GateLayer::new(vec![gate]);
    assert!(layer.is_some());
}

#[test]
fn a_vetoing_gate_short_circuits_the_rest_of_the_chain() {
    let (deny, deny_calls) = scripted(false);
    let (allow, allow_calls) = scripted(true);
    let mut layer = GateLayer::new(vec![deny, allow]).expect("two gates");
    assert!(!layer.enabled(&event(Level::Error), &mut around()));
    assert_eq!(deny_calls.get(), 1);
    assert_eq!(allow_calls.get(), 0, "a gate after a veto must not be consulted");
}

#[test]
fn every_event_re_consults_the_gates() {
    let (gate, calls) = scripted(true);
    let mut layer = GateLayer::new(vec![gate]).expect("one gate");
    for _ in 0..5 {
        layer.enabled(&event(Level::Error), &mut around());
    }
    assert_eq!(
        calls.get(),
        5,
        "the verdict was cached instead of re-evaluated"
    );
}

#[test]
fn spans_bypass_the_gates() {
    let (deny, calls) = scripted(false);
    let mut layer = GateLayer::new(vec![deny]).expect("one gate");
    let span = Metadata { level: Level::Info, is_event: false };
    assert!(
        layer.enabled(&span, &mut around()),
        "a vetoing gate must not disable spans"
    );
    assert_eq!(calls.get(), 0);
}

#[test]
fn rate_limit_drops_events_beyond_the_configured_budget() {
    let budget: usize = 5;
    let mut layer = layer_for(None, Some(RateLimit::per_minute(5)), 0).expect("a gate");
    let passed = (0..200u64)
        .filter(|i| {
            let mut around = Ambient { now: i * 1_000, generator: 1 };
            layer.enabled(&event(Level::Info), &mut around)
        })
        .count();
    assert_eq!(passed, budget);
}

#[test]
fn sampling_rate_zero_lets_nothing_reach_the_sink() {
    let mut layer = layer_for(Some(SampleConfig::new(rate(0.0))), None, 0).expect("a gate");
    let mut around = around();
    assert!((0..200).all(|_| !layer.enabled(&event(Level::Info), &mut around)));
}

#[test]
fn sampling_rate_one_lets_everything_reach_the_sink() {
    let mut layer = layer_for(Some(SampleConfig::new(rate(1.0))), None, 0).expect("a gate");
    let mut around = around();
    assert!((0..200).all(|_| layer.enabled(&event(Level::Info), &mut around)));
}

#[test]
fn sampling_runs_before_rate_limiting() {
    let sampling = SampleConfig::default().with_min_level(LevelFilter::Error);
    let mut layer = layer_for(Some(sampling), Some(RateLimit::per_minute(1)), 0).expect("gates");
    let mut around = around();
    for _ in 0..200 {
        assert!(!layer.enabled(&event(Level::Info), &mut around));
    }
    assert!(
        layer.enabled(&event(Level::Error), &mut around),
        "what the sampler dropped must not have spent the token"
    );
    assert!(!layer.enabled(&event(Level::Error), &mut around));
}

#[test]
fn gating_does_not_suppress_spans() {
    let mut layer = layer_for(None, Some(RateLimit::per_minute(1)), 0).expect("a gate");
    let mut around = around();
    let span = Metadata { level: Level::Info, is_event: false };
    let mut events = 0;
    for _ in 0..10 {
        assert!(layer.enabled(&span, &mut around));
        if layer.enabled(&event(Level::Info), &mut around) {
            events += 1;
        }
    }
    assert_eq!(events, 1);
}

#[test]
fn no_gates_are_configured_without_sampling_and_rate_limit() {
    assert!(layer_for(None, None, 0).is_none());
}

// ── Rate limit ──

#[test]
fn per_second_defaults() {
    let rl = RateLimit::per_second(10);
    assert_eq!(rl.max_events, 10);
    assert_eq!(rl.per_secs, 1);
}

#[test]
fn per_minute_defaults() {
    let rl = RateLimit::per_minute(60);
    assert_eq!(rl.max_events, 60);
    assert_eq!(rl.per_secs, 60);
}

#[test]
fn rate_limit_is_fully_configurable_from_an_external_crate() {
    let custom = RateLimit::new(250, 15);
    assert_eq!(custom.max_events, 250);
    assert_eq!(custom.per_secs, 15);
    assert_eq!(RateLimit::per_second(10).per_secs, 1);
    assert_eq!(RateLimit::per_minute(10).per_secs, 60);
}

#[test]
fn allows_events_up_to_limit() {
    let mut limiter = RateLimiter::new(RateLimit::per_second(5), 0);
    for _ in 0..5 {
        assert!(limiter.allow(0), "first 5 events should be allowed");
    }
}

#[test]
fn throttles_after_limit() {
    let mut limiter = RateLimiter::new(RateLimit::per_second(3), 0);
    for _ in 0..3 {
        assert!(limiter.allow(0));
    }
    assert!(!limiter.allow(0), "4th event should be throttled");
}

#[test]
fn refills_over_time() {
    let mut limiter = RateLimiter::new(RateLimit::per_second(100), 0);
    for _ in 0..100 {
        assert!(limiter.allow(0));
    }
    assert!(!limiter.allow(0));
    let later = 150_000_000;
    for _ in 0..10 {
        assert!(limiter.allow(later), "should refill ~10 tokens after 150ms");
    }
    for _ in 0..5 {
        assert!(limiter.allow(later), "150ms at 100 a second is 15 tokens");
    }
    assert!(!limiter.allow(later));
}

#[test]
fn token_cap_respected() {
    let mut limiter = RateLimiter::new(RateLimit::per_second(5), 0);
    let mut allowed = 0;
    while limiter.allow(2 * SECOND) {
        allowed += 1;
    }
    assert_eq!(allowed, 5, "token bucket should cap at max_events");
}

#[test]
fn a_fraction_of_a_token_is_kept_until_it_is_whole() {
    let mut limiter = RateLimiter::new(RateLimit::new(1, 3), 0);
    assert!(limiter.allow(0));
    assert!(!limiter.allow(SECOND));
    assert!(!limiter.allow(2 * SECOND));
    assert!(limiter.allow(3 * SECOND));
    assert!(!limiter.allow(3 * SECOND));
}

#[test]
fn over_any_stretch_no_more_pass_than_the_burst_and_the_refill() {
    let mut limiter = RateLimiter::new(RateLimit::per_second(10), 0);
    let passed = (0..1000u64).filter(|i| limiter.allow(i * 5_000_000)).count();
    assert!(passed <= 10 + 50, "{passed} events in five seconds");
    assert!(passed >= 50);
}

// ── Sampling ──

fn levels_passing(config: SampleConfig) -> Vec<Level> {
    let sampler = Sampler::new(config);
    let mut state: u64 = 42;
    [Level::Error, Level::Warn, Level::Info, Level::Debug, Level::Trace]
        .into_iter()
        .filter(|level| sampler.should_sample(*level, &mut state))
        .collect()
}

fn config_at(min_level: LevelFilter) -> SampleConfig {
    SampleConfig::new(rate(1.0)).with_min_level(min_level)
}

#[test]
fn should_sample_min_level_debug_keeps_debug_and_above_and_drops_trace() {
    assert_eq!(
        levels_passing(config_at(LevelFilter::Debug)),
        vec![Level::Error, Level::Warn, Level::Info, Level::Debug],
        "min_level = DEBUG must keep ERROR/WARN/INFO/DEBUG and drop TRACE"
    );
}

#[test]
fn should_sample_min_level_warn_keeps_only_error_and_warn() {
    assert_eq!(
        levels_passing(config_at(LevelFilter::Warn)),
        vec![Level::Error, Level::Warn]
    );
}

#[test]
fn should_sample_min_level_trace_keeps_every_level() {
    assert_eq!(
        levels_passing(config_at(LevelFilter::Trace)),
        vec![Level::Error, Level::Warn, Level::Info, Level::Debug, Level::Trace]
    );
}

#[test]
fn should_sample_min_level_off_drops_every_level() {
    assert!(
        levels_passing(config_at(LevelFilter::Off)).is_empty(),
        "min_level = OFF must drop everything"
    );
}

#[test]
fn should_sample_rate_zero_drops_events_the_level_filter_would_admit() {
    let config = SampleConfig::new(rate(0.0)).with_min_level(LevelFilter::Trace);
    assert!(levels_passing(config).is_empty(), "rate 0.0 must drop everything");
}

#[test]
fn default_config_logs_everything() {
    let cfg = SampleConfig::default();
    assert_eq!(value_of(cfg.rate), 1.0);
    assert_eq!(cfg.min_level, LevelFilter::Trace);
}

#[test]
fn sample_config_is_fully_configurable_from_an_external_crate() {
    let config = SampleConfig::new(rate(0.25)).with_min_level(LevelFilter::Debug);
    assert_eq!(value_of(config.rate), 0.25);
    assert_eq!(config.min_level, LevelFilter::Debug);
    assert_eq!(value_of(SampleConfig::default().with_rate(rate(0.5)).rate), 0.5);
}

#[test]
fn sample_config_clamps_an_out_of_range_rate() {
    let too_high = SampleConfig::new(rate(7.5));
    let too_low = SampleConfig::default().with_rate(rate(-2.0));
    assert_eq!(value_of(too_high.rate), 1.0);
    assert_eq!(value_of(too_low.rate), 0.0);
}

#[test]
fn clamping_agrees_with_the_floating_point_operation() {
    for value in [-1.0, -0.0, 0.0, 1e-310, 0.3, 1.0, 1.5, f64::INFINITY, f64::NEG_INFINITY] {
        let expected: f64 = value;
        assert_eq!(
            SampleConfig::new(rate(value)).rate.bits,
            expected.clamp(0.0, 1.0).to_bits(),
            "clamping {value}"
        );
    }
}

#[test]
fn sampler_clone_is_independent() {
    let s1 = Sampler::new(SampleConfig::default());
    let s2 = s1.clone();
    assert_eq!(value_of(s1.config().rate), 1.0);
    assert_eq!(value_of(s2.config().rate), 1.0);
}

#[test]
fn thread_random_in_range() {
    let mut state = seed_for_new_thread(7, 0);
    for _ in 0..1000 {
        let r = f64::from(thread_random(&mut state)) / 4_294_967_296.0;
        assert!((0.0..1.0).contains(&r), "got {r}");
    }
}

#[test]
fn thread_random_approximates_uniform() {
    let mut state = seed_for_new_thread(7, 0);
    let mut buckets = [0u32; 10];
    for _ in 0..10_000 {
        let r = f64::from(thread_random(&mut state)) / 4_294_967_296.0;
        let bucket = (r * 10.0) as usize;
        buckets[bucket.min(9)] += 1;
    }
    for &count in &buckets {
        assert!(count > 700, "bucket underflow: {count}");
        assert!(count < 1300, "bucket overflow: {count}");
    }
}

#[test]
fn the_first_draw_is_the_top_of_the_next_state() {
    let mut state: u64 = 0;
    let draw = thread_random(&mut state);
    assert_eq!(state, 1_442_695_040_888_963_407);
    assert_eq!(u64::from(draw), 1_442_695_040_888_963_407 >> 32);
}

#[test]
fn no_state_comes_up_twice_in_many_draws() {
    let mut state: u64 = 12_345;
    let mut states = Vec::new();
    for _ in 0..100_000 {
        states.push(state);
        thread_random(&mut state);
    }
    states.sort_unstable();
    states.dedup();
    assert_eq!(states.len(), 100_000);
}

#[test]
fn a_higher_rate_keeps_whatever_a_lower_one_keeps() {
    let low = Sampler::new(SampleConfig::new(rate(0.2)));
    let high = Sampler::new(SampleConfig::new(rate(0.6)));
    let mut a: u64 = 99;
    let mut b: u64 = 99;
    let mut kept = 0;
    for _ in 0..1000 {
        let in_low = low.should_sample(Level::Info, &mut a);
        let in_high = high.should_sample(Level::Info, &mut b);
        assert!(!in_low || in_high);
        kept += usize::from(in_low);
    }
    assert!((100..300).contains(&kept), "{kept} of a thousand at one in five");
}

#[test]
fn separate_threads_draw_different_sequences() {
    let nonce = process_nonce(Some(1_700_000_000_000_000_000), 0x7fff_0000);
    let sequence = |ordinal: u64| -> Vec<u32> {
        let mut state = seed_for_new_thread(nonce, ordinal);
        (0..32).map(|_| thread_random(&mut state)).collect()
    };
    assert_ne!(
        sequence(0),
        sequence(1),
        "threads sharing a seed correlate their sampling decisions"
    );
}

#[test]
fn every_thread_seed_is_distinct() {
    let nonce = process_nonce(None, 0x7fff_0000);
    let mut seeds: Vec<u64> = (0..8).map(|ordinal| seed_for_new_thread(nonce, ordinal)).collect();
    let drawn = seeds.len();
    seeds.sort_unstable();
    seeds.dedup();
    assert_eq!(seeds.len(), drawn, "thread seeds collided");
}

#[test]
fn splitmix64_avalanches_adjacent_inputs() {
    let (low, high) = (splitmix64(0), splitmix64(1));
    let differing_bits = (low ^ high).count_ones();
    assert!(
        (16..=48).contains(&differing_bits),
        "adjacent seeds differ in only {differing_bits} bits"
    );
}

// ── Size rolling ──

/// The files of a rolling log, in memory.
struct Disk {
    active: Option<Vec<u8>>,
    plain: Vec<Option<Vec<u8>>>,
    gzip: Vec<Option<Vec<u8>>>,
}

impl Disk {
    fn new(slots: usize) -> Disk {
        Disk { active: Some(Vec::new()), plain: vec![None; slots + 2], gzip: vec![None; slots + 2] }
    }

    fn slots(&self, count: usize) -> Vec<Slot> {
        (1..=count)
            .map(|i| Slot { plain: self.plain[i].is_some(), gzip: self.gzip[i].is_some() })
            .collect()
    }

    fn perform(&mut self, action: &RollAction) {
        match *action {
            RollAction::RemoveActive => self.active = None,
            RollAction::Remove { index, gzip } => {
                if gzip {
                    self.gzip[index] = None;
                } else {
                    self.plain[index] = None;
                }
            }
            RollAction::Shift { index, gzip } => {
                if gzip {
                    self.gzip[index + 1] = self.gzip[index].take();
                } else {
                    self.plain[index + 1] = self.plain[index].take();
                }
            }
            RollAction::Retire => self.plain[1] = self.active.take(),
            RollAction::Compress => {
                let contents = self.plain[1].clone();
                if let Some(file) = compress_in_place("app.log.1", contents) {
                    self.gzip[1] = Some(file.bytes);
                    if remove_after_gzip("app.log.1", GzipOutcome::Written).as_deref()
                        == Some("app.log.1")
                    {
                        self.plain[1] = None;
                    }
                }
            }
        }
    }

    fn count(&self) -> usize {
        usize::from(self.active.is_some())
            + self.plain.iter().filter(|f| f.is_some()).count()
            + self.gzip.iter().filter(|f| f.is_some()).count()
    }
}

fn write_lines(max_bytes: u64, keep: usize, compress: bool, lines: &[&[u8]]) -> (Disk, SizeRollingWriter) {
    let mut disk = Disk::new(keep);
    let mut writer = SizeRollingWriter::new("app.log", max_bytes, keep, compress, 0);
    for line in lines {
        let len = line.len() as u64;
        let slots = disk.slots(keep);
        let (size, disk) = (writer.written(), &mut disk);
        let written = writer.write(len, || slots, |plan| -> WriteOutcome<()> {
            let rolls = size > 0 && max_bytes > 0 && size + len > max_bytes;
            assert_eq!(plan.is_some(), rolls);
            if let Some(actions) = plan {
                for action in &actions {
                    disk.perform(action);
                }
                disk.active = Some(Vec::new());
            }
            disk.active.as_mut().expect("open").extend_from_slice(line);
            WriteOutcome::Written(len)
        });
        assert!(matches!(written, Ok(count) if count == len));
        assert!(max_bytes == 0 || writer.written() <= max_bytes.max(len));
        assert_eq!(disk.active.as_ref().map(Vec::len), Some(writer.written() as usize));
    }
    (disk, writer)
}

#[test]
fn rolls_once_the_size_is_exceeded() {
    let (disk, writer) = write_lines(32, 3, false, &[b"0123456789\n".as_slice(); 8]);
    assert!(disk.active.is_some(), "active file must exist");
    assert!(disk.plain[1].is_some(), "a retired file must exist");
    assert_eq!(writer.active_path(), "app.log");
    assert_eq!(writer.retired_path(1), "app.log.1");
}

#[test]
fn never_exceeds_the_retained_file_count() {
    let (disk, _) = write_lines(16, 2, false, &[b"0123456789\n".as_slice(); 40]);
    assert!(disk.plain[3].is_none(), "retention cap exceeded");
    let count = disk.count();
    assert!(count <= 3, "{count} files on disk, expected at most 3");
}

#[test]
fn a_line_is_never_split_across_two_files() {
    let (disk, _) = write_lines(20, 3, false, &[b"first-line-here\n", b"second-line-here\n"]);
    for body in disk.plain.iter().flatten().chain(disk.active.iter()) {
        if !body.is_empty() {
            assert!(body.ends_with(b"\n"), "split line in {body:?}");
        }
    }
}

#[test]
fn an_existing_file_keeps_its_length_across_a_restart() {
    let (disk, _) = write_lines(64, 2, false, &[b"0123456789\n"]);
    let existing = disk.active.expect("written").len() as u64;
    let writer = SizeRollingWriter::new("app.log", 64, 2, false, existing);
    assert_eq!(writer.written(), 11);
}

#[test]
fn zero_retained_files_truncates_rather_than_retiring() {
    let (disk, _) = write_lines(16, 0, false, &[b"0123456789\n".as_slice(); 10]);
    assert!(disk.plain[1].is_none(), "nothing should be retired");
    assert!(disk.active.is_some());
}

#[test]
fn gzipped_files_count_and_shift_like_plain_ones() {
    let (disk, _) = write_lines(16, 2, true, &[b"0123456789\n".as_slice(); 6]);
    assert!(disk.gzip[1].is_some() && disk.gzip[2].is_some());
    assert!(disk.gzip[3].is_none() && disk.plain.iter().all(|f| f.is_none()));
    assert_eq!(disk.count(), 3);
}

#[test]
fn a_line_longer_than_the_limit_goes_into_a_file_of_its_own() {
    let writer = SizeRollingWriter::new("app.log", 4, 2, false, 0);
    assert_eq!(writer.before_write(100), WriteStep::Write);
    let full = SizeRollingWriter::new("app.log", 4, 2, false, 1);
    assert_eq!(full.before_write(100), WriteStep::Roll);
    let unlimited = SizeRollingWriter::new("app.log", 0, 2, false, 1);
    assert_eq!(unlimited.before_write(100), WriteStep::Write);
}

#[test]
fn a_writer_without_a_file_cannot_write() {
    let mut writer = SizeRollingWriter::new("app.log", 100, 0, false, 0);
    writer.roll(&vec![]);
    assert_eq!(writer.before_write(10), WriteStep::NotOpen);
}

#[test]
fn a_write_that_fails_leaves_the_writer_as_the_files_are() {
    let mut writer = SizeRollingWriter::new("app.log", 10, 1, false, 8);
    let slots = || vec![Slot { plain: false, gzip: false }];

    let written = writer.write(1, slots, |plan| {
        assert!(plan.is_none(), "nine bytes are within the limit");
        WriteOutcome::NotWritten("full")
    });
    assert!(matches!(written, Err(WriteError::Io("full"))));
    assert_eq!(writer.written(), 8);

    let written = writer.write(5, slots, |plan| {
        assert_eq!(plan, Some(vec![RollAction::Retire]));
        WriteOutcome::NotWritten("full")
    });
    assert!(matches!(written, Err(WriteError::Io("full"))));
    assert_eq!(writer.written(), 0, "the roll went through");

    assert!(matches!(writer.write(9, slots, |_| WriteOutcome::<()>::Written(9)), Ok(9)));
    let written = writer.write(5, slots, |_| WriteOutcome::NotOpened("gone"));
    assert!(matches!(written, Err(WriteError::Io("gone"))));
    assert_eq!(writer.before_write(1), WriteStep::NotOpen);
    let written = writer.write(1, slots, |_| WriteOutcome::<()>::Written(1));
    assert!(matches!(written, Err(WriteError::NotOpen)));
}

#[test]
fn gzipping_gives_a_stream_that_unzips_to_the_file() {
    let contents = b"a line\n".repeat(100);
    let file = compress_in_place("app.log.1", Some(contents.clone())).expect("gzips");
    assert_eq!(file.path, "app.log.1.gz");
    assert_eq!(&file.bytes[..2], [0x1f, 0x8b]);
    let mut back = Vec::new();
    let mut decoder = flate2::read::GzDecoder::new(file.bytes.as_slice());
    std::io::Read::read_to_end(&mut decoder, &mut back).expect("a gzip stream");
    assert_eq!(back, contents);
    assert!(compress_in_place("app.log.1", None).is_none());
    assert!(gzip_file("app.log.1", Err("full".to_string())).is_none());
}

#[test]
fn a_file_is_removed_only_once_its_gzipped_form_holds_it() {
    assert_eq!(remove_after_gzip("a", GzipOutcome::Written).as_deref(), Some("a"));
    assert_eq!(remove_after_gzip("a", GzipOutcome::Failed).as_deref(), Some("a.gz"));
    assert_eq!(remove_after_gzip("a", GzipOutcome::NotCreated), None);
}

// ── Retention ──

fn entry(name: &str, secs: i128) -> LogEntry {
    LogEntry { name: Some(name.to_string()), modified: Some(secs * 1_000_000_000) }
}

const NOW: u128 = 1_767_225_600 * 1_000_000_000;

#[test]
fn cleanup_ignores_missing_directory() {
    assert!(cleanup_old_files(&vec![], "app.log", NOW, 30).is_empty());
}

#[test]
fn cleanup_removes_old_files() {
    let entries = vec![entry("app.log.2020-01-01", 1_577_836_800)];
    assert_eq!(cleanup_old_files(&entries, "app.log", NOW, 30), [0]);
}

#[test]
fn cleanup_preserves_recent_files() {
    let entries = vec![entry("app.log.2026-06-01", 1_767_225_600)];
    assert!(cleanup_old_files(&entries, "app.log", NOW, 30).is_empty());
}

#[test]
fn cleanup_ignores_unrelated_files() {
    let entries = vec![
        entry("other.log.2020-01-01", 1_577_836_800),
        LogEntry { name: None, modified: Some(0) },
        LogEntry { name: Some("app.log.x".to_string()), modified: None },
    ];
    assert!(cleanup_old_files(&entries, "app.log", NOW, 30).is_empty());
}

#[test]
fn a_file_exactly_as_old_as_the_limit_is_kept() {
    let limit = 1_767_225_600 - 30 * 86_400;
    let entries = vec![entry("app.log.a", limit - 1), entry("app.log.b", limit)];
    assert_eq!(cleanup_old_files(&entries, "app.log", NOW, 30), [0]);
    assert!(cleanup_old_files(&entries, "app.log", NOW, 31).is_empty());
}

#[test]
fn an_age_may_reach_back_beyond_the_epoch() {
    let now = 100 * 1_000_000_000;
    let entries = vec![entry("app.log.a", -86_300), entry("app.log.b", -86_301)];
    assert_eq!(cleanup_old_files(&entries, "app.log", now, 1), [1]);
    assert!(cleanup_old_files(&entries, "app.log", now, 2).is_empty());
}

// ── Syslog ──

#[test]
fn priority_combines_facility_and_severity() {
    let config = SyslogConfig::new("svc").with_facility(Facility::Local3);
    let writer = SyslogWriter::connect(&config, Level::Error);
    let framed = writer.frame("boom", 1);
    assert!(framed.starts_with("<155>"), "got: {framed}");
}

#[test]
fn the_frame_carries_the_tag_and_pid() {
    let config = SyslogConfig::new("nse-api");
    let writer = SyslogWriter::connect(&config, Level::Info);
    let framed = writer.frame("hello", 4321);
    assert!(framed.contains("nse-api["), "got: {framed}");
    assert!(framed.contains("[4321]"), "got: {framed}");
    assert!(framed.ends_with(": hello"), "got: {framed}");
    assert_eq!(framed, "<14>nse-api[4321]: hello");
}

#[test]
fn every_level_maps_to_a_syslog_severity() {
    assert_eq!(severity(&Level::Error), 3);
    assert_eq!(severity(&Level::Warn), 4);
    assert_eq!(severity(&Level::Info), 6);
    assert_eq!(severity(&Level::Debug), 7);
    assert_eq!(severity(&Level::Trace), 7);
}

#[test]
fn a_missing_socket_is_not_an_error() {
    let config = SyslogConfig::new("svc");
    let writer = SyslogWriter::connect(&config, Level::Info);
    let result = writer.write(b"still fine\n", 7);
    assert_eq!(result.consumed, 11);
    assert_eq!(result.datagram.as_deref(), Some("<14>svc[7]: still fine"));
}

#[test]
fn an_empty_line_is_not_sent() {
    let config = SyslogConfig::new("svc");
    let writer = SyslogWriter::connect(&config, Level::Info);
    let written = writer.write(b"   \n", 7);
    assert_eq!(written.consumed, 4);
    assert!(written.datagram.is_none());
}

#[test]
fn bytes_that_are_no_text_are_replaced_in_the_datagram() {
    let config = SyslogConfig::new("svc");
    let writer = SyslogWriter::connect(&config, Level::Debug);
    let written = writer.write(b"a\xffb\n", 7);
    assert_eq!(written.consumed, 4);
    assert_eq!(written.datagram.as_deref(), Some("<15>svc[7]: a\u{fffd}b"));
}

#[test]
fn the_default_facility_is_user() {
    assert_eq!(Facility::default(), Facility::User);
    assert_eq!(Facility::User.code(), 1);
}

// ── Lines ──

fn line(prefix: &str, redact: &[&str]) -> WithGlobals {
    WithGlobals {
        prefix: prefix.to_string(),
        redact: redact.iter().map(|k| k.to_string()).collect(),
    }
}

#[test]
fn redaction_masks_configured_field_values() {
    let body = line("", &["password", "token"])
        .format_event("INFO login attempt password=\"hunter2\" user=\"alice\"\n");
    assert!(!body.contains("hunter2"), "the secret survived: {body}");
    assert!(body.contains("password=[redacted]"), "got: {body}");
    assert!(
        body.contains("user=\"alice\""),
        "unrelated fields must survive: {body}"
    );
}

#[test]
fn a_quoted_value_is_masked_through_its_closing_quote() {
    let body = line("", &["authorization"]).mask("request Authorization=\"Bearer abc123\" ok");
    assert!(!body.contains("abc123"), "the secret survived: {body}");
    assert!(body.ends_with(" ok"), "got: {body}");
}

#[test]
fn without_redaction_values_are_untouched() {
    let body = line("", &[]).format_event("event body password=1");
    assert_eq!(body, "event body password=1");
}

#[test]
fn without_global_fields_there_is_no_leading_space() {
    assert!(!line("", &[]).format_event("event body").starts_with(' '));
    assert_eq!(line("a=1", &[]).format_event("event body"), "a=1 event body");
}

#[test]
fn every_occurrence_is_masked_and_the_prefix_never_is() {
    let body = line("token=keep", &["token"]).format_event("token=a x token=b");
    assert_eq!(body, "token=keep token=[redacted] x token=[redacted]");
}

#[test]
fn no_value_stands_behind_a_configured_name() {
    let body = line("", &["password", "token"])
        .mask("TOKEN=\"a b\" mytoken=c password=token=d Password= token=\"open e");
    assert_eq!(
        body,
        "TOKEN=[redacted] mytoken=[redacted] password=[redacted] Password=[redacted] token=[redacted]"
    );
}

#[test]
fn a_field_is_masked_though_its_name_overlaps_itself() {
    let body = line("", &["secrets", "aa"]).mask("secrets=x SECRETS=\"y z\" aa=1 aaa=2");
    assert_eq!(body, "secrets=[redacted] SECRETS=[redacted] aa=[redacted] aaa=2");
}

#[test]
fn the_masked_line_does_not_depend_on_the_value() {
    let masked = |value: &str| {
        line("", &["token", "password", "key"])
            .mask(&format!("say=\"open key=\" Password={value} token=1 done"))
    };
    let expected = "say=\"open key=[redacted]";
    assert!(masked("hunter2").starts_with(expected), "got: {}", masked("hunter2"));
    for value in ["x", "", "token=7", "password=password", "[redacted]", "a=b=c"] {
        assert_eq!(masked(value), masked("hunter2"));
    }
}

#[test]
fn the_masked_line_does_not_depend_on_a_quoted_value() {
    let masked = |value: &str| {
        line("", &["token", "password"])
            .mask(&format!("INFO user=\"alice\" token=\"t 1\" Password={value} ok=\"x\""))
    };
    let expected = "INFO user=\"alice\" token=[redacted] Password=[redacted] ok=\"x\"";
    for value in ["\"hunter2\"", "\"a b c\"", "\"\"", "\"password=1 b\"", "bare"] {
        assert_eq!(masked(value), expected);
    }
}

#[test]
fn masking_leaves_text_that_widens_in_lower_case_in_place() {
    let body = line("", &["key"]).mask("İİ key=secret İ");
    assert_eq!(body, "İİ key=[redacted] İ");
}

#[test]
fn a_formatter_receives_the_enclosing_span_scope() {
    let span = |name: &str| SpanInfo {
        name: name.to_string(),
        target: "test".to_string(),
        fields: String::new(),
    };
    let scope = SpanScope::new(vec![span("outer"), span("inner")]);
    let names: Vec<&str> = scope.spans().iter().map(|s| s.name.as_str()).collect();
    assert_eq!(names.join(">"), "outer>inner");
    assert_eq!(scope.current().map(|s| s.name.as_str()), Some("inner"));
    assert!(!scope.is_empty());
}

#[test]
fn a_formatter_outside_any_span_gets_an_empty_scope() {
    let scope = SpanScope::default();
    assert!(scope.spans().is_empty());
    assert!(scope.current().is_none());
    assert!(scope.is_empty());
}

#[test]
fn a_rendered_line_ends_with_a_newline() {
    assert_eq!(finish_line(Some("|INFO|".to_string())).as_deref(), Some("|INFO|\n"));
    assert_eq!(finish_line(None), None);
}

#[test]
fn a_panic_says_what_it_was_given() {
    assert_eq!(panic_message(Some("literal"), None), "literal");
    assert_eq!(panic_message(None, Some("owned")), "owned");
    assert_eq!(panic_message(None, None), "panic with a non-string payload");
}

#[test]
fn timestamps_can_be_omitted() {
    let moment: i128 = 1_577_836_800 * 1_000_000_000;
    assert_eq!(format_time(TimestampFormat::Omitted, moment, None).as_deref(), Some(""));
    assert_eq!(
        format_time(TimestampFormat::Utc, moment, Some(3600)).as_deref(),
        Some("2020-01-01T00:00:00Z")
    );
    assert_eq!(
        format_time(TimestampFormat::Local, moment, Some(3600)).as_deref(),
        Some("2020-01-01T01:00:00+01:00")
    );
    assert_eq!(
        format_time(TimestampFormat::Local, moment, None).as_deref(),
        Some("2020-01-01T00:00:00Z")
    );
}

// ── Counters ──

#[test]
fn dropped_lines_start_at_zero_and_are_reportable() {
    let dropped = DroppedLines::default();
    assert_eq!(dropped.total(), 0);
    assert!(!dropped.any());
    let some = DroppedLines { console: 1, json: 2, file: 4 };
    assert_eq!(some.total(), 7);
    assert!(some.any());
}

#[test]
fn queue_depth_is_reportable_and_drains_to_zero() {
    let drained = FlushCounters { submitted: 50, written: 50, live_drops: 0, retired_drops: 0 };
    let depth = QueueDepth { console: drained.queue_depth(), json: 0, file: 0 };
    assert_eq!(depth.total(), 0, "a drained queue must be empty");
    assert_eq!(depth.max(), 0);
    let busy = FlushCounters { submitted: 50, written: 40, live_drops: 2, retired_drops: 3 };
    assert_eq!(busy.queue_depth(), 5);
    let raced = FlushCounters { submitted: 1, written: 2, live_drops: 0, retired_drops: 0 };
    assert_eq!(raced.queue_depth(), 0);
}

#[test]
fn a_drain_carries_the_drops_of_the_retired_worker_forward() {
    let mut counters = FlushCounters { submitted: 9, written: 4, live_drops: 2, retired_drops: 3 };
    counters.drain();
    assert_eq!(counters.dropped_lines(), 5);
    assert_eq!(counters.live_drops, 0);
    assert_eq!(QueueDepth { console: 1, json: 5, file: 3 }.max(), 5);
}

#[test]
fn the_counts_start_at_zero() {
    assert_eq!(DroppedLines::default().total(), 0);
    assert_eq!(QueueDepth::default().total(), 0);
    assert!(!DroppedLines::default().any());
}

#[test]
fn a_queue_whose_lines_are_written_or_dropped_is_empty() {
    let mut counters = FlushCounters { submitted: 9, written: 4, live_drops: 2, retired_drops: 3 };
    assert_eq!(counters.queue_depth(), 0);
    counters.submitted += 3;
    assert_eq!(counters.queue_depth(), 3);
    counters.written += 3;
    counters.drain();
    assert_eq!(counters.queue_depth(), 0);
    assert_eq!(counters.dropped_lines(), 5);
}

// ── Application Insights ──

#[test]
fn from_lookup_reports_an_absent_variable() {
    let result = AppInsightsConfig::from_lookup("svc", |_: &str| None);
    assert!(matches!(result, Err(Error::AppInsights(_))));
}

#[test]
fn from_lookup_names_the_variable_in_the_error() {
    match AppInsightsConfig::from_lookup("svc", |_: &str| None) {
        Err(Error::AppInsights(message)) => {
            assert!(message.contains(CONNECTION_STRING_VAR), "got: {message}")
        }
        other => panic!("expected an app insights error, got {other:?}"),
    }
}

#[test]
fn from_lookup_reads_the_variable_azure_defines() {
    let seen = Cell::new(None);
    let lookup = |name: &str| {
        seen.set(Some(name.to_string()));
        Some("InstrumentationKey=abc".to_string())
    };
    let config = AppInsightsConfig::from_lookup("svc", lookup).expect("a value is present");
    assert_eq!(seen.take().as_deref(), Some(CONNECTION_STRING_VAR));
    assert_eq!(config.connection_string, "InstrumentationKey=abc");
    assert_eq!(config.service_name, "svc");
}

#[test]
fn from_lookup_is_an_error_when_the_variable_is_absent() {
    let result = AppInsightsConfig::from_lookup("svc", |_: &str| None);
    assert!(matches!(result, Err(Error::AppInsights(_))));
}

#[test]
fn from_lookup_builds_a_config_when_the_variable_is_present() {
    let present =
        |_: &str| Some("InstrumentationKey=00000000-0000-0000-0000-000000000000".to_string());
    let config = AppInsightsConfig::from_lookup("svc", present).expect("a value is present");
    assert_eq!(config.service_name, "svc");
}

#[test]
fn the_sample_rate_defaults_to_everything() {
    let config = AppInsightsConfig::new("cs", "svc");
    assert_eq!(value_of(config.sample_rate), 1.0);
}

#[test]
fn the_service_name_is_carried_on_the_config() {
    let config = AppInsightsConfig::new("cs", "nse-api");
    assert_eq!(config.service_name, "nse-api");
}

#[test]
fn a_malformed_connection_string_is_an_error_not_a_panic() {
    let config = AppInsightsConfig::new("not-a-connection-string", "svc");
    let result = provider(&config, ExporterReply::Refused("invalid format".to_string()));
    match result {
        Err(Error::AppInsights(message)) => {
            assert_eq!(message, "unusable connection string: invalid format")
        }
        other => panic!("got {other:?}"),
    }
    assert!(matches!(
        provider(&config, ExporterReply::NoClient),
        Err(Error::AppInsights(message)) if message == "could not build the HTTP client"
    ));
}

#[test]
fn a_well_formed_connection_string_builds_a_provider() {
    let config = AppInsightsConfig::new(
        "InstrumentationKey=00000000-1111-2222-3333-444444444444;\
         IngestionEndpoint=https://example.invalid/",
        "svc",
    );
    let resource = provider(&config, ExporterReply::Ready).expect("a usable connection string");
    assert_eq!(resource.key, "service.name");
    assert_eq!(resource.value, "svc");
}

#[test]
fn an_out_of_range_sample_rate_still_builds_providers() {
    let config = AppInsightsConfig::new(
        "InstrumentationKey=00000000-0000-0000-0000-000000000000;\
         IngestionEndpoint=https://unroutable.invalid/",
        "svc",
    )
    .with_sample_rate(rate(3.0));
    let built = providers(&config, ExporterReply::Ready);
    assert!(built.is_ok());
    assert_eq!(value_of(built.unwrap().sample_rate), 1.0);
}

#[test]
fn an_out_of_range_sample_rate_is_brought_into_range_when_applied() {
    let applied = |value: f64| {
        value_of(AppInsightsConfig::new("cs", "svc").with_sample_rate(rate(value)).effective_sample_rate())
    };
    assert_eq!(applied(3.0), 1.0);
    assert_eq!(applied(-3.0), 0.0);
    assert_eq!(applied(0.25), 0.25);
    assert_eq!(applied(f64::NAN), 1.0);
    assert_eq!(applied(f64::NEG_INFINITY), 1.0);
}

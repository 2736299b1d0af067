//! The handle that drives an installed stack, and the slot it is kept in.

use vstd::prelude::*;

use crate::logging::error::Error;
use crate::logging::flush::{DroppedLines, FlushCounters, QueueDepth};

verus! {

/// Something to be flushed or closed, in the order in which it is to be done.
#[derive(Debug, Clone, Copy, PartialEq, Eq, Structural)]
pub enum FlushStep {
    /// Flush the Application Insights exporter.
    FlushExporter,
    /// Drain the console writer.
    DrainConsole,
    /// Drain the JSON writer.
    DrainJson,
    /// Drain the file writer.
    DrainFile,
    /// Shut the Application Insights exporter down.
    ShutdownExporter,
}

/// What an installed stack has: its writers, with their counters, the reload channel and
/// the exporter.
#[derive(Debug, Clone, Copy, PartialEq, Eq, Structural)]
pub struct Handle {
    /// Whether the filter can be swapped at runtime.
    pub reloadable: bool,
    /// The console writer, when a console sink was configured.
    pub console: Option<FlushCounters>,
    /// The JSON writer, when a JSON sink was configured.
    pub json: Option<FlushCounters>,
    /// The file writer, when a file sink was configured.
    pub file: Option<FlushCounters>,
    /// Whether events are exported to Application Insights.
    pub app_insights: bool,
}

/// The depth of a writer that may be absent.
pub open spec fn depth_of(writer: Option<FlushCounters>) -> int {
    match writer {
        Some(w) => w.depth(),
        None => 0,
    }
}

/// What a writer that may be absent has dropped.
pub open spec fn dropped_of(writer: Option<FlushCounters>) -> int {
    match writer {
        Some(w) => w.dropped(),
        None => 0,
    }
}

/// The writers to drain.
pub open spec fn drains(handle: Handle) -> Seq<FlushStep> {
    (if handle.console is Some {
        seq![FlushStep::DrainConsole]
    } else {
        Seq::empty()
    }) + (if handle.json is Some {
        seq![FlushStep::DrainJson]
    } else {
        Seq::empty()
    }) + (if handle.file is Some {
        seq![FlushStep::DrainFile]
    } else {
        Seq::empty()
    })
}

/// What a flush does: the exporter first, since it batches over the network and is the
/// most likely to be cut short, then the writers.
pub open spec fn flushes(handle: Handle) -> Seq<FlushStep> {
    (if handle.app_insights {
        seq![FlushStep::FlushExporter]
    } else {
        Seq::empty()
    }) + drains(handle)
}

/// The writers of a handle to drain.
fn flush_handle(handle: &Handle, steps: &mut Vec<FlushStep>)
    ensures
        final(steps)@ == old(steps)@ + drains(*handle),
{
    let ghost before = steps@;
    if handle.console.is_some() {
        steps.push(FlushStep::DrainConsole);
    }
    if handle.json.is_some() {
        steps.push(FlushStep::DrainJson);
    }
    if handle.file.is_some() {
        steps.push(FlushStep::DrainFile);
    }
    proof {
        assert(steps@ =~= before + drains(*handle));
    }
}

fn depth_or_zero(writer: &Option<FlushCounters>) -> (depth: usize)
    requires
        dropped_of(*writer) <= usize::MAX,
    ensures
        depth == depth_of(*writer),
{
    match writer {
        Some(w) => w.queue_depth(),
        None => 0,
    }
}

fn dropped_or_zero(writer: &Option<FlushCounters>) -> (dropped: usize)
    requires
        dropped_of(*writer) <= usize::MAX,
    ensures
        dropped == dropped_of(*writer),
{
    match writer {
        Some(w) => w.dropped_lines(),
        None => 0,
    }
}

impl Handle {
    /// Whether the drop counts of the writers fit.
    pub open spec fn counts_fit(self) -> bool {
        &&& dropped_of(self.console) <= usize::MAX
        &&& dropped_of(self.json) <= usize::MAX
        &&& dropped_of(self.file) <= usize::MAX
    }

    /// Lines queued but not yet written, per sink. A sink that was not configured has
    /// none.
    pub fn queue_depth(&self) -> (depth: QueueDepth)
        requires
            self.counts_fit(),
        ensures
            depth.console == depth_of(self.console),
            depth.json == depth_of(self.json),
            depth.file == depth_of(self.file),
    {
        QueueDepth {
            console: depth_or_zero(&self.console),
            json: depth_or_zero(&self.json),
            file: depth_or_zero(&self.file),
        }
    }

    /// Lines each sink discarded on queue overflow, cumulative for the process lifetime.
    pub fn dropped_lines(&self) -> (dropped: DroppedLines)
        requires
            self.counts_fit(),
        ensures
            dropped.console == dropped_of(self.console),
            dropped.json == dropped_of(self.json),
            dropped.file == dropped_of(self.file),
    {
        DroppedLines {
            console: dropped_or_zero(&self.console),
            json: dropped_or_zero(&self.json),
            file: dropped_or_zero(&self.file),
        }
    }

    /// What to do so that every queued event reaches its destination.
    pub fn flush(&self) -> (steps: Vec<FlushStep>)
        ensures
            steps@ == flushes(*self),
    {
        let mut steps: Vec<FlushStep> = Vec::new();
        if self.app_insights {
            steps.push(FlushStep::FlushExporter);
        }
        flush_handle(self, &mut steps);
        proof {
            assert(steps@ =~= flushes(*self));
        }
        steps
    }

    /// What to do before the process exits: flush everything, then shut the exporter
    /// down. Local sinks need no closing.
    pub fn shutdown(self) -> (steps: Vec<FlushStep>)
        ensures
            steps@ == flushes(self) + (if self.app_insights {
                seq![FlushStep::ShutdownExporter]
            } else {
                Seq::empty()
            }),
    {
        let mut steps: Vec<FlushStep> = self.flush();
        if self.app_insights {
            steps.push(FlushStep::ShutdownExporter);
        }
        proof {
            assert(steps@ =~= flushes(self) + (if self.app_insights {
                seq![FlushStep::ShutdownExporter]
            } else {
                Seq::empty()
            }));
        }
        steps
    }
}

/// The slot the handle of the installed stack is kept in.
#[derive(Debug)]
pub struct LoggingState {
    stored: Option<Handle>,
}

impl LoggingState {
    /// The stored handle, where there is one.
    pub closed spec fn stored_handle(&self) -> Option<Handle> {
        self.stored
    }

    /// A slot without a handle.
    pub fn new() -> (state: LoggingState)
        ensures
            state.stored_handle() is None,
    {
        LoggingState { stored: None }
    }
}

/// A copy of the installed handle, or `None` before [`installed`] stores one or after
/// [`reset`] discards it.
pub fn handle(state: &LoggingState) -> (handle: Option<Handle>)
    ensures
        handle == state.stored_handle(),
{
    state.stored
}

/// Whether a subscriber from this facade is currently installed.
pub fn is_initialized(state: &LoggingState) -> (r: bool)
    ensures
        r == state.stored_handle() is Some,
{
    state.stored.is_some()
}

/// Whether the active filter may be swapped: a stack is installed, and it was built
/// with a channel to reload through.
pub fn reload_filter(state: &LoggingState) -> (may: Result<(), Error>)
    ensures
        match state.stored_handle() {
            None => may == Err::<(), Error>(Error::NotInitialized),
            Some(h) => if h.reloadable {
                may == Ok::<(), Error>(())
            } else {
                may == Err::<(), Error>(Error::ReloadNotEnabled)
            },
        },
{
    match &state.stored {
        None => Err(Error::NotInitialized),
        Some(h) => if h.reloadable {
            Ok(())
        } else {
            Err(Error::ReloadNotEnabled)
        },
    }
}

/// What to do so that every queued event reaches its destination: drain the console,
/// JSON and file writers of the installed stack.
pub fn flush(state: &LoggingState) -> (steps: Result<Vec<FlushStep>, Error>)
    ensures
        match state.stored_handle() {
            None => steps matches Err(Error::NotInitialized),
            Some(h) => steps is Ok && steps->Ok_0@ == drains(h),
        },
{
    match &state.stored {
        None => Err(Error::NotInitialized),
        Some(h) => {
            let mut steps: Vec<FlushStep> = Vec::new();
            flush_handle(h, &mut steps);
            proof {
                assert(steps@ =~= drains(*h));
            }
            Ok(steps)
        },
    }
}

/// Forget the stored handle.
///
/// Afterwards [`is_initialized`] reports `false` and [`handle`] returns `None`. Logging
/// itself keeps working, and the global subscriber stays installed.
pub fn reset(state: &mut LoggingState)
    ensures
        final(state).stored_handle() is None,
{
    state.stored = None;
}

/// Whether a stack may be built and installed: none from this facade is.
///
/// Asked before building, which creates directories and spawns writer threads, and
/// again under the lock that guards the slot.
pub fn may_install(state: &LoggingState) -> (may: Result<(), Error>)
    ensures
        may == if state.stored_handle() is Some {
            Err::<(), Error>(Error::AlreadyInitialized)
        } else {
            Ok::<(), Error>(())
        },
{
    if is_initialized(state) {
        Err(Error::AlreadyInitialized)
    } else {
        Ok(())
    }
}

/// Take in how installing the subscriber of `handle` went. The handle is stored only
/// where the subscriber is genuinely in place.
pub fn installed(
    state: &mut LoggingState,
    handle: Handle,
    outcome: Result<(), String>,
) -> (stored: Result<Handle, Error>)
    ensures
        if old(state).stored_handle() is Some {
            stored == Err::<Handle, Error>(Error::AlreadyInitialized)
                && final(state).stored_handle() == old(state).stored_handle()
        } else {
            match outcome {
                Ok(_) => stored == Ok::<Handle, Error>(handle) && final(state).stored_handle()
                    == Some(handle),
                Err(e) => stored == Err::<Handle, Error>(Error::SetGlobalDefault(e))
                    && final(state).stored_handle() is None,
            }
        },
{
    if state.stored.is_some() {
        return Err(Error::AlreadyInitialized);
    }
    match outcome {
        Ok(_) => {
            state.stored = Some(handle);
            Ok(handle)
        },
        Err(e) => Err(Error::SetGlobalDefault(e)),
    }
}

/// A flush reaches everything that is there, once, and nothing that is not: the exporter
/// first, then the console, the JSON and the file writer; and it shuts nothing down.
pub proof fn law_flush_reaches_everything(handle: Handle)
    ensures
        flushes(handle).contains(FlushStep::FlushExporter) <==> handle.app_insights,
        flushes(handle).contains(FlushStep::DrainConsole) <==> handle.console is Some,
        flushes(handle).contains(FlushStep::DrainJson) <==> handle.json is Some,
        flushes(handle).contains(FlushStep::DrainFile) <==> handle.file is Some,
        !flushes(handle).contains(FlushStep::ShutdownExporter),
        forall|i: int, j: int|
            0 <= i < j < flushes(handle).len() ==> turn(#[trigger] flushes(handle)[i]) < turn(
                #[trigger] flushes(handle)[j],
            ),
{
    let steps = flushes(handle);
    let e: int = if handle.app_insights {
        1
    } else {
        0
    };
    let c: int = if handle.console is Some {
        1
    } else {
        0
    };
    let j: int = if handle.json is Some {
        1
    } else {
        0
    };
    if handle.app_insights {
        assert(steps[0] == FlushStep::FlushExporter);
    }
    if handle.console is Some {
        assert(steps[e] == FlushStep::DrainConsole);
    }
    if handle.json is Some {
        assert(steps[e + c] == FlushStep::DrainJson);
    }
    if handle.file is Some {
        assert(steps[e + c + j] == FlushStep::DrainFile);
    }
}

/// When a step has its turn.
pub open spec fn turn(step: FlushStep) -> int {
    match step {
        FlushStep::FlushExporter => 0,
        FlushStep::DrainConsole => 1,
        FlushStep::DrainJson => 2,
        FlushStep::DrainFile => 3,
        FlushStep::ShutdownExporter => 4,
    }
}

/// A writer that is there counts as it does alone, and one that is not counts nothing.
pub proof fn law_absent_writers_count_nothing(counters: FlushCounters)
    ensures
        depth_of(None) == 0,
        dropped_of(None) == 0,
        depth_of(Some(counters)) == counters.depth(),
        dropped_of(Some(counters)) == counters.live_drops + counters.retired_drops,
{
}

} // verus!

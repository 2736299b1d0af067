//! Accounting for non-blocking writers: queue depth and dropped lines.
//!
//! A non-blocking writer hands lines to a background worker. Draining it retires the
//! worker and starts another, whose own count of dropped lines begins at zero, so the
//! total is carried forward here.

use vstd::prelude::*;

verus! {

/// The counters of one writer.
#[derive(Debug, Clone, Copy, PartialEq, Eq, Structural)]
pub struct FlushCounters {
    /// Lines handed to the queue, cumulative.
    pub submitted: usize,
    /// Lines the background worker has written out, cumulative.
    pub written: usize,
    /// Lines the current worker has dropped.
    pub live_drops: usize,
    /// Lines dropped by workers that have already been retired.
    pub retired_drops: usize,
}

impl FlushCounters {
    /// Every line the writer has discarded.
    pub open spec fn dropped(self) -> int {
        self.live_drops + self.retired_drops
    }

    /// Lines handed to the queue but neither written out nor dropped. The counters are
    /// sampled apart, so the difference may come out below zero, and is then zero.
    pub open spec fn depth(self) -> int {
        let left = self.submitted - self.written - self.dropped();
        if left > 0 {
            left
        } else {
            0
        }
    }

    /// A writer that has done nothing.
    pub fn new() -> (counters: FlushCounters)
        ensures
            counters == (FlushCounters {
                submitted: 0,
                written: 0,
                live_drops: 0,
                retired_drops: 0,
            }),
    {
        FlushCounters { submitted: 0, written: 0, live_drops: 0, retired_drops: 0 }
    }

    /// Lines handed to the queue but not yet written out.
    ///
    /// Derived from what went in against what came out. Meant for spotting saturation,
    /// not for exact accounting.
    pub fn queue_depth(&self) -> (depth: usize)
        requires
            self.dropped() <= usize::MAX,
        ensures
            depth == self.depth(),
    {
        let dropped: usize = self.dropped_lines();
        self.submitted.saturating_sub(self.written).saturating_sub(dropped)
    }

    /// Lines this writer discarded because its queue was full, cumulative across
    /// drains.
    pub fn dropped_lines(&self) -> (dropped: usize)
        requires
            self.dropped() <= usize::MAX,
        ensures
            dropped == self.dropped(),
    {
        self.live_drops + self.retired_drops
    }

    /// Retire the current worker: what it dropped is carried forward, and its
    /// replacement has dropped nothing.
    pub fn drain(&mut self)
        requires
            old(self).dropped() <= usize::MAX,
        ensures
            final(self).dropped() == old(self).dropped(),
            final(self).live_drops == 0,
            final(self).submitted == old(self).submitted,
            final(self).written == old(self).written,
    {
        self.retired_drops = self.retired_drops + self.live_drops;
        self.live_drops = 0;
    }
}

/// A drained queue is empty: once the retired worker has written every line that was
/// handed to it and not dropped, nothing is left in the queue, and no drop has been
/// forgotten.
pub proof fn law_drained_queue_is_empty(before: FlushCounters, after: FlushCounters)
    requires
        after.submitted == before.submitted,
        after.written == before.submitted - before.dropped(),
        after.dropped() == before.dropped(),
    ensures
        after.depth() == 0,
        after.written + after.dropped() == after.submitted,
{
}

/// Lines discarded because a sink's queue was full, per sink.
///
/// Non-zero only for sinks configured `lossy`. A service logging nothing and a service
/// dropping everything look identical without this.
#[derive(Debug, Clone, Copy, PartialEq, Eq, Structural)]
pub struct DroppedLines {
    /// Lines dropped by the console sink.
    pub console: usize,
    /// Lines dropped by the JSON sink.
    pub json: usize,
    /// Lines dropped by the file sink.
    pub file: usize,
}

/// Lines queued but not yet written, per sink.
///
/// Saturation is otherwise invisible until lines are already being dropped.
#[derive(Debug, Clone, Copy, PartialEq, Eq, Structural)]
pub struct QueueDepth {
    /// Depth of the console sink's queue.
    pub console: usize,
    /// Depth of the JSON sink's queue.
    pub json: usize,
    /// Depth of the file sink's queue.
    pub file: usize,
}

impl Default for QueueDepth {
    /// Nothing queued.
    fn default() -> (depth: Self)
        ensures
            depth == (QueueDepth { console: 0, json: 0, file: 0 }),
    {
        QueueDepth { console: 0, json: 0, file: 0 }
    }
}

impl QueueDepth {
    /// Total across every sink.
    pub fn total(&self) -> (total: usize)
        requires
            self.console + self.json + self.file <= usize::MAX,
        ensures
            total == self.console + self.json + self.file,
    {
        self.console + self.json + self.file
    }

    /// The busiest sink's depth, which is the one that will drop first.
    pub fn max(&self) -> (max: usize)
        ensures
            max == self.console || max == self.json || max == self.file,
            max >= self.console,
            max >= self.json,
            max >= self.file,
    {
        let mut max: usize = self.console;
        if self.json > max {
            max = self.json;
        }
        if self.file > max {
            max = self.file;
        }
        max
    }
}

impl Default for DroppedLines {
    /// Nothing dropped.
    fn default() -> (dropped: Self)
        ensures
            dropped == (DroppedLines { console: 0, json: 0, file: 0 }),
    {
        DroppedLines { console: 0, json: 0, file: 0 }
    }
}

impl DroppedLines {
    /// Total across every sink.
    pub fn total(&self) -> (total: usize)
        requires
            self.console + self.json + self.file <= usize::MAX,
        ensures
            total == self.console + self.json + self.file,
    {
        self.console + self.json + self.file
    }

    /// Whether anything was dropped at all.
    pub fn any(&self) -> (any: bool)
        requires
            self.console + self.json + self.file <= usize::MAX,
        ensures
            any == (self.console > 0 || self.json > 0 || self.file > 0),
    {
        self.total() > 0
    }
}

/// Every line is accounted for: what was handed to the queue is written, dropped, or
/// still in the queue, and a drop counts whichever worker it was; counters read apart
/// that would come out below zero come out as an empty queue.
pub proof fn law_lines_are_accounted_for(counters: FlushCounters)
    ensures
        counters.dropped() == counters.live_drops + counters.retired_drops,
        counters.written + counters.live_drops + counters.retired_drops <= counters.submitted
            ==> counters.written + counters.live_drops + counters.retired_drops + counters.depth()
            == counters.submitted,
        counters.written + counters.live_drops + counters.retired_drops > counters.submitted
            ==> counters.depth() == 0,
{
}

} // verus!

//! Severity levels.

use vstd::prelude::*;

verus! {

/// The level of an event, from the most severe to the most verbose.
#[derive(Debug, Clone, Copy, PartialEq, Eq, Structural)]
pub enum Level {
    /// Very serious errors.
    Error,
    /// Hazardous situations.
    Warn,
    /// Useful information.
    Info,
    /// Lower-priority information.
    Debug,
    /// Very low-priority, often extremely verbose, information.
    Trace,
}

/// The least severe level that passes, or none at all.
#[derive(Debug, Clone, Copy, PartialEq, Eq, Structural)]
pub enum LevelFilter {
    /// Nothing passes.
    Off,
    /// `Error` passes.
    Error,
    /// `Warn` and above pass.
    Warn,
    /// `Info` and above pass.
    Info,
    /// `Debug` and above pass.
    Debug,
    /// Everything passes.
    Trace,
}

impl Level {
    /// How verbose the level is: the greater, the less severe.
    pub open spec fn rank(self) -> int {
        match self {
            Level::Error => 1,
            Level::Warn => 2,
            Level::Info => 3,
            Level::Debug => 4,
            Level::Trace => 5,
        }
    }

    /// Whether the level is more verbose than `filter` lets through.
    pub fn exceeds(self, filter: LevelFilter) -> (r: bool)
        ensures
            r == (self.rank() > filter.rank()),
    {
        let verbosity: u8 = match self {
            Level::Error => 1,
            Level::Warn => 2,
            Level::Info => 3,
            Level::Debug => 4,
            Level::Trace => 5,
        };
        let limit: u8 = match filter {
            LevelFilter::Off => 0,
            LevelFilter::Error => 1,
            LevelFilter::Warn => 2,
            LevelFilter::Info => 3,
            LevelFilter::Debug => 4,
            LevelFilter::Trace => 5,
        };
        verbosity > limit
    }
}

impl LevelFilter {
    /// The rank of the most verbose level that passes.
    pub open spec fn rank(self) -> int {
        match self {
            LevelFilter::Off => 0,
            LevelFilter::Error => 1,
            LevelFilter::Warn => 2,
            LevelFilter::Info => 3,
            LevelFilter::Debug => 4,
            LevelFilter::Trace => 5,
        }
    }
}

/// A filter lets through the levels from the most severe down to its own: `Off` lets
/// nothing through, `Trace` everything, and each step in between one level more.
pub proof fn law_filters_are_nested(level: Level)
    ensures
        !(level.rank() <= LevelFilter::Off.rank()),
        level.rank() <= LevelFilter::Error.rank() <==> level == Level::Error,
        level.rank() <= LevelFilter::Warn.rank() <==> level == Level::Error || level == Level::Warn,
        level.rank() <= LevelFilter::Info.rank() <==> level != Level::Debug && level
            != Level::Trace,
        level.rank() <= LevelFilter::Debug.rank() <==> level != Level::Trace,
        level.rank() <= LevelFilter::Trace.rank(),
{
}

} // verus!

//! Levels of the events that the stack emits.

use core::cmp::Ordering;
use vstd::prelude::*;

verus! {

/// Minimum level of events the stack emits. `Off` silences everything.
#[derive(Debug, Clone, Copy, PartialEq, Eq, Structural, Ord)]
pub enum LogLevel {
    Off,
    Error,
    Warning,
    Info,
    Debug,
}

impl LogLevel {
    /// The place of a level in `Off < Error < Warning < Info < Debug`.
    pub open spec fn rank(self) -> u8 {
        match self {
            LogLevel::Off => 0,
            LogLevel::Error => 1,
            LogLevel::Warning => 2,
            LogLevel::Info => 3,
            LogLevel::Debug => 4,
        }
    }

    /// The place of this level in the order of levels.
    pub fn ordinal(self) -> (rank: u8)
        ensures
            rank == self.rank(),
    {
        match self {
            LogLevel::Off => 0,
            LogLevel::Error => 1,
            LogLevel::Warning => 2,
            LogLevel::Info => 3,
            LogLevel::Debug => 4,
        }
    }

    /// Whether `lvl` can pass a configured level of `self`.
    pub fn includes(self, lvl: LogLevel) -> (passes: bool)
        ensures
            passes == (self.rank() >= lvl.rank()),
    {
        self.ordinal() >= lvl.ordinal()
    }
}

impl PartialOrd for LogLevel {
    /// Levels are ordered by their places.
    fn partial_cmp(&self, other: &LogLevel) -> (order: Option<Ordering>) {
        let (a, b): (u8, u8) = (self.ordinal(), other.ordinal());
        if a < b {
            Some(Ordering::Less)
        } else if a == b {
            Some(Ordering::Equal)
        } else {
            Some(Ordering::Greater)
        }
    }
}

impl vstd::std_specs::cmp::PartialOrdSpecImpl for LogLevel {
    open spec fn obeys_partial_cmp_spec() -> bool {
        true
    }

    open spec fn partial_cmp_spec(&self, other: &LogLevel) -> Option<Ordering> {
        if self.rank() < other.rank() {
            Some(Ordering::Less)
        } else if self.rank() == other.rank() {
            Some(Ordering::Equal)
        } else {
            Some(Ordering::Greater)
        }
    }
}

/// Whether an event of level `lvl` may be emitted where `configured` is the level
/// that the stack was given.
pub fn enabled(configured: LogLevel, lvl: LogLevel) -> (passes: bool)
    ensures
        passes == (configured.rank() >= lvl.rank()),
{
    configured.includes(lvl)
}

/// `Off` silences everything: no event of a real level passes it.
pub proof fn off_silences_everything(lvl: LogLevel)
    requires
        lvl != LogLevel::Off,
    ensures
        !(LogLevel::Off.rank() >= lvl.rank()),
{
}

/// A level lets through whatever a lower level lets through.
pub proof fn higher_levels_let_more_through(low: LogLevel, high: LogLevel, lvl: LogLevel)
    requires
        low.rank() <= high.rank(),
        low.rank() >= lvl.rank(),
    ensures
        high.rank() >= lvl.rank(),
{
}

/// The levels are in a strict order: no two of them share a place.
pub proof fn levels_are_ordered(a: LogLevel, b: LogLevel)
    ensures
        a == b <==> a.rank() == b.rank(),
{
}

} // verus!

use vstd::prelude::*;

verus! {

/// Seconds in one calendar day.
pub const SECS_PER_DAY: u64 = 86400;

/// An instant with second precision, counted as whole seconds since the
/// start of day number zero of whatever calendar the caller uses.
#[derive(Clone, Copy, PartialEq, Eq, Structural, Debug)]
pub struct Timestamp {
    pub secs: u64,
}

impl Timestamp {
    /// The calendar day this instant falls on.
    pub open spec fn spec_day(self) -> int {
        self.secs as int / SECS_PER_DAY as int
    }

    /// Seconds elapsed since the start of the instant's day.
    pub open spec fn spec_time_of_day(self) -> int {
        self.secs as int % SECS_PER_DAY as int
    }

    pub fn new(secs: u64) -> (t: Timestamp)
        ensures
            t.secs == secs,
    {
        Timestamp { secs }
    }

    pub fn day(&self) -> (d: u64)
        ensures
            d == self.spec_day(),
    {
        self.secs / SECS_PER_DAY
    }

    pub fn time_of_day(&self) -> (s: u64)
        ensures
            s == self.spec_time_of_day(),
            s < SECS_PER_DAY,
    {
        self.secs % SECS_PER_DAY
    }
}

} // verus!

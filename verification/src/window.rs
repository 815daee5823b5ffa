use vstd::prelude::*;

use crate::log::TimeEntry;
use crate::timestamp::Timestamp;

verus! {

/// Half-width, in seconds, of the display window around a precisely
/// recorded event (5 minutes).
pub const SMALL_DELTA_SECS: u64 = 300;

/// Half-width, in seconds, of the display window around an estimated
/// event (20 minutes).
pub const BIG_DELTA_SECS: u64 = 1200;

/// The half-width that applies to an event.
pub open spec fn spec_half_width(e: TimeEntry) -> int {
    if e.estimated {
        BIG_DELTA_SECS as int
    } else {
        SMALL_DELTA_SECS as int
    }
}

/// An event's timestamp can take its window without leaving the clock's
/// range.
pub open spec fn expandable(e: TimeEntry) -> bool {
    BIG_DELTA_SECS <= e.time.secs <= u64::MAX - BIG_DELTA_SECS
}

/// The symmetric uncertainty window around one event: 20 minutes each way
/// when the timestamp was estimated, otherwise 5 minutes each way.
pub fn expand(e: &TimeEntry) -> (r: (Timestamp, Timestamp))
    requires
        expandable(*e),
    ensures
        r.0.secs == e.time.secs - spec_half_width(*e),
        r.1.secs == e.time.secs + spec_half_width(*e),
{
    let delta = if e.estimated {
        BIG_DELTA_SECS
    } else {
        SMALL_DELTA_SECS
    };
    (Timestamp { secs: e.time.secs - delta }, Timestamp { secs: e.time.secs + delta })
}

/// The flat, order-preserving list of every event's two window bounds:
/// element `2 * i` is the lower bound of event `i` and element `2 * i + 1`
/// its upper bound.
pub fn compute_display_windows(entries: &Vec<TimeEntry>) -> (r: Vec<Timestamp>)
    requires
        forall|i: int| 0 <= i < entries@.len() ==> expandable(#[trigger] entries@[i]),
    ensures
        r@.len() == 2 * entries@.len(),
        forall|i: int|
            0 <= i < entries@.len() ==> #[trigger] r@[2 * i].secs == entries@[i].time.secs
                - spec_half_width(entries@[i]),
        forall|i: int|
            0 <= i < entries@.len() ==> #[trigger] r@[2 * i + 1].secs == entries@[i].time.secs
                + spec_half_width(entries@[i]),
{
    let mut r: Vec<Timestamp> = Vec::new();
    let mut i: usize = 0;
    while i < entries.len()
        invariant
            i <= entries@.len(),
            forall|k: int| 0 <= k < entries@.len() ==> expandable(#[trigger] entries@[k]),
            r@.len() == 2 * i,
            forall|k: int|
                0 <= k < i ==> #[trigger] r@[2 * k].secs == entries@[k].time.secs
                    - spec_half_width(entries@[k]),
            forall|k: int|
                0 <= k < i ==> #[trigger] r@[2 * k + 1].secs == entries@[k].time.secs
                    + spec_half_width(entries@[k]),
        decreases entries@.len() - i,
    {
        let (lo, hi) = expand(&entries[i]);
        r.push(lo);
        r.push(hi);
        i = i + 1;
    }
    r
}

} // verus!

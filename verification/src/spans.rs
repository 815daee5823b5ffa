use vstd::prelude::*;

use crate::log::{kind_at, monotone, Kind, LogError, TimeEntry};
use crate::timestamp::SECS_PER_DAY;

verus! {

/// One derived interval between two consecutive events. Spans are never
/// stored; they are recomputed from the log on every request.
#[derive(Clone, Copy, PartialEq, Eq, Structural, Debug)]
pub struct Span {
    /// Day number of the span's start event.
    pub date: u64,
    /// Elapsed seconds between the start event and the next event.
    pub duration: u64,
    /// True when the span covers time asleep, i.e. its start event is a
    /// sleep event.
    pub asleep: bool,
}

/// The span between events `i` and `i + 1` of a monotone sequence.
pub open spec fn spec_span(first: Kind, entries: Seq<TimeEntry>, i: int) -> Span {
    Span {
        date: entries[i].time.spec_day() as u64,
        duration: (entries[i + 1].time.secs - entries[i].time.secs) as u64,
        asleep: kind_at(first, i) == Kind::Sleep,
    }
}

/// All spans of an event sequence: one per adjacent pair, in order.
pub open spec fn spec_spans(first: Kind, entries: Seq<TimeEntry>) -> Seq<Span> {
    if entries.len() == 0 {
        Seq::<Span>::empty()
    } else {
        Seq::new((entries.len() - 1) as nat, |i: int| spec_span(first, entries, i))
    }
}

/// Derives the ordered list of consecutive-pair spans from an event
/// sequence whose first event has polarity `first`. The derivation is
/// defensive: entries loaded from external storage may be corrupted, and a
/// negative elapsed time is reported as an integrity fault rather than
/// clamped.
pub fn derive_spans(first: Kind, entries: &Vec<TimeEntry>) -> (r: Result<Vec<Span>, LogError>)
    ensures
        r is Ok <==> monotone(entries@),
        r matches Ok(spans) ==> spans@ == spec_spans(first, entries@),
        r is Err ==> r == Err::<Vec<Span>, LogError>(LogError::NonMonotonic),
{
    let n = entries.len();
    let mut spans: Vec<Span> = Vec::new();
    if n == 0 {
        return Ok(spans);
    }
    let mut i: usize = 0;
    while i < n - 1
        invariant
            n == entries@.len(),
            n >= 1,
            i <= n - 1,
            spans@.len() == i,
            forall|k: int| 0 <= k < i ==> spans@[k] == spec_span(first, entries@, k),
            forall|k: int| 0 <= k < i ==> #[trigger] entries@[k].time.secs <= entries@[k + 1].time.secs,
        decreases n - i,
    {
        let start = entries[i];
        let end = entries[i + 1];
        if end.time.secs < start.time.secs {
            proof {
                assert(!monotone(entries@)) by {
                    if monotone(entries@) {
                        assert(entries@[i as int].time.secs <= entries@[i + 1].time.secs);
                    }
                }
            }
            return Err(LogError::NonMonotonic);
        }
        let kind = if i % 2 == 0 {
            first
        } else {
            first.flip()
        };
        let span = Span {
            date: start.time.secs / SECS_PER_DAY,
            duration: end.time.secs - start.time.secs,
            asleep: match kind {
                Kind::Sleep => true,
                Kind::Wake => false,
            },
        };
        spans.push(span);
        i = i + 1;
    }
    proof {
        assert forall|a: int, b: int|
            0 <= a <= b < entries@.len() implies entries@[a].time.secs
            <= entries@[b].time.secs by {
            crate::log::lemma_adjacent_le(entries@, a, b);
        }
        assert(spans@ =~= spec_spans(first, entries@));
    }
    Ok(spans)
}

} // verus!

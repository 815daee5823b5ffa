use vstd::prelude::*;

use crate::timestamp::Timestamp;

verus! {

/// The polarity of a transition event: the sleeper either woke up or fell
/// asleep at that instant.
#[derive(Clone, Copy, PartialEq, Eq, Structural, Debug)]
pub enum Kind {
    Wake,
    Sleep,
}

impl Kind {
    /// The opposite polarity.
    pub open spec fn spec_flip(self) -> Kind {
        match self {
            Kind::Wake => Kind::Sleep,
            Kind::Sleep => Kind::Wake,
        }
    }

    pub fn flip(self) -> (k: Kind)
        ensures
            k == self.spec_flip(),
    {
        match self {
            Kind::Wake => Kind::Sleep,
            Kind::Sleep => Kind::Wake,
        }
    }
}

/// One recorded transition. `estimated` marks a timestamp that was an
/// approximation rather than a precisely recorded instant.
#[derive(Clone, Copy, PartialEq, Eq, Structural, Debug)]
pub struct TimeEntry {
    pub time: Timestamp,
    pub estimated: bool,
}

/// Why a mutation or a derivation was rejected.
#[derive(Clone, Copy, PartialEq, Eq, Structural, Debug)]
pub enum LogError {
    /// An appended event was earlier than the last recorded one.
    OutOfOrder,
    /// Stored data was not in non-decreasing timestamp order.
    NonMonotonic,
}

/// The polarity of the event at index `i`, given the polarity fixed for
/// index zero: polarity alternates with index parity and is never stored.
pub open spec fn kind_at(first: Kind, i: int) -> Kind {
    if i % 2 == 0 {
        first
    } else {
        first.spec_flip()
    }
}

/// Timestamps never decrease along the sequence.
pub open spec fn monotone(entries: Seq<TimeEntry>) -> bool {
    forall|i: int, j: int| 0 <= i <= j < entries.len() ==> entries[i].time.secs <= entries[j].time.secs
}

/// A sequence whose adjacent timestamps never decrease is monotone overall.
pub(crate) proof fn lemma_adjacent_le(entries: Seq<TimeEntry>, i: int, j: int)
    requires
        forall|k: int| 0 <= k < entries.len() - 1 ==> #[trigger] entries[k].time.secs <= entries[k + 1].time.secs,
        0 <= i <= j < entries.len(),
    ensures
        entries[i].time.secs <= entries[j].time.secs,
    decreases j - i,
{
    if i < j {
        lemma_adjacent_le(entries, i, j - 1);
    }
}

/// The ordered sleep/wake log: the single source of truth. Events alternate
/// polarity by construction, starting from `first_kind`, and their
/// timestamps never decrease.
pub struct EventLog {
    pub first_kind: Kind,
    pub entries: Vec<TimeEntry>,
}

impl EventLog {
    /// Validity: the recorded timestamps are in non-decreasing order.
    pub open spec fn wf(self) -> bool {
        monotone(self.entries@)
    }

    /// The polarity of the event at index `i` of this log.
    pub open spec fn spec_kind_at(self, i: int) -> Kind {
        kind_at(self.first_kind, i)
    }

    pub fn new(first_kind: Kind) -> (log: EventLog)
        ensures
            log.wf(),
            log.first_kind == first_kind,
            log.entries@ == Seq::<TimeEntry>::empty(),
    {
        EventLog { first_kind, entries: Vec::new() }
    }

    /// Wraps entries loaded from external storage, rejecting corrupted
    /// (out-of-order) data.
    pub fn from_entries(first_kind: Kind, entries: Vec<TimeEntry>) -> (r: Result<
        EventLog,
        LogError,
    >)
        ensures
            r is Ok <==> monotone(entries@),
            r matches Ok(log) ==> log.wf() && log.first_kind == first_kind
                && log.entries@ == entries@,
            r is Err ==> r == Err::<EventLog, LogError>(LogError::NonMonotonic),
    {
        let n = entries.len();
        let mut i: usize = 1;
        while i < n
            invariant
                n == entries@.len(),
                1 <= i,
                forall|k: int| 0 <= k < i - 1 ==> #[trigger] entries@[k].time.secs <= entries@[k + 1].time.secs,
            decreases n - i,
        {
            if entries[i - 1].time.secs > entries[i].time.secs {
                return Err(LogError::NonMonotonic);
            }
            i = i + 1;
        }
        proof {
            assert forall|a: int, b: int|
                0 <= a <= b < entries@.len() implies entries@[a].time.secs
                <= entries@[b].time.secs by {
                lemma_adjacent_le(entries@, a, b);
            }
        }
        Ok(EventLog { first_kind, entries })
    }

    /// Appends a new event. It is rejected exactly when its timestamp is
    /// strictly earlier than the last recorded one; an equal timestamp is
    /// accepted (the comparison is deliberately non-strict).
    pub fn append(&mut self, entry: TimeEntry) -> (r: Result<(), LogError>)
        requires
            old(self).wf(),
        ensures
            final(self).wf(),
            final(self).first_kind == old(self).first_kind,
            r is Ok <==> (old(self).entries@.len() == 0
                || old(self).entries@.last().time.secs <= entry.time.secs),
            r is Ok ==> final(self).entries@ == old(self).entries@.push(entry),
            r is Err ==> final(self).entries@ == old(self).entries@
                && r == Err::<(), LogError>(LogError::OutOfOrder),
    {
        let n = self.entries.len();
        if n > 0 && entry.time.secs < self.entries[n - 1].time.secs {
            return Err(LogError::OutOfOrder);
        }
        self.entries.push(entry);
        Ok(())
    }

    /// Removes the most recent event; does nothing on an empty log.
    pub fn remove_last(&mut self) -> (r: Option<TimeEntry>)
        requires
            old(self).wf(),
        ensures
            final(self).wf(),
            final(self).first_kind == old(self).first_kind,
            old(self).entries@.len() == 0 ==> r is None
                && final(self).entries@ == old(self).entries@,
            old(self).entries@.len() > 0 ==> r == Some(old(self).entries@.last())
                && final(self).entries@ == old(self).entries@.drop_last(),
    {
        let r = self.entries.pop();
        proof {
            if old(self).entries@.len() > 0 {
                assert(self.entries@ == old(self).entries@.drop_last());
            }
        }
        r
    }

    pub fn len(&self) -> (n: usize)
        ensures
            n == self.entries@.len(),
    {
        self.entries.len()
    }
}

} // verus!

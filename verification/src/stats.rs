use vstd::prelude::*;

use crate::average::{average, count_spans, spec_average_secs};
use crate::log::{EventLog, Kind, TimeEntry};
use crate::rank::{rank_spans, rank_times, spec_rank_spans, spec_rank_times, RankedEntry, RankedModel};
use crate::spans::{derive_spans, spec_spans, Span};
use crate::text::human_duration_of;

verus! {

/// The aggregate statistics response: eight ranked top-five lists and two
/// rounded averages, built fresh from the log on every request.
pub struct Stats {
    pub longest_awake: Vec<RankedEntry>,
    pub shortest_awake: Vec<RankedEntry>,
    pub longest_asleep: Vec<RankedEntry>,
    pub shortest_asleep: Vec<RankedEntry>,
    pub earliest_wake: Vec<RankedEntry>,
    pub earliest_sleep: Vec<RankedEntry>,
    pub latest_wake: Vec<RankedEntry>,
    pub latest_sleep: Vec<RankedEntry>,
    pub avg_awake: String,
    pub avg_asleep: String,
}

/// The mathematical content of a `Stats` bundle.
#[verifier::ext_equal]
pub struct StatsModel {
    pub longest_awake: Seq<RankedModel>,
    pub shortest_awake: Seq<RankedModel>,
    pub longest_asleep: Seq<RankedModel>,
    pub shortest_asleep: Seq<RankedModel>,
    pub earliest_wake: Seq<RankedModel>,
    pub earliest_sleep: Seq<RankedModel>,
    pub latest_wake: Seq<RankedModel>,
    pub latest_sleep: Seq<RankedModel>,
    pub avg_awake: Seq<char>,
    pub avg_asleep: Seq<char>,
}

impl View for Stats {
    type V = StatsModel;

    open spec fn view(&self) -> StatsModel {
        StatsModel {
            longest_awake: self.longest_awake.deep_view(),
            shortest_awake: self.shortest_awake.deep_view(),
            longest_asleep: self.longest_asleep.deep_view(),
            shortest_asleep: self.shortest_asleep.deep_view(),
            earliest_wake: self.earliest_wake.deep_view(),
            earliest_sleep: self.earliest_sleep.deep_view(),
            latest_wake: self.latest_wake.deep_view(),
            latest_sleep: self.latest_sleep.deep_view(),
            avg_awake: self.avg_awake@,
            avg_asleep: self.avg_asleep@,
        }
    }
}

/// The average text shown for one polarity: empty when no span of that
/// polarity exists (a log of fewer than three events), else the rounded
/// mean duration rendered as text.
pub open spec fn spec_avg_text(spans: Seq<Span>, asleep: bool) -> Seq<char> {
    if count_spans(spans, asleep) > 0 {
        human_duration_of(spec_average_secs(spans, asleep) as u64)
    } else {
        Seq::<char>::empty()
    }
}

/// The bundle with nothing in it, answered for logs too short to have any
/// span.
pub open spec fn empty_stats_model() -> StatsModel {
    StatsModel {
        longest_awake: Seq::<RankedModel>::empty(),
        shortest_awake: Seq::<RankedModel>::empty(),
        longest_asleep: Seq::<RankedModel>::empty(),
        shortest_asleep: Seq::<RankedModel>::empty(),
        earliest_wake: Seq::<RankedModel>::empty(),
        earliest_sleep: Seq::<RankedModel>::empty(),
        latest_wake: Seq::<RankedModel>::empty(),
        latest_sleep: Seq::<RankedModel>::empty(),
        avg_awake: Seq::<char>::empty(),
        avg_asleep: Seq::<char>::empty(),
    }
}

/// What `compute_statistics` returns, as a function of the log alone: the
/// placeholder bundle for fewer than two events, otherwise the eight
/// rankings and two averages over the derived spans.
pub open spec fn spec_statistics(first: Kind, entries: Seq<TimeEntry>) -> StatsModel {
    if entries.len() < 2 {
        empty_stats_model()
    } else {
        let spans = spec_spans(first, entries);
        StatsModel {
            longest_awake: spec_rank_spans(spans, false, true),
            shortest_awake: spec_rank_spans(spans, false, false),
            longest_asleep: spec_rank_spans(spans, true, true),
            shortest_asleep: spec_rank_spans(spans, true, false),
            earliest_wake: spec_rank_times(first, entries, Kind::Wake, false),
            earliest_sleep: spec_rank_times(first, entries, Kind::Sleep, false),
            latest_wake: spec_rank_times(first, entries, Kind::Wake, true),
            latest_sleep: spec_rank_times(first, entries, Kind::Sleep, true),
            avg_awake: spec_avg_text(spans, false),
            avg_asleep: spec_avg_text(spans, true),
        }
    }
}

fn empty_stats() -> (r: Stats)
    ensures
        r@ == empty_stats_model(),
{
    let r = Stats {
        longest_awake: Vec::new(),
        shortest_awake: Vec::new(),
        longest_asleep: Vec::new(),
        shortest_asleep: Vec::new(),
        earliest_wake: Vec::new(),
        earliest_sleep: Vec::new(),
        latest_wake: Vec::new(),
        latest_sleep: Vec::new(),
        avg_awake: String::new(),
        avg_asleep: String::new(),
    };
    proof {
        assert(r@ =~= empty_stats_model());
    }
    r
}

/// Derives the whole statistics bundle from the log. A log with fewer than
/// two events yields the placeholder bundle; the result is a function of
/// the log's content alone, so an unmodified log always yields the same
/// bundle, byte for byte.
pub fn compute_statistics(log: &EventLog) -> (r: Stats)
    requires
        log.wf(),
    ensures
        r@ == spec_statistics(log.first_kind, log.entries@),
{
    if log.entries.len() < 2 {
        return empty_stats();
    }
    let spans = derive_spans(log.first_kind, &log.entries).unwrap();
    let avg_awake = match average(&spans, false) {
        Some(s) => s,
        None => String::new(),
    };
    let avg_asleep = match average(&spans, true) {
        Some(s) => s,
        None => String::new(),
    };
    let r = Stats {
        longest_awake: rank_spans(&spans, false, true),
        shortest_awake: rank_spans(&spans, false, false),
        longest_asleep: rank_spans(&spans, true, true),
        shortest_asleep: rank_spans(&spans, true, false),
        earliest_wake: rank_times(log.first_kind, &log.entries, Kind::Wake, false),
        earliest_sleep: rank_times(log.first_kind, &log.entries, Kind::Sleep, false),
        latest_wake: rank_times(log.first_kind, &log.entries, Kind::Wake, true),
        latest_sleep: rank_times(log.first_kind, &log.entries, Kind::Sleep, true),
        avg_awake,
        avg_asleep,
    };
    proof {
        assert(r@ =~= spec_statistics(log.first_kind, log.entries@));
    }
    r
}

} // verus!

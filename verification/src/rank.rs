use vstd::prelude::*;

use crate::log::{kind_at, Kind, TimeEntry};
use crate::spans::Span;
use crate::text::{human_duration_of, time_12h, fmt_duration, fmt_time_12h};
use crate::timestamp::SECS_PER_DAY;

verus! {

/// How many entries each ranked list carries at most.
pub const TOP_K: usize = 5;

/// Seconds since midnight below which a sleep event still belongs to the
/// previous evening's session (06:00).
pub const PRE_DAWN_SECS: u64 = 21600;

/// One element fed to the ranking: the sort key, the day the element is
/// anchored to, and the raw value that is rendered after ranking.
#[derive(Clone, Copy, PartialEq, Eq, Structural, Debug)]
pub struct Keyed {
    pub key: u64,
    pub date: u64,
    pub payload: u64,
}

/// One line of a ranked list: a day and the human-readable rendering of
/// the ranked value.
#[derive(Debug)]
pub struct RankedEntry {
    pub date: u64,
    pub text: String,
}

/// The mathematical content of a `RankedEntry`.
pub struct RankedModel {
    pub date: u64,
    pub text: Seq<char>,
}

impl View for RankedEntry {
    type V = RankedModel;

    open spec fn view(&self) -> RankedModel {
        RankedModel { date: self.date, text: self.text@ }
    }
}

impl DeepView for RankedEntry {
    type V = RankedModel;

    open spec fn deep_view(&self) -> RankedModel {
        self.view()
    }
}

/// Whether `a` must come strictly before `b` in the requested direction.
/// Keeping the comparison strict makes the insertion sort below stable:
/// an element never moves past an equal key, so ties keep their original,
/// chronological order.
pub open spec fn before(desc: bool, a: u64, b: u64) -> bool {
    if desc {
        a > b
    } else {
        a < b
    }
}

fn comes_before(desc: bool, a: u64, b: u64) -> (r: bool)
    ensures
        r == before(desc, a, b),
{
    if desc {
        a > b
    } else {
        a < b
    }
}

/// Where a stable insertion places `x` in the already-ranked `s`: after
/// every element it does not strictly precede.
pub open spec fn insert_keyed(desc: bool, x: Keyed, s: Seq<Keyed>) -> Seq<Keyed>
    decreases s.len(),
{
    if s.len() == 0 {
        seq![x]
    } else if before(desc, x.key, s[0].key) {
        seq![x] + s
    } else {
        seq![s[0]] + insert_keyed(desc, x, s.drop_first())
    }
}

/// Stable sort by key: elements are inserted in their original order, and
/// an element is never placed before an earlier one with an equal key.
pub open spec fn sort_keyed(desc: bool, s: Seq<Keyed>) -> Seq<Keyed>
    decreases s.len(),
{
    if s.len() == 0 {
        Seq::<Keyed>::empty()
    } else {
        insert_keyed(desc, s.last(), sort_keyed(desc, s.drop_last()))
    }
}

/// Inserting at the first position whose element `x` strictly precedes is
/// exactly what `insert_keyed` describes.
pub(crate) proof fn lemma_insert_keyed_at(desc: bool, x: Keyed, s: Seq<Keyed>, j: int)
    requires
        0 <= j <= s.len(),
        forall|k: int| 0 <= k < j ==> !before(desc, x.key, #[trigger] s[k].key),
        j < s.len() ==> before(desc, x.key, s[j].key),
    ensures
        insert_keyed(desc, x, s) == s.insert(j, x),
    decreases s.len(),
{
    if s.len() == 0 {
        assert(s.insert(0, x) =~= seq![x]);
    } else if before(desc, x.key, s[0].key) {
        assert(j == 0);
        assert(s.insert(0, x) =~= seq![x] + s);
    } else {
        assert(j >= 1);
        lemma_insert_keyed_at(desc, x, s.drop_first(), j - 1);
        assert(seq![s[0]] + s.drop_first().insert(j - 1, x) =~= s.insert(j, x));
    }
}

/// A stable insertion adds exactly one occurrence of the inserted element.
pub proof fn lemma_insert_keyed_multiset(desc: bool, x: Keyed, s: Seq<Keyed>)
    ensures
        insert_keyed(desc, x, s).to_multiset() == s.to_multiset().insert(x),
    decreases s.len(),
{
    broadcast use vstd::seq_lib::group_to_multiset_ensures;
    broadcast use vstd::multiset::group_multiset_axioms;

    if s.len() == 0 {
        assert(seq![x] =~= Seq::<Keyed>::empty().push(x));
        assert(s =~= Seq::<Keyed>::empty());
        assert(insert_keyed(desc, x, s).to_multiset() =~= s.to_multiset().insert(x));
    } else if before(desc, x.key, s[0].key) {
        vstd::seq_lib::lemma_multiset_commutative(seq![x], s);
        assert(seq![x] =~= Seq::<Keyed>::empty().push(x));
        assert(insert_keyed(desc, x, s).to_multiset() =~= s.to_multiset().insert(x));
    } else {
        lemma_insert_keyed_multiset(desc, x, s.drop_first());
        vstd::seq_lib::lemma_multiset_commutative(seq![s[0]], insert_keyed(desc, x, s.drop_first()));
        assert(s =~= seq![s[0]] + s.drop_first());
        vstd::seq_lib::lemma_multiset_commutative(seq![s[0]], s.drop_first());
        assert(insert_keyed(desc, x, s).to_multiset() =~= s.to_multiset().insert(x));
    }
}

/// The stable sort is a permutation: it keeps exactly the elements it was
/// given, with their multiplicities.
pub proof fn lemma_sort_keyed_multiset(desc: bool, s: Seq<Keyed>)
    ensures
        sort_keyed(desc, s).to_multiset() == s.to_multiset(),
    decreases s.len(),
{
    broadcast use vstd::seq_lib::group_to_multiset_ensures;

    if s.len() > 0 {
        lemma_sort_keyed_multiset(desc, s.drop_last());
        lemma_insert_keyed_multiset(desc, s.last(), sort_keyed(desc, s.drop_last()));
        assert(s =~= s.drop_last().push(s.last()));
        assert(s.drop_last().push(s.last()).to_multiset() == s.drop_last().to_multiset().insert(
            s.last(),
        ));
    }
}

/// Sorts by key, ascending or descending, keeping ties in their original
/// order.
pub fn sort_keyed_vec(desc: bool, v: &Vec<Keyed>) -> (r: Vec<Keyed>)
    ensures
        r@ == sort_keyed(desc, v@),
{
    let mut r: Vec<Keyed> = Vec::new();
    let mut i: usize = 0;
    while i < v.len()
        invariant
            i <= v@.len(),
            r@ == sort_keyed(desc, v@.take(i as int)),
        decreases v@.len() - i,
    {
        let x = v[i];
        let mut j: usize = 0;
        while j < r.len() && !comes_before(desc, x.key, r[j].key)
            invariant
                j <= r@.len(),
                forall|k: int| 0 <= k < j ==> !before(desc, x.key, #[trigger] r@[k].key),
            decreases r@.len() - j,
        {
            j = j + 1;
        }
        let ghost r0 = r@;
        r.insert(j, x);
        proof {
            lemma_insert_keyed_at(desc, x, r0, j as int);
            assert(v@.take(i + 1).drop_last() =~= v@.take(i as int));
            assert(v@.take(i + 1).last() == v@[i as int]);
        }
        i = i + 1;
    }
    proof {
        assert(v@.take(v@.len() as int) =~= v@);
    }
    r
}

/// The ranking key, day anchor and raw value of a span: spans rank by
/// their duration.
pub open spec fn span_keyed(s: Span) -> Keyed {
    Keyed { key: s.duration, date: s.date, payload: s.duration }
}

/// The spans of the requested polarity, in chronological order, as ranking
/// elements.
pub open spec fn select_spans(spans: Seq<Span>, asleep: bool) -> Seq<Keyed>
    decreases spans.len(),
{
    if spans.len() == 0 {
        Seq::<Keyed>::empty()
    } else {
        let rest = select_spans(spans.drop_last(), asleep);
        if spans.last().asleep == asleep {
            rest.push(span_keyed(spans.last()))
        } else {
            rest
        }
    }
}

/// The comparable time-of-day key of an event: a pre-dawn sleep event is
/// shifted forward one day so that cross-midnight sleep times sort among
/// their same-session peers; wake events are never shifted.
pub open spec fn spec_normalize(tod: int, sleep: bool) -> int {
    if sleep && tod < PRE_DAWN_SECS as int {
        tod + SECS_PER_DAY as int
    } else {
        tod
    }
}

/// Maps a time of day to its ranking key, as `spec_normalize` describes.
pub fn normalize(tod: u64, sleep: bool) -> (k: u64)
    requires
        tod < SECS_PER_DAY,
    ensures
        k == spec_normalize(tod as int, sleep),
{
    if sleep && tod < PRE_DAWN_SECS {
        tod + SECS_PER_DAY
    } else {
        tod
    }
}

/// The ranking key, day anchor and raw value of an event instant: instants
/// rank by their normalized time of day and display the unshifted one.
pub open spec fn time_keyed(e: TimeEntry, want: Kind) -> Keyed {
    Keyed {
        key: spec_normalize(e.time.spec_time_of_day(), want == Kind::Sleep) as u64,
        date: e.time.spec_day() as u64,
        payload: e.time.spec_time_of_day() as u64,
    }
}

/// The events of the requested polarity, in chronological order, as
/// ranking elements.
pub open spec fn select_times(first: Kind, entries: Seq<TimeEntry>, want: Kind) -> Seq<Keyed>
    decreases entries.len(),
{
    if entries.len() == 0 {
        Seq::<Keyed>::empty()
    } else {
        let rest = select_times(first, entries.drop_last(), want);
        if kind_at(first, entries.len() - 1) == want {
            rest.push(time_keyed(entries.last(), want))
        } else {
            rest
        }
    }
}

/// The first `k` elements, or all of them when fewer exist.
pub open spec fn top_k(s: Seq<Keyed>, k: int) -> Seq<Keyed> {
    if s.len() <= k {
        s
    } else {
        s.take(k)
    }
}

/// What `rank_spans` returns: the spans of the requested polarity, stably
/// sorted by duration in the requested direction, cut to the top five, each
/// rendered as its day and its human-readable duration.
pub open spec fn spec_rank_spans(spans: Seq<Span>, asleep: bool, desc: bool) -> Seq<RankedModel> {
    top_k(sort_keyed(desc, select_spans(spans, asleep)), TOP_K as int).map_values(
        |kd: Keyed| RankedModel { date: kd.date, text: human_duration_of(kd.payload) },
    )
}

/// What `rank_times` returns: the events of the requested polarity, stably
/// sorted by normalized time of day in the requested direction, cut to the
/// top five, each rendered as its day and its 12-hour clock time.
pub open spec fn spec_rank_times(
    first: Kind,
    entries: Seq<TimeEntry>,
    want: Kind,
    desc: bool,
) -> Seq<RankedModel> {
    top_k(sort_keyed(desc, select_times(first, entries, want)), TOP_K as int).map_values(
        |kd: Keyed| RankedModel { date: kd.date, text: time_12h(kd.payload as int) },
    )
}

/// Ranks spans of one polarity by duration; `desc` asks for the longest
/// first, otherwise the shortest first. Ties keep chronological order, an
/// input with fewer than five spans of the polarity yields them all, and an
/// empty input yields an empty list.
pub fn rank_spans(spans: &Vec<Span>, asleep: bool, desc: bool) -> (r: Vec<RankedEntry>)
    ensures
        r.deep_view() == spec_rank_spans(spans@, asleep, desc),
{
    let mut sel: Vec<Keyed> = Vec::new();
    let mut i: usize = 0;
    while i < spans.len()
        invariant
            i <= spans@.len(),
            sel@ == select_spans(spans@.take(i as int), asleep),
        decreases spans@.len() - i,
    {
        proof {
            assert(spans@.take(i + 1).drop_last() =~= spans@.take(i as int));
            assert(spans@.take(i + 1).last() == spans@[i as int]);
        }
        let s = spans[i];
        if s.asleep == asleep {
            sel.push(Keyed { key: s.duration, date: s.date, payload: s.duration });
        }
        i = i + 1;
    }
    proof {
        assert(spans@.take(spans@.len() as int) =~= spans@);
    }
    let sorted = sort_keyed_vec(desc, &sel);
    render_durations(&sorted)
}

/// Ranks event instants of one polarity by normalized time of day; `desc`
/// asks for the latest first, otherwise the earliest first. The displayed
/// time is the recorded, unshifted one.
pub fn rank_times(first: Kind, entries: &Vec<TimeEntry>, want: Kind, desc: bool) -> (r: Vec<
    RankedEntry,
>)
    ensures
        r.deep_view() == spec_rank_times(first, entries@, want, desc),
{
    let mut sel: Vec<Keyed> = Vec::new();
    let mut i: usize = 0;
    while i < entries.len()
        invariant
            i <= entries@.len(),
            sel@ == select_times(first, entries@.take(i as int), want),
            forall|l: int| 0 <= l < sel@.len() ==> #[trigger] sel@[l].payload < SECS_PER_DAY,
        decreases entries@.len() - i,
    {
        proof {
            assert(entries@.take(i + 1).drop_last() =~= entries@.take(i as int));
            assert(entries@.take(i + 1).last() == entries@[i as int]);
        }
        let e = entries[i];
        let kind = if i % 2 == 0 {
            first
        } else {
            first.flip()
        };
        if kind == want {
            let tod = e.time.time_of_day();
            let is_sleep = match want {
                Kind::Sleep => true,
                Kind::Wake => false,
            };
            let key = normalize(tod, is_sleep);
            sel.push(Keyed { key, date: e.time.day(), payload: tod });
        }
        i = i + 1;
    }
    proof {
        assert(entries@.take(entries@.len() as int) =~= entries@);
    }
    let sorted = sort_keyed_vec(desc, &sel);
    proof {
        broadcast use vstd::seq_lib::group_to_multiset_ensures;

        lemma_sort_keyed_multiset(desc, sel@);
        assert forall|l: int| 0 <= l < sorted@.len() implies #[trigger] sorted@[l].payload
            < SECS_PER_DAY by {
            assert(sorted@.contains(sorted@[l]));
            assert(sel@.to_multiset().count(sorted@[l]) > 0);
            assert(sel@.contains(sorted@[l]));
            let m = choose|m: int| 0 <= m < sel@.len() && sel@[m] == sorted@[l];
            assert(sel@[m].payload < SECS_PER_DAY);
        }
    }
    let mut out: Vec<RankedEntry> = Vec::new();
    let k = if sorted.len() < TOP_K {
        sorted.len()
    } else {
        TOP_K
    };
    let ghost top = top_k(sorted@, TOP_K as int);
    let mut j: usize = 0;
    while j < k
        invariant
            j <= k,
            k == top.len(),
            top == top_k(sorted@, TOP_K as int),
            forall|l: int| 0 <= l < k ==> top[l] == sorted@[l],
            forall|l: int| 0 <= l < sorted@.len() ==> #[trigger] sorted@[l].payload < SECS_PER_DAY,
            out@.len() == j,
            forall|l: int| 0 <= l < j ==> #[trigger] out@[l]@ == (RankedModel {
                date: top[l].date,
                text: time_12h(top[l].payload as int),
            }),
        decreases k - j,
    {
        let kd = sorted[j];
        let text = fmt_time_12h(kd.payload);
        out.push(RankedEntry { date: kd.date, text });
        j = j + 1;
    }
    proof {
        assert(out.deep_view() =~= spec_rank_times(first, entries@, want, desc));
    }
    out
}

/// Renders already-ranked duration elements as day/duration lines, cut to
/// the top five.
fn render_durations(sorted: &Vec<Keyed>) -> (r: Vec<RankedEntry>)
    ensures
        r.deep_view() == top_k(sorted@, TOP_K as int).map_values(
            |kd: Keyed| RankedModel { date: kd.date, text: human_duration_of(kd.payload) },
        ),
{
    let mut out: Vec<RankedEntry> = Vec::new();
    let k = if sorted.len() < TOP_K {
        sorted.len()
    } else {
        TOP_K
    };
    let ghost top = top_k(sorted@, TOP_K as int);
    let mut j: usize = 0;
    while j < k
        invariant
            j <= k,
            k == top.len(),
            top == top_k(sorted@, TOP_K as int),
            forall|l: int| 0 <= l < k ==> top[l] == sorted@[l],
            out@.len() == j,
            forall|l: int| 0 <= l < j ==> #[trigger] out@[l]@ == (RankedModel {
                date: top[l].date,
                text: human_duration_of(top[l].payload),
            }),
        decreases k - j,
    {
        let kd = sorted[j];
        let text = fmt_duration(kd.payload);
        out.push(RankedEntry { date: kd.date, text });
        j = j + 1;
    }
    proof {
        assert(out.deep_view() =~= top_k(sorted@, TOP_K as int).map_values(
            |kd: Keyed| RankedModel { date: kd.date, text: human_duration_of(kd.payload) },
        ));
    }
    out
}

} // verus!

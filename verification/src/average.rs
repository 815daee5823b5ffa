use vstd::prelude::*;

use crate::spans::Span;
use crate::text::{fmt_duration, human_duration_of};

verus! {

/// Total seconds of the spans of one polarity.
pub open spec fn sum_durations(spans: Seq<Span>, asleep: bool) -> int
    decreases spans.len(),
{
    if spans.len() == 0 {
        0
    } else {
        sum_durations(spans.drop_last(), asleep) + if spans.last().asleep == asleep {
            spans.last().duration as int
        } else {
            0
        }
    }
}

/// How many spans have the given polarity.
pub open spec fn count_spans(spans: Seq<Span>, asleep: bool) -> int
    decreases spans.len(),
{
    if spans.len() == 0 {
        0
    } else {
        count_spans(spans.drop_last(), asleep) + if spans.last().asleep == asleep {
            1int
        } else {
            0int
        }
    }
}

/// The mean duration of the spans of one polarity, in seconds, rounded
/// down to whole minutes: the sub-minute remainder is dropped, never
/// rounded up.
pub open spec fn spec_average_secs(spans: Seq<Span>, asleep: bool) -> int {
    let avg = sum_durations(spans, asleep) / count_spans(spans, asleep);
    avg / 60 * 60
}

/// Polarity sums and counts are never negative.
pub proof fn lemma_sum_nonneg(spans: Seq<Span>, asleep: bool)
    ensures
        sum_durations(spans, asleep) >= 0,
        count_spans(spans, asleep) >= 0,
    decreases spans.len(),
{
    if spans.len() > 0 {
        lemma_sum_nonneg(spans.drop_last(), asleep);
    }
}

/// Law: the average is rounded down to a whole minute, never up. The
/// reported value is a multiple of sixty seconds, never exceeds the true
/// mean, and falls short of it by less than a minute.
pub proof fn lemma_average_rounds_down(spans: Seq<Span>, asleep: bool)
    requires
        count_spans(spans, asleep) > 0,
    ensures
        spec_average_secs(spans, asleep) % 60 == 0,
        spec_average_secs(spans, asleep) <= sum_durations(spans, asleep) / count_spans(
            spans,
            asleep,
        ),
        sum_durations(spans, asleep) / count_spans(spans, asleep) - spec_average_secs(
            spans,
            asleep,
        ) < 60,
{
    broadcast use vstd::arithmetic::div_mod::lemma_fundamental_div_mod;
    broadcast use vstd::arithmetic::div_mod::lemma_mod_bound;
    broadcast use vstd::arithmetic::div_mod::lemma_div_pos_is_pos;

    lemma_sum_nonneg(spans, asleep);
    let avg = sum_durations(spans, asleep) / count_spans(spans, asleep);
    assert(avg >= 0);
    assert(avg == 60 * (avg / 60) + avg % 60);
    assert(0 <= avg % 60 < 60);
    assert(spec_average_secs(spans, asleep) == avg / 60 * 60);
}

/// The mean duration of the spans of the requested polarity, rounded down
/// to whole minutes and rendered as human-readable text. Yields nothing
/// exactly when no span has that polarity (the mean would be undefined);
/// callers guard statistics derivation so that this arises only on logs
/// with fewer than three events.
pub fn average(spans: &Vec<Span>, asleep: bool) -> (r: Option<String>)
    ensures
        r is Some <==> count_spans(spans@, asleep) > 0,
        r matches Some(s) ==> s@ == human_duration_of(spec_average_secs(spans@, asleep) as u64),
{
    let mut sum: u128 = 0;
    let mut count: u64 = 0;
    let mut i: usize = 0;
    while i < spans.len()
        invariant
            i <= spans@.len(),
            sum as int == sum_durations(spans@.take(i as int), asleep),
            count as int == count_spans(spans@.take(i as int), asleep),
            count <= i,
            sum <= count as u128 * (u64::MAX as u128),
        decreases spans@.len() - i,
    {
        proof {
            assert(spans@.take(i + 1).drop_last() =~= spans@.take(i as int));
            assert(spans@.take(i + 1).last() == spans@[i as int]);
        }
        let s = spans[i];
        if s.asleep == asleep {
            sum = sum + s.duration as u128;
            count = count + 1;
        }
        i = i + 1;
    }
    proof {
        assert(spans@.take(spans@.len() as int) =~= spans@);
    }
    if count == 0 {
        return None;
    }
    proof {
        broadcast use vstd::arithmetic::div_mod::lemma_div_is_ordered;
        broadcast use vstd::arithmetic::div_mod::lemma_div_by_multiple;

        assert((u64::MAX as int * count as int) / count as int == u64::MAX as int);
        assert(count as int * (u64::MAX as int) == u64::MAX as int * count as int)
            by (nonlinear_arith);
        assert(sum as int / count as int <= u64::MAX as int);
    }
    let avg = (sum / count as u128) as u64;
    let rounded = avg / 60 * 60;
    Some(fmt_duration(rounded))
}

} // verus!

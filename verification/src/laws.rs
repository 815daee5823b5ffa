use vstd::prelude::*;

use crate::log::{kind_at, EventLog, Kind, TimeEntry};
use crate::rank::{before, insert_keyed, lemma_sort_keyed_multiset, sort_keyed, Keyed};
use crate::spans::{spec_span, spec_spans};
use crate::stats::{spec_statistics, Stats};

verus! {

/// Law: a non-empty event sequence derives exactly one span per adjacent
/// pair of events, and the spans' polarities strictly alternate.
pub proof fn lemma_spans_alternate(first: Kind, entries: Seq<TimeEntry>)
    requires
        entries.len() >= 1,
    ensures
        spec_spans(first, entries).len() == entries.len() - 1,
        forall|i: int|
            0 <= i < entries.len() - 2 ==> #[trigger] spec_spans(first, entries)[i].asleep
                != spec_spans(first, entries)[i + 1].asleep,
{
    assert forall|i: int|
        0 <= i < entries.len() - 2 implies #[trigger] spec_spans(first, entries)[i].asleep
        != spec_spans(first, entries)[i + 1].asleep by {
        assert(spec_spans(first, entries)[i] == spec_span(first, entries, i));
        assert(spec_spans(first, entries)[i + 1] == spec_span(first, entries, i + 1));
        assert((i + 1) % 2 != i % 2);
        assert(kind_at(first, i) != kind_at(first, i + 1));
    }
}

/// No two elements carry the same key.
pub open spec fn no_ties(s: Seq<Keyed>) -> bool {
    forall|i: int, j: int| 0 <= i < j < s.len() ==> s[i].key != s[j].key
}

/// The ranked order never puts an element before one it should follow.
pub open spec fn sorted_keyed(desc: bool, s: Seq<Keyed>) -> bool {
    forall|i: int, j: int| 0 <= i <= j < s.len() ==> !before(desc, s[j].key, s[i].key)
}

/// A stable insertion into a ranked sequence keeps it ranked.
proof fn lemma_insert_keyed_sorted(desc: bool, x: Keyed, s: Seq<Keyed>)
    requires
        sorted_keyed(desc, s),
    ensures
        sorted_keyed(desc, insert_keyed(desc, x, s)),
    decreases s.len(),
{
    broadcast use vstd::seq_lib::group_to_multiset_ensures;

    if s.len() == 0 {
        assert(insert_keyed(desc, x, s) =~= seq![x]);
    } else if before(desc, x.key, s[0].key) {
        let r = seq![x] + s;
        assert(insert_keyed(desc, x, s) == r);
        assert forall|i: int, j: int| 0 <= i <= j < r.len() implies !before(
            desc,
            r[j].key,
            r[i].key,
        ) by {
            if i == 0 && j > 0 {
                assert(r[j] == s[j - 1]);
                assert(!before(desc, s[j - 1].key, s[0].key));
            } else if i > 0 {
                assert(r[i] == s[i - 1] && r[j] == s[j - 1]);
            }
        }
    } else {
        assert(sorted_keyed(desc, s.drop_first()));
        lemma_insert_keyed_sorted(desc, x, s.drop_first());
        crate::rank::lemma_insert_keyed_multiset(desc, x, s.drop_first());
        let r = insert_keyed(desc, x, s);
        let tail = insert_keyed(desc, x, s.drop_first());
        assert forall|i: int, j: int| 0 <= i <= j < r.len() implies !before(
            desc,
            r[j].key,
            r[i].key,
        ) by {
            if i == 0 && j > 0 {
                assert(r[j] == tail[j - 1]);
                assert(tail.contains(tail[j - 1]));
                assert(s.drop_first().to_multiset().insert(x).count(tail[j - 1]) > 0);
                if tail[j - 1] == x {
                } else {
                    assert(s.drop_first().to_multiset().count(tail[j - 1]) > 0);
                    assert(s.drop_first().contains(tail[j - 1]));
                    let m = choose|m: int|
                        0 <= m < s.drop_first().len() && s.drop_first()[m] == tail[j - 1];
                    assert(s[m + 1] == tail[j - 1]);
                    assert(!before(desc, s[m + 1].key, s[0].key));
                }
            } else if i > 0 {
                assert(r[i] == tail[i - 1] && r[j] == tail[j - 1]);
            }
        }
    }
}

/// The stable sort ranks its output.
pub proof fn lemma_sort_keyed_sorted(desc: bool, s: Seq<Keyed>)
    ensures
        sorted_keyed(desc, sort_keyed(desc, s)),
    decreases s.len(),
{
    if s.len() > 0 {
        lemma_sort_keyed_sorted(desc, s.drop_last());
        lemma_insert_keyed_sorted(desc, s.last(), sort_keyed(desc, s.drop_last()));
    }
}

/// Law: ranking the same input ascending and descending keeps, either way,
/// exactly the input's elements with their multiplicities; and when no two
/// keys tie, the first element of one direction is the last of the other.
pub proof fn lemma_rank_directions(s: Seq<Keyed>)
    ensures
        sort_keyed(false, s).to_multiset() == s.to_multiset(),
        sort_keyed(true, s).to_multiset() == s.to_multiset(),
        s.len() > 0 && no_ties(s) ==> sort_keyed(false, s).first() == sort_keyed(true, s).last()
            && sort_keyed(false, s).last() == sort_keyed(true, s).first(),
{
    broadcast use vstd::seq_lib::group_to_multiset_ensures;

    let a = sort_keyed(false, s);
    let d = sort_keyed(true, s);
    lemma_sort_keyed_multiset(false, s);
    lemma_sort_keyed_multiset(true, s);
    lemma_sort_keyed_sorted(false, s);
    lemma_sort_keyed_sorted(true, s);
    assert(a.to_multiset().len() == a.len());
    assert(d.to_multiset().len() == d.len());
    assert(s.to_multiset().len() == s.len());
    assert(a.len() == s.len() && d.len() == s.len());
    if s.len() > 0 && no_ties(s) {
        lemma_same_element(s, a, d, a.first(), d.last());
        lemma_same_element(s, a, d, a.last(), d.first());
    }
}

/// Two values that both occur in sequences holding exactly the elements of
/// a tie-free `s`, and whose keys are forced equal by the orderings, are
/// the same element of `s`.
proof fn lemma_same_element(s: Seq<Keyed>, a: Seq<Keyed>, d: Seq<Keyed>, x: Keyed, y: Keyed)
    requires
        no_ties(s),
        a.to_multiset() == s.to_multiset(),
        d.to_multiset() == s.to_multiset(),
        sorted_keyed(false, a),
        sorted_keyed(true, d),
        s.len() > 0,
        a.len() == s.len(),
        d.len() == s.len(),
        x == a.first() && y == d.last() || x == a.last() && y == d.first(),
    ensures
        x == y,
{
    broadcast use vstd::seq_lib::group_to_multiset_ensures;

    assert(a.contains(x));
    assert(d.contains(y));
    assert(s.to_multiset().count(x) > 0);
    assert(s.to_multiset().count(y) > 0);
    assert(s.contains(x));
    assert(s.contains(y));
    // x also occurs somewhere in d, and y somewhere in a; the orderings
    // then force the two keys equal.
    assert(d.to_multiset().count(x) > 0);
    assert(a.to_multiset().count(y) > 0);
    assert(d.contains(x));
    assert(a.contains(y));
    let xa = choose|i: int| 0 <= i < a.len() && a[i] == y;
    let xd = choose|i: int| 0 <= i < d.len() && d[i] == x;
    if x == a.first() && y == d.last() {
        // ascending puts the least key first; descending puts it last.
        assert(!before(false, a[xa].key, a[0].key));
        assert(!before(true, d[d.len() - 1].key, d[xd].key));
        assert(x.key == y.key);
    } else {
        assert(x == a.last() && y == d.first());
        assert(0 <= xa < a.len() && a[xa] == y);
        assert(0 <= xd < d.len() && d[xd] == x);
        assert(!before(false, a[a.len() - 1].key, a[xa].key));
        assert(!before(true, d[xd].key, d[0].key));
        assert(x.key >= y.key);
        assert(x.key <= y.key);
        assert(x.key == y.key);
    }
    let i1 = choose|i: int| 0 <= i < s.len() && s[i] == x;
    let i2 = choose|i: int| 0 <= i < s.len() && s[i] == y;
    if i1 != i2 {
        assert(s[i1].key != s[i2].key);
    }
}

/// The elements whose key is exactly `k`, in their original order.
pub open spec fn tied(k: u64, s: Seq<Keyed>) -> Seq<Keyed>
    decreases s.len(),
{
    if s.len() == 0 {
        Seq::<Keyed>::empty()
    } else if s[0].key == k {
        seq![s[0]] + tied(k, s.drop_first())
    } else {
        tied(k, s.drop_first())
    }
}

/// A key that no element carries selects nothing.
proof fn lemma_tied_empty(k: u64, s: Seq<Keyed>)
    requires
        forall|m: int| 0 <= m < s.len() ==> #[trigger] s[m].key != k,
    ensures
        tied(k, s) == Seq::<Keyed>::empty(),
    decreases s.len(),
{
    if s.len() > 0 {
        lemma_tied_empty(k, s.drop_first());
    }
}

/// Appending one element extends at most the subsequence of its own key.
proof fn lemma_tied_push(k: u64, s: Seq<Keyed>, x: Keyed)
    ensures
        tied(k, s.push(x)) == if x.key == k {
            tied(k, s).push(x)
        } else {
            tied(k, s)
        },
    decreases s.len(),
{
    if s.len() == 0 {
        assert(s.push(x).drop_first() =~= Seq::<Keyed>::empty());
        assert(tied(k, Seq::<Keyed>::empty()) == Seq::<Keyed>::empty());
        if x.key == k {
            assert(tied(k, s.push(x)) =~= seq![x]);
            assert(tied(k, s).push(x) =~= seq![x]);
        } else {
            assert(tied(k, s.push(x)) =~= Seq::<Keyed>::empty());
        }
    } else {
        assert(s.push(x).drop_first() =~= s.drop_first().push(x));
        lemma_tied_push(k, s.drop_first(), x);
        if x.key == k {
            assert(seq![s[0]] + tied(k, s.drop_first()).push(x) =~= (seq![s[0]] + tied(
                k,
                s.drop_first(),
            )).push(x));
        }
    }
}

/// A stable insertion into a ranked sequence puts the new element behind
/// every earlier one with its key, and leaves every other key's
/// subsequence alone.
proof fn lemma_insert_tied(desc: bool, x: Keyed, s: Seq<Keyed>, k: u64)
    requires
        sorted_keyed(desc, s),
    ensures
        tied(k, insert_keyed(desc, x, s)) == if x.key == k {
            tied(k, s).push(x)
        } else {
            tied(k, s)
        },
    decreases s.len(),
{
    if s.len() == 0 {
        assert(s =~= Seq::<Keyed>::empty());
        assert(seq![x].drop_first() =~= Seq::<Keyed>::empty());
        assert(tied(k, Seq::<Keyed>::empty()) == Seq::<Keyed>::empty());
        if x.key == k {
            assert(tied(k, seq![x]) =~= seq![x]);
            assert(tied(k, s).push(x) =~= seq![x]);
        } else {
            assert(tied(k, seq![x]) =~= Seq::<Keyed>::empty());
        }
    } else if before(desc, x.key, s[0].key) {
        let r = seq![x] + s;
        assert(r.drop_first() =~= s);
        // the ordering leaves no room for an element tying with `x`
        assert forall|m: int| 0 <= m < s.len() implies #[trigger] s[m].key != x.key by {
            assert(!before(desc, s[m].key, s[0].key));
        }
        if x.key == k {
            lemma_tied_empty(k, s);
            assert(tied(k, r) =~= tied(k, s).push(x));
        }
    } else {
        assert(sorted_keyed(desc, s.drop_first()));
        lemma_insert_tied(desc, x, s.drop_first(), k);
        let rest = insert_keyed(desc, x, s.drop_first());
        let r = seq![s[0]] + rest;
        assert(r.drop_first() =~= rest);
        if x.key == k && s[0].key == k {
            assert(seq![s[0]] + tied(k, s.drop_first()).push(x) =~= (seq![s[0]] + tied(
                k,
                s.drop_first(),
            )).push(x));
        }
    }
}

/// Law: the ranking's tie-break is stable. For every key, the elements
/// carrying it appear in the ranked output in exactly their original,
/// chronological order: ties resolve to the earlier-occurring entry first.
pub proof fn lemma_rank_stable(desc: bool, s: Seq<Keyed>, k: u64)
    ensures
        tied(k, sort_keyed(desc, s)) == tied(k, s),
    decreases s.len(),
{
    if s.len() > 0 {
        let head = s.drop_last();
        lemma_rank_stable(desc, head, k);
        lemma_sort_keyed_sorted(desc, head);
        lemma_insert_tied(desc, s.last(), sort_keyed(desc, head), k);
        lemma_tied_push(k, head, s.last());
        assert(head.push(s.last()) =~= s);
    }
}

/// Every key ties with every other.
pub open spec fn all_ties(s: Seq<Keyed>) -> bool {
    forall|i: int, j: int| 0 <= i < j < s.len() ==> s[i].key == s[j].key
}

/// Law: the ranking's tie-break keeps chronological order. When every key
/// ties, ranking in either direction returns the input order unchanged:
/// an element is never placed before an earlier one with an equal key.
pub proof fn lemma_rank_ties_keep_order(desc: bool, s: Seq<Keyed>)
    requires
        all_ties(s),
    ensures
        sort_keyed(desc, s) == s,
    decreases s.len(),
{
    if s.len() > 0 {
        let head = s.drop_last();
        assert(all_ties(head));
        lemma_rank_ties_keep_order(desc, head);
        assert forall|k: int| 0 <= k < head.len() implies !before(
            desc,
            s.last().key,
            #[trigger] head[k].key,
        ) by {
            if k < s.len() - 1 {
                assert(s[k].key == s[s.len() - 1].key);
            }
        }
        crate::rank::lemma_insert_keyed_at(desc, s.last(), head, head.len() as int);
        assert(head.insert(head.len() as int, s.last()) =~= s);
    }
}

/// Law: statistics derivation is deterministic. `compute_statistics`
/// promises a bundle whose content is a function of the log alone, so two
/// bundles computed from the same unmodified log are identical, byte for
/// byte.
pub proof fn lemma_statistics_idempotent(a: Stats, b: Stats, log: EventLog)
    requires
        a@ == spec_statistics(log.first_kind, log.entries@),
        b@ == spec_statistics(log.first_kind, log.entries@),
    ensures
        a@ == b@,
{
}

} // verus!

//! Gap-based event grouping: photos sorted by capture time break into a new
//! event whenever the gap to the previous photo exceeds the threshold
//! (default 2 hours).
use vstd::prelude::*;
use vstd::relations::{sorted_by, total_ordering};
use crate::sort::merge_sort_by;

verus! {

/// Default event gap: two hours.
pub const DEFAULT_EVENT_GAP_SECS: i64 = 7200;

/// Chronological order on `(id, captured_at)` pairs, id as tiebreak.
pub open spec fn chrono_le(a: (i64, i64), b: (i64, i64)) -> bool {
    a.1 < b.1 || (a.1 == b.1 && a.0 <= b.0)
}

/// Splits a chronological sequence into events: a new event starts whenever
/// the gap to the previous photo exceeds `gap_secs`.
pub open spec fn split_events(sorted: Seq<(i64, i64)>, gap_secs: i64) -> Seq<Seq<i64>>
    decreases sorted.len(),
{
    if sorted.len() == 0 {
        Seq::empty()
    } else {
        let n = sorted.len();
        let prev = split_events(sorted.drop_last(), gap_secs);
        let x = sorted[n - 1];
        if n >= 2 && x.1 - sorted[n - 2].1 <= gap_secs {
            prev.update(prev.len() - 1, prev.last().push(x.0))
        } else {
            prev.push(seq![x.0])
        }
    }
}

/// The events of a set of `(id, captured_at)` pairs.
pub open spec fn gap_groups_spec(times: Seq<(i64, i64)>, gap_secs: i64) -> Seq<Seq<i64>> {
    split_events(times.sort_by(|a: (i64, i64), b: (i64, i64)| chrono_le(a, b)), gap_secs)
}

proof fn lemma_chrono_order()
    ensures
        total_ordering(|a: (i64, i64), b: (i64, i64)| chrono_le(a, b)),
{
}

proof fn lemma_split_nonempty(sorted: Seq<(i64, i64)>, gap_secs: i64)
    requires
        sorted.len() > 0,
    ensures
        split_events(sorted, gap_secs).len() > 0,
    decreases sorted.len(),
{
    let n = sorted.len();
    if n >= 2 && sorted[n - 1].1 - sorted[n - 2].1 <= gap_secs {
        lemma_split_nonempty(sorted.drop_last(), gap_secs);
    }
}

/// Groups `(id, captured_at)` pairs into events. Every dated photo lands in
/// exactly one group (singletons included); ids keep chronological order
/// within a group; groups come back chronological.
pub fn gap_groups(times: &[(i64, i64)], gap_secs: i64) -> (groups: Vec<Vec<i64>>)
    ensures
        groups@.map_values(|g: Vec<i64>| g@) == gap_groups_spec(times@, gap_secs),
{
    let mut copy: Vec<(i64, i64)> = Vec::new();
    let mut k: usize = 0;
    while k < times.len()
        invariant
            k <= times@.len(),
            copy@ == times@.take(k as int),
        decreases times@.len() - k,
    {
        copy.push(times[k]);
        k += 1;
        proof {
            assert(copy@ =~= times@.take(k as int));
        }
    }
    proof {
        assert(copy@ =~= times@);
        lemma_chrono_order();
    }
    let ghost leq = |a: (i64, i64), b: (i64, i64)| chrono_le(a, b);
    let sorted = merge_sort_by(
        copy,
        &|a: &(i64, i64), b: &(i64, i64)| -> (r: bool)
            ensures r == chrono_le(*a, *b)
        {
            a.1 < b.1 || (a.1 == b.1 && a.0 <= b.0)
        },
        Ghost(leq),
    );
    proof {
        times@.lemma_sort_by_ensures(leq);
        vstd::seq_lib::lemma_sorted_unique(sorted@, times@.sort_by(leq), leq);
        assert forall|i: int| 0 <= i < sorted@.len() implies times@.contains(#[trigger] sorted@[i]) by {
            vstd::seq_lib::to_multiset_contains(sorted@, sorted@[i]);
            vstd::seq_lib::to_multiset_contains(times@, sorted@[i]);
        }
    }
    let mut groups: Vec<Vec<i64>> = Vec::new();
    let n = sorted.len();
    let mut i: usize = 0;
    while i < n
        invariant
            n == sorted@.len(),
            i <= n,
            sorted@ == times@.sort_by(leq),
            forall|a: int| 0 <= a < sorted@.len() ==> times@.contains(#[trigger] sorted@[a]),
            sorted_by(sorted@, leq),
            groups@.map_values(|g: Vec<i64>| g@) == split_events(sorted@.take(i as int), gap_secs),
        decreases n - i,
    {
        let (id, at) = sorted[i];
        let ghost prev = groups@.map_values(|g: Vec<i64>| g@);
        proof {
            assert(sorted@.take(i + 1).drop_last() =~= sorted@.take(i as int));
            assert(sorted@.take(i + 1)[i as int] == sorted@[i as int]);
        }
        let joins = if i > 0 {
            let prev_at = sorted[i - 1].1;
            proof {
                assert(sorted@.take(i + 1)[i - 1] == sorted@[i - 1]);
            }
            (at as i128) - (prev_at as i128) <= gap_secs as i128
        } else {
            false
        };
        if joins {
            proof {
                lemma_split_nonempty(sorted@.take(i as int), gap_secs);
            }
            let last = groups.len() - 1;
            groups[last].push(id);
            proof {
                assert(groups@.map_values(|g: Vec<i64>| g@) =~= prev.update(prev.len() - 1, prev.last().push(id)));
            }
        } else {
            let mut g: Vec<i64> = Vec::new();
            g.push(id);
            groups.push(g);
            proof {
                assert(groups@.map_values(|g: Vec<i64>| g@) =~= prev.push(seq![id]));
            }
        }
        i += 1;
    }
    proof {
        assert(sorted@.take(n as int) =~= sorted@);
    }
    groups
}

/// The groups laid end to end.
pub open spec fn flatten(groups: Seq<Seq<i64>>) -> Seq<i64>
    decreases groups.len(),
{
    if groups.len() == 0 {
        Seq::empty()
    } else {
        flatten(groups.drop_last()) + groups.last()
    }
}

proof fn lemma_split_flatten(sorted: Seq<(i64, i64)>, gap_secs: i64)
    ensures
        flatten(split_events(sorted, gap_secs)) == sorted.map_values(|x: (i64, i64)| x.0),
        forall|k: int| 0 <= k < split_events(sorted, gap_secs).len() ==> (#[trigger] split_events(sorted, gap_secs)[k]).len() > 0,
    decreases sorted.len(),
{
    if sorted.len() > 0 {
        let n = sorted.len();
        let prev = split_events(sorted.drop_last(), gap_secs);
        let x = sorted[n - 1];
        lemma_split_flatten(sorted.drop_last(), gap_secs);
        assert(sorted.map_values(|x: (i64, i64)| x.0) =~= sorted.drop_last().map_values(|x: (i64, i64)| x.0).push(x.0));
        if n >= 2 && x.1 - sorted[n - 2].1 <= gap_secs {
            lemma_split_nonempty(sorted.drop_last(), gap_secs);
            let next = prev.update(prev.len() - 1, prev.last().push(x.0));
            assert(next.drop_last() =~= prev.drop_last());
            assert(flatten(prev) == flatten(prev.drop_last()) + prev.last());
            assert(flatten(next) =~= flatten(prev).push(x.0));
            assert forall|k: int| 0 <= k < next.len() implies (#[trigger] next[k]).len() > 0 by {
                if k < next.len() - 1 {
                    assert(next[k] == prev[k]);
                }
            }
        } else {
            let next = prev.push(seq![x.0]);
            assert(next.drop_last() =~= prev);
            assert(flatten(next) =~= flatten(prev).push(x.0));
            assert forall|k: int| 0 <= k < next.len() implies (#[trigger] next[k]).len() > 0 by {
                if k < next.len() - 1 {
                    assert(next[k] == prev[k]);
                }
            }
        }
    }
}

/// Every dated photo lands in exactly one event: the events, laid end to
/// end, are the ids in chronological order, and no event is empty.
pub proof fn lemma_events_partition_the_photos(times: Seq<(i64, i64)>, gap_secs: i64)
    ensures
        flatten(gap_groups_spec(times, gap_secs)) == times.sort_by(|a: (i64, i64), b: (i64, i64)| chrono_le(a, b)).map_values(
            |x: (i64, i64)| x.0,
        ),
        forall|k: int| 0 <= k < gap_groups_spec(times, gap_secs).len() ==> (#[trigger] gap_groups_spec(times, gap_secs)[k]).len() > 0,
{
    lemma_split_flatten(times.sort_by(|a: (i64, i64), b: (i64, i64)| chrono_le(a, b)), gap_secs);
}

} // verus!

//! Chronological ordering of table rows.

use crate::time::Timestamp;
use vstd::prelude::*;

verus! {

/// The order of sort keys: by seconds, then by nanoseconds, then by place.
pub open spec fn key_at_or_before(a: (i64, u32, usize), b: (i64, u32, usize)) -> bool {
    a.0 < b.0 || (a.0 == b.0 && (a.1 < b.1 || (a.1 == b.1 && a.2 <= b.2)))
}

/// Trusted: `sort` of the standard library's slices, which puts the items in
/// ascending order and keeps all of them. Tuples of integers are ordered
/// field by field, the first field counting most.
#[verifier::external_body]
fn sort_keys(v: &mut Vec<(i64, u32, usize)>)
    ensures
        final(v)@.to_multiset() == old(v)@.to_multiset(),
        forall|i: int, j: int|
            0 <= i <= j < final(v)@.len() ==> key_at_or_before(
                #[trigger] final(v)@[i],
                #[trigger] final(v)@[j],
            ),
{
    v.sort()
}

/// Whether `order` lists the places `0..times.len()`, each once, so that the
/// instants at those places never go back in time and instants that are
/// equal keep the order of their places.
pub open spec fn is_chronological(times: Seq<Timestamp>, order: Seq<usize>) -> bool {
    &&& order.len() == times.len()
    &&& forall|i: int| 0 <= i < order.len() ==> (#[trigger] order[i]) < times.len()
    &&& forall|i: int, j: int|
        0 <= i < j < order.len() ==> (#[trigger] order[i]) != (#[trigger] order[j])
    &&& forall|i: int, j: int|
        0 <= i < j < order.len() ==> times[(#[trigger] order[i]) as int].at_or_before(
            times[(#[trigger] order[j]) as int],
        )
    &&& forall|i: int, j: int|
        0 <= i < j < order.len() && times[(#[trigger] order[i]) as int] == times[(
        #[trigger] order[j]) as int] ==> order[i] < order[j]
}

/// The key of the instant at a place.
pub open spec fn key_of(times: Seq<Timestamp>, place: int) -> (i64, u32, usize) {
    (times[place].secs, times[place].nanos, place as usize)
}

/// The keys of all instants, in the order of their places.
pub open spec fn keys_of(times: Seq<Timestamp>) -> Seq<(i64, u32, usize)> {
    Seq::new(times.len(), |i: int| key_of(times, i))
}

/// The places of sorted keys are a chronological order of the instants.
proof fn lemma_sorted_keys_are_chronological(
    times: Seq<Timestamp>,
    sorted: Seq<(i64, u32, usize)>,
    order: Seq<usize>,
)
    requires
        times.len() <= usize::MAX,
        sorted.to_multiset() == keys_of(times).to_multiset(),
        forall|i: int, j: int|
            0 <= i <= j < sorted.len() ==> key_at_or_before(
                #[trigger] sorted[i],
                #[trigger] sorted[j],
            ),
        order.len() == sorted.len(),
        forall|i: int| 0 <= i < order.len() ==> #[trigger] order[i] == sorted[i].2,
    ensures
        is_chronological(times, order),
{
    broadcast use vstd::seq_lib::to_multiset_contains;

    let keys = keys_of(times);
    vstd::seq_lib::to_multiset_len(sorted);
    vstd::seq_lib::to_multiset_len(keys);
    assert(sorted.len() == keys.len());
    assert forall|i: int| 0 <= i < sorted.len() implies (#[trigger] sorted[i]).2 < times.len()
        && sorted[i] == key_of(times, sorted[i].2 as int) by {
        assert(sorted.contains(sorted[i]));
        assert(sorted.to_multiset().count(sorted[i]) > 0);
        assert(keys.contains(sorted[i]));
        let p = choose|p: int| 0 <= p < keys.len() && keys[p] == sorted[i];
        assert(keys[p] == key_of(times, p));
    }
    assert(keys.no_duplicates()) by {
        assert forall|i: int, j: int|
            0 <= i < keys.len() && 0 <= j < keys.len() && i != j implies keys[i] != keys[j] by {
            assert(keys[i].2 == i);
            assert(keys[j].2 == j);
        }
    }
    keys.lemma_multiset_has_no_duplicates();
    sorted.lemma_multiset_has_no_duplicates_conv();
    assert forall|i: int, j: int| 0 <= i < j < order.len() implies (#[trigger] order[i]) != (
    #[trigger] order[j]) by {
        assert(sorted[i] != sorted[j]);
        assert(sorted[i] == key_of(times, sorted[i].2 as int));
        assert(sorted[j] == key_of(times, sorted[j].2 as int));
    }
    assert forall|i: int, j: int| 0 <= i < j < order.len() implies times[(
    #[trigger] order[i]) as int].at_or_before(times[(#[trigger] order[j]) as int]) by {
        assert(key_at_or_before(sorted[i], sorted[j]));
        assert(sorted[i] == key_of(times, sorted[i].2 as int));
        assert(sorted[j] == key_of(times, sorted[j].2 as int));
    }
    assert forall|i: int, j: int|
        0 <= i < j < order.len() && times[(#[trigger] order[i]) as int] == times[(
        #[trigger] order[j]) as int] implies order[i] < order[j] by {
        assert(key_at_or_before(sorted[i], sorted[j]));
        assert(sorted[i] == key_of(times, sorted[i].2 as int));
        assert(sorted[j] == key_of(times, sorted[j].2 as int));
        assert(order[i] != order[j]);
    }
}

/// The order in which to read rows so that their instants ascend; rows of
/// one instant stay in the order they had.
pub fn chronological_order(times: &Vec<Timestamp>) -> (order: Vec<usize>)
    ensures
        is_chronological(times@, order@),
{
    let n = times.len();
    let mut keys: Vec<(i64, u32, usize)> = Vec::new();
    let mut i: usize = 0;
    while i < n
        invariant
            i <= n,
            n == times.len(),
            keys@ == keys_of(times@).take(i as int),
        decreases n - i,
    {
        keys.push((times[i].secs, times[i].nanos, i));
        assert(keys@ == keys_of(times@).take(i + 1));
        i += 1;
    }
    assert(keys@ == keys_of(times@));
    sort_keys(&mut keys);
    proof {
        vstd::seq_lib::to_multiset_len(keys@);
        vstd::seq_lib::to_multiset_len(keys_of(times@));
        assert(keys@.len() == n);
    }
    let mut order: Vec<usize> = Vec::new();
    let mut j: usize = 0;
    while j < n
        invariant
            j <= n,
            n == keys.len(),
            order.len() == j,
            forall|k: int| 0 <= k < j ==> #[trigger] order@[k] == keys@[k].2,
        decreases n - j,
    {
        order.push(keys[j].2);
        j += 1;
    }
    proof {
        lemma_sorted_keys_are_chronological(times@, keys@, order@);
    }
    order
}

/// The instants at the given places, in the order of `order`.
pub open spec fn reordered_times(times: Seq<Timestamp>, order: Seq<usize>) -> Seq<Timestamp> {
    Seq::new(order.len(), |i: int| times[order[i] as int])
}

/// Whether a run of instants never goes back in time.
pub open spec fn ascending(times: Seq<Timestamp>) -> bool {
    forall|i: int, j: int|
        0 <= i < j < times.len() ==> (#[trigger] times[i]).at_or_before(#[trigger] times[j])
}

/// Instants that are read in a chronological order ascend.
pub proof fn lemma_chronological_ascends(times: Seq<Timestamp>, order: Seq<usize>)
    requires
        is_chronological(times, order),
    ensures
        ascending(reordered_times(times, order)),
{
    let r = reordered_times(times, order);
    assert forall|i: int, j: int| 0 <= i < j < r.len() implies (#[trigger] r[i]).at_or_before(
        #[trigger] r[j],
    ) by {
        assert(times[order[i] as int].at_or_before(times[order[j] as int]));
    }
}

} // verus!

//! An index from the ids of objects to the objects that have them.

use crate::ocel::{object_type_of, views, OCELObject, OCELObjectView};
use std::collections::HashMap;
use vstd::prelude::*;

verus! {

broadcast use vstd::std_specs::hash::group_hash_axioms;

/// A number made of the characters of a text: equal texts give equal
/// numbers.
pub open spec fn text_hash(s: Seq<char>) -> u64
    decreases s.len(),
{
    if s.len() == 0 {
        0
    } else {
        ((text_hash(s.drop_last()) as int * 31 + s.last() as u32 as int)
            % 0x1fff_ffff_ffff_ffff) as u64
    }
}

/// Computes the number of a text.
pub fn hash_text(s: &str) -> (h: u64)
    ensures
        h == text_hash(s@),
{
    let mut h: u64 = 0;
    assert(s@.take(0) == Seq::<char>::empty());
    for c in it: s.chars()
        invariant
            it.seq() == s@,
            h == text_hash(s@.take(it.index() as int)),
            h < 0x1fff_ffff_ffff_ffff,
    {
        proof {
            let next = s@.take(it.index() + 1);
            assert(next.drop_last() == s@.take(it.index() as int));
            assert(next.last() == c);
        }
        h = ((h as u128 * 31 + c as u32 as u128) % 0x1fff_ffff_ffff_ffff) as u64;
    }
    assert(s@.take(s@.len() as int) == s@);
    h
}

/// The places among the first `n` objects of those whose id has the number
/// `h`, in ascending order.
pub open spec fn places_of(objects: Seq<OCELObjectView>, h: u64, n: int) -> Seq<usize>
    decreases n,
{
    if n <= 0 || n > objects.len() {
        Seq::empty()
    } else if text_hash(objects[n - 1].id) == h {
        places_of(objects, h, n - 1).push((n - 1) as usize)
    } else {
        places_of(objects, h, n - 1)
    }
}

/// The type of the last of the first `k` of the listed objects that has the
/// given id.
pub open spec fn type_among(objects: Seq<OCELObjectView>, id: Seq<char>, places: Seq<usize>, k: int)
    -> Option<Seq<char>>
    decreases k,
{
    if k <= 0 || k > places.len() {
        None
    } else if objects[places[k - 1] as int].id == id {
        Some(objects[places[k - 1] as int].object_type)
    } else {
        type_among(objects, id, places, k - 1)
    }
}

/// The places listed for a number are places of objects.
pub proof fn lemma_places_in_range(objects: Seq<OCELObjectView>, h: u64, n: int, k: int)
    requires
        0 <= n <= objects.len() <= usize::MAX,
        0 <= k < places_of(objects, h, n).len(),
    ensures
        places_of(objects, h, n)[k] < n,
    decreases n,
{
    if n > 0 {
        if k < places_of(objects, h, n - 1).len() {
            lemma_places_in_range(objects, h, n - 1, k);
        }
    }
}

/// What is found among the first `k` places does not depend on the places
/// after them.
proof fn lemma_type_among_prefix(
    objects: Seq<OCELObjectView>,
    id: Seq<char>,
    first: Seq<usize>,
    all: Seq<usize>,
    k: int,
)
    requires
        0 <= k <= first.len() <= all.len(),
        forall|i: int| 0 <= i < first.len() ==> first[i] == all[i],
    ensures
        type_among(objects, id, first, k) == type_among(objects, id, all, k),
    decreases k,
{
    if k > 0 {
        lemma_type_among_prefix(objects, id, first, all, k - 1);
    }
}

/// Looking among the places listed for the number of an id finds what
/// looking among all objects finds.
pub proof fn lemma_type_among_places(objects: Seq<OCELObjectView>, id: Seq<char>, n: int)
    requires
        0 <= n <= objects.len() <= usize::MAX,
    ensures
        type_among(
            objects,
            id,
            places_of(objects, text_hash(id), n),
            places_of(objects, text_hash(id), n).len() as int,
        ) == object_type_of(objects, id, n),
    decreases n,
{
    if n > 0 {
        let h = text_hash(id);
        let before = places_of(objects, h, n - 1);
        let now = places_of(objects, h, n);
        lemma_type_among_places(objects, id, n - 1);
        if text_hash(objects[n - 1].id) == h {
            assert(now == before.push((n - 1) as usize));
            assert(now[now.len() - 1] == (n - 1) as usize);
            lemma_type_among_prefix(objects, id, before, now, before.len() as int);
            if objects[n - 1].id != id {
                assert(type_among(objects, id, now, now.len() as int) == type_among(
                    objects,
                    id,
                    now,
                    now.len() - 1,
                ));
            }
        } else {
            assert(now == before);
            assert(objects[n - 1].id != id);
        }
    }
}

/// The places that a map lists for a number: none where it has no entry
/// for the number.
pub open spec fn listed(places: Map<u64, Vec<usize>>, h: u64) -> Seq<usize> {
    if places.contains_key(h) {
        places[h]@
    } else {
        Seq::empty()
    }
}

/// An index of objects by id.
pub(crate) struct ObjectIndex {
    places: HashMap<u64, Vec<usize>>,
}

impl ObjectIndex {
    /// Whether this is the index of the first `n` of the given objects.
    pub(crate) closed spec fn indexes(&self, objects: Seq<OCELObjectView>, n: int) -> bool {
        forall|h: u64| #[trigger] listed(self.places@, h) == places_of(objects, h, n)
    }

    /// An index of no objects.
    pub(crate) fn empty() -> (r: Self)
        ensures
            forall|objects: Seq<OCELObjectView>| #[trigger] r.indexes(objects, 0),
    {
        ObjectIndex { places: HashMap::new() }
    }

    /// The index of the given objects.
    pub(crate) fn new(objects: &Vec<OCELObject>) -> (r: Self)
        ensures
            r.indexes(views(objects@), objects@.len() as int),
    {
        let mut places: HashMap<u64, Vec<usize>> = HashMap::new();
        let mut i: usize = 0;
        while i < objects.len()
            invariant
                i <= objects.len(),
                forall|h: u64|
                    #[trigger] listed(places@, h) == places_of(views(objects@), h, i as int),
            decreases objects.len() - i,
        {
            let here = hash_text(objects[i].id.as_str());
            let ghost before = places@;
            let mut list = match places.remove(&here) {
                Some(list) => list,
                None => Vec::new(),
            };
            assert(list@ == listed(before, here));
            list.push(i);
            places.insert(here, list);
            assert forall|h: u64| #[trigger]
                listed(places@, h) == places_of(views(objects@), h, i + 1) by {
                assert(listed(before, h) == places_of(views(objects@), h, i as int));
                if h != here {
                    assert(places@.contains_key(h) == before.contains_key(h));
                    if before.contains_key(h) {
                        assert(places@[h] == before[h]);
                    }
                }
            }
            i += 1;
        }
        ObjectIndex { places }
    }

    /// The type of the object of the given id: that of the last one, where
    /// several share the id.
    pub(crate) fn type_of(&self, objects: &Vec<OCELObject>, id: &String) -> (r: Option<String>)
        requires
            self.indexes(views(objects@), objects@.len() as int),
        ensures
            match r {
                Some(t) => object_type_of(views(objects@), id@, objects@.len() as int) == Some(t@),
                None => object_type_of(views(objects@), id@, objects@.len() as int).is_none(),
            },
    {
        let here = hash_text(id.as_str());
        let count = objects.len();
        proof {
            lemma_type_among_places(views(objects@), id@, objects@.len() as int);
        }
        assert(listed(self.places@, here) == places_of(views(objects@), here, objects@.len() as int));
        match self.places.get(&here) {
            None => None,
            Some(list) => {
                let ghost all = places_of(views(objects@), here, objects@.len() as int);
                assert(list@ == all);
                let mut k: usize = list.len();
                while k > 0
                    invariant
                        k <= list.len(),
                        list@ == all,
                        count == objects@.len(),
                        type_among(views(objects@), id@, all, all.len() as int) == object_type_of(
                            views(objects@),
                            id@,
                            objects@.len() as int,
                        ),
                        all == places_of(views(objects@), here, objects@.len() as int),
                        type_among(views(objects@), id@, all, all.len() as int) == type_among(
                            views(objects@),
                            id@,
                            all,
                            k as int,
                        ),
                    decreases k,
                {
                    proof {
                        lemma_places_in_range(
                            views(objects@),
                            here,
                            objects@.len() as int,
                            k as int - 1,
                        );
                    }
                    let place = list[k - 1];
                    if objects[place].id == *id {
                        return Some(objects[place].object_type.clone());
                    }
                    k -= 1;
                }
                None
            },
        }
    }
}

} // verus!

//! Rows of a flattened two-level collection: one row for each inner item of
//! each outer item, outer items first.

use vstd::prelude::*;

verus! {

/// The sum of a run of counts.
pub open spec fn total(counts: Seq<nat>) -> nat
    decreases counts.len(),
{
    if counts.len() == 0 {
        0
    } else {
        total(counts.drop_last()) + counts.last()
    }
}

/// The rows of a collection whose outer item `i` holds `counts[i]` inner
/// items: the pairs `(i, j)` with `j < counts[i]`, ordered by `i`, then `j`.
pub open spec fn row_pairs(counts: Seq<nat>) -> Seq<(int, int)>
    decreases counts.len(),
{
    if counts.len() == 0 {
        Seq::empty()
    } else {
        row_pairs(counts.drop_last()) + Seq::new(
            counts.last(),
            |j: int| (counts.len() - 1, j),
        )
    }
}

/// There are as many rows as inner items in all.
pub proof fn lemma_row_count(counts: Seq<nat>)
    ensures
        row_pairs(counts).len() == total(counts),
    decreases counts.len(),
{
    if counts.len() > 0 {
        lemma_row_count(counts.drop_last());
    }
}

/// Every row names an inner item that exists.
pub proof fn lemma_rows_in_range(counts: Seq<nat>, r: int)
    requires
        0 <= r < row_pairs(counts).len(),
    ensures
        0 <= row_pairs(counts)[r].0 < counts.len(),
        0 <= row_pairs(counts)[r].1 < counts[row_pairs(counts)[r].0],
    decreases counts.len(),
{
    if counts.len() > 0 {
        let before = row_pairs(counts.drop_last());
        if r < before.len() {
            lemma_rows_in_range(counts.drop_last(), r);
        }
    }
}

/// The row of inner item `j` of outer item `i` comes after all rows of the
/// outer items before `i`, at distance `j`.
pub proof fn lemma_row_position(counts: Seq<nat>, i: int, j: int)
    requires
        0 <= i < counts.len(),
        0 <= j < counts[i],
    ensures
        total(counts.take(i)) + j < row_pairs(counts).len(),
        row_pairs(counts)[total(counts.take(i)) + j] == (i, j),
    decreases counts.len(),
{
    let before = row_pairs(counts.drop_last());
    lemma_row_count(counts.drop_last());
    if i == counts.len() - 1 {
        assert(counts.take(i) == counts.drop_last());
    } else {
        lemma_row_position(counts.drop_last(), i, j);
        assert(counts.drop_last().take(i) == counts.take(i));
    }
}

/// Rows come in the order of their outer items, and those of one outer item
/// in the order of its inner items.
pub proof fn lemma_rows_ordered(counts: Seq<nat>, r1: int, r2: int)
    requires
        0 <= r1 < r2 < row_pairs(counts).len(),
    ensures
        row_pairs(counts)[r1].0 < row_pairs(counts)[r2].0 || (row_pairs(counts)[r1].0
            == row_pairs(counts)[r2].0 && row_pairs(counts)[r1].1 < row_pairs(counts)[r2].1),
    decreases counts.len(),
{
    if counts.len() > 0 {
        let before = row_pairs(counts.drop_last());
        if r2 < before.len() {
            lemma_rows_ordered(counts.drop_last(), r1, r2);
        } else if r1 < before.len() {
            lemma_rows_in_range(counts.drop_last(), r1);
        }
    }
}

/// The counts behind a run of machine numbers.
pub open spec fn counts_of(lens: Seq<usize>) -> Seq<nat> {
    Seq::new(lens.len(), |i: int| lens[i] as nat)
}

/// The rows as pairs of machine numbers.
pub open spec fn pairs_view(rows: Seq<(usize, usize)>) -> Seq<(int, int)> {
    Seq::new(rows.len(), |i: int| (rows[i].0 as int, rows[i].1 as int))
}

/// Lists the rows of a collection whose outer item `i` holds `lens[i]` inner
/// items.
pub fn list_rows(lens: &Vec<usize>) -> (rows: Vec<(usize, usize)>)
    ensures
        pairs_view(rows@) == row_pairs(counts_of(lens@)),
{
    let mut rows: Vec<(usize, usize)> = Vec::new();
    let mut i: usize = 0;
    assert(counts_of(lens@).take(0) == Seq::<nat>::empty());
    assert(pairs_view(rows@) == Seq::<(int, int)>::empty());
    while i < lens.len()
        invariant
            i <= lens.len(),
            pairs_view(rows@) == row_pairs(counts_of(lens@).take(i as int)),
        decreases lens.len() - i,
    {
        let n = lens[i];
        let ghost before = rows@;
        let ghost next = counts_of(lens@).take(i + 1);
        assert(next.drop_last() == counts_of(lens@).take(i as int));
        assert(next.last() == n as nat);
        let mut j: usize = 0;
        while j < n
            invariant
                j <= n,
                i < lens.len(),
                rows@.len() == before.len() + j,
                pairs_view(rows@) == pairs_view(before) + Seq::new(
                    j as nat,
                    |k: int| (i as int, k),
                ),
            decreases n - j,
        {
            let ghost old_rows = rows@;
            rows.push((i, j));
            assert(pairs_view(rows@) == pairs_view(old_rows).push((i as int, j as int)));
            assert(Seq::new((j + 1) as nat, |k: int| (i as int, k)) == Seq::new(
                j as nat,
                |k: int| (i as int, k),
            ).push((i as int, j as int)));
            j += 1;
        }
        assert(Seq::new(n as nat, |k: int| (i as int, k)) == Seq::new(
            next.last(),
            |k: int| (next.len() - 1, k),
        ));
        i += 1;
    }
    assert(counts_of(lens@).take(lens.len() as int) == counts_of(lens@));
    rows
}

} // verus!

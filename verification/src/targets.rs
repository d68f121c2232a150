//! Ordering the squares that a piece looks at by their distance from it.

use vstd::prelude::*;

verus! {

/// A square that a piece looks at: its squared distance from the piece, and
/// the square.
pub type Target = (i32, usize);

/// `sorted` with `item` put in behind every entry whose distance is not
/// larger than its own.
pub open spec fn insert_sorted(sorted: Seq<Target>, item: Target) -> Seq<Target>
    decreases sorted.len(),
{
    if sorted.len() == 0 {
        seq![item]
    } else if sorted.last().0 <= item.0 {
        sorted.push(item)
    } else {
        insert_sorted(sorted.drop_last(), item).push(sorted.last())
    }
}

/// The entries of `items` in ascending order of distance; entries at the same
/// distance keep the order that they have in `items`.
pub open spec fn stable_sort(items: Seq<Target>) -> Seq<Target>
    decreases items.len(),
{
    if items.len() == 0 {
        items
    } else {
        insert_sorted(stable_sort(items.drop_last()), items.last())
    }
}

/// Whether the distances in `s` never decrease.
pub open spec fn ascending(s: Seq<Target>) -> bool {
    forall|i: int, j: int| 0 <= i <= j < s.len() ==> s[i].0 <= s[j].0
}

/// Putting an entry in at the place behind which all distances are larger,
/// and before which the distance is not, is the sorted insertion.
pub proof fn lemma_insert_position(sorted: Seq<Target>, item: Target, pos: int)
    requires
        0 <= pos <= sorted.len(),
        forall|j: int| pos <= j < sorted.len() ==> sorted[j].0 > item.0,
        pos == 0 || sorted[pos - 1].0 <= item.0,
    ensures
        insert_sorted(sorted, item) == sorted.insert(pos, item),
    decreases sorted.len(),
{
    if sorted.len() == 0 {
        assert(sorted.insert(pos, item) =~= seq![item]);
    } else if sorted.last().0 <= item.0 {
        assert(pos == sorted.len());
        assert(sorted.insert(pos, item) =~= sorted.push(item));
    } else {
        assert(pos < sorted.len());
        lemma_insert_position(sorted.drop_last(), item, pos);
        assert(sorted.drop_last().insert(pos, item).push(sorted.last()) =~= sorted.insert(
            pos,
            item,
        ));
    }
}

/// Sorted insertion keeps an ascending sequence ascending, adds one entry, and
/// holds the entries that were there and the new one.
pub proof fn lemma_insert_sorted(sorted: Seq<Target>, item: Target)
    requires
        ascending(sorted),
    ensures
        ascending(insert_sorted(sorted, item)),
        insert_sorted(sorted, item).len() == sorted.len() + 1,
        insert_sorted(sorted, item).to_multiset() == sorted.to_multiset().insert(item),
    decreases sorted.len(),
{
    broadcast use vstd::seq_lib::group_to_multiset_ensures;

    let r = insert_sorted(sorted, item);
    if sorted.len() == 0 {
        assert(r =~= Seq::<Target>::empty().push(item));
        assert(sorted =~= Seq::<Target>::empty());
    } else if sorted.last().0 <= item.0 {
    } else {
        let front = sorted.drop_last();
        assert(ascending(front));
        lemma_insert_sorted(front, item);
        let inner = insert_sorted(front, item);
        assert(sorted =~= front.push(sorted.last()));
        assert forall|i: int, j: int| 0 <= i <= j < r.len() implies r[i].0 <= r[j].0 by {
            if j == r.len() - 1 && i < j {
                // every entry of `inner` is the new one or one of `front`
                assert(inner.to_multiset().count(inner[i]) > 0);
                if inner[i] != item {
                    assert(front.to_multiset().count(inner[i]) > 0);
                    assert(front.contains(inner[i]));
                    let t = choose|t: int| 0 <= t < front.len() && front[t] == inner[i];
                    assert(sorted[t].0 <= sorted[sorted.len() - 1].0);
                }
            }
        }
    }
}

/// The sorted sequence is ascending and holds the same entries, each as often
/// as before.
pub proof fn lemma_stable_sort(items: Seq<Target>)
    ensures
        ascending(stable_sort(items)),
        stable_sort(items).len() == items.len(),
        stable_sort(items).to_multiset() == items.to_multiset(),
    decreases items.len(),
{
    broadcast use vstd::seq_lib::group_to_multiset_ensures;

    if items.len() > 0 {
        lemma_stable_sort(items.drop_last());
        lemma_insert_sorted(stable_sort(items.drop_last()), items.last());
        assert(items =~= items.drop_last().push(items.last()));
    }
}

/// The test whether a target is at the distance `d`.
pub open spec fn at_distance(d: i32) -> spec_fn(Target) -> bool {
    |t: Target| t.0 == d
}

/// Sorted insertion puts the new entry behind the entries at its own distance
/// and leaves the entries at every other distance as they are.
pub proof fn lemma_insert_keeps_order(sorted: Seq<Target>, item: Target, d: i32)
    ensures
        insert_sorted(sorted, item).filter(at_distance(d)) == if item.0 == d {
            sorted.filter(at_distance(d)).push(item)
        } else {
            sorted.filter(at_distance(d))
        },
    decreases sorted.len(),
{
    let p = at_distance(d);
    if sorted.len() == 0 {
        assert(seq![item] =~= sorted.push(item));
        sorted.lemma_filter_push(item, p);
    } else if sorted.last().0 <= item.0 {
        sorted.lemma_filter_push(item, p);
    } else {
        let front = sorted.drop_last();
        lemma_insert_keeps_order(front, item, d);
        insert_sorted(front, item).lemma_filter_push(sorted.last(), p);
        front.lemma_filter_push(sorted.last(), p);
        assert(sorted =~= front.push(sorted.last()));
    }
}

/// Sorting is stable: the targets at any one distance stand in the sorted
/// sequence in the order in which they were found.
pub proof fn lemma_sort_is_stable(items: Seq<Target>, d: i32)
    ensures
        stable_sort(items).filter(at_distance(d)) == items.filter(at_distance(d)),
    decreases items.len(),
{
    if items.len() > 0 {
        lemma_sort_is_stable(items.drop_last(), d);
        lemma_insert_keeps_order(stable_sort(items.drop_last()), items.last(), d);
        items.drop_last().lemma_filter_push(items.last(), at_distance(d));
        assert(items =~= items.drop_last().push(items.last()));
    }
}

/// Sorts the targets by distance, nearest first. Targets at the same distance
/// stay in the order in which they were found.
pub fn sort_by_distance(targets: &Vec<Target>) -> (sorted: Vec<Target>)
    ensures
        sorted@ == stable_sort(targets@),
{
    let mut out: Vec<Target> = Vec::with_capacity(targets.len());
    let mut i: usize = 0;
    while i < targets.len()
        invariant
            i <= targets.len(),
            out@ == stable_sort(targets@.take(i as int)),
            out@.len() == i,
        decreases targets.len() - i,
    {
        let item = targets[i];
        let mut pos: usize = out.len();
        while pos > 0 && out[pos - 1].0 > item.0
            invariant
                pos <= out.len(),
                forall|j: int| pos <= j < out@.len() ==> out@[j].0 > item.0,
            decreases pos,
        {
            pos = pos - 1;
        }
        proof {
            lemma_insert_position(out@, item, pos as int);
            let next = targets@.take(i as int + 1);
            assert(next.drop_last() =~= targets@.take(i as int));
            assert(next.last() == item);
        }
        out.insert(pos, item);
        i = i + 1;
    }
    proof {
        assert(targets@.take(targets@.len() as int) =~= targets@);
    }
    out
}

} // verus!

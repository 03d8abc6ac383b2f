//! Selections: what is left of a sequence when some of its items are dropped
//! and the others keep their order.

use vstd::prelude::*;

verus! {

/// The items of `full` at the positions where `keep` holds, in their order.
pub open spec fn pick<T>(full: Seq<T>, keep: Seq<bool>) -> Seq<T>
    recommends
        keep.len() == full.len(),
    decreases full.len(),
{
    if full.len() == 0 || keep.len() == 0 {
        Seq::empty()
    } else {
        let rest = pick(full.drop_last(), keep.drop_last());
        if keep.last() {
            rest.push(full.last())
        } else {
            rest
        }
    }
}

/// `part` is `full` with some items dropped: a subsequence of it.
pub open spec fn is_selection<T>(part: Seq<T>, full: Seq<T>) -> bool {
    exists|keep: Seq<bool>| keep.len() == full.len() && part == #[trigger] pick(full, keep)
}

/// Picking from one item more: the new item is appended where it is kept.
pub proof fn lemma_pick_push<T>(full: Seq<T>, keep: Seq<bool>, item: T, kept: bool)
    requires
        keep.len() == full.len(),
    ensures
        pick(full.push(item), keep.push(kept)) == if kept {
            pick(full, keep).push(item)
        } else {
            pick(full, keep)
        },
{
    assert(full.push(item).drop_last() =~= full);
    assert(keep.push(kept).drop_last() =~= keep);
}

/// Keeping every item gives the sequence itself.
pub proof fn lemma_pick_all<T>(full: Seq<T>)
    ensures
        pick(full, Seq::new(full.len(), |i: int| true)) == full,
        is_selection(full, full),
    decreases full.len(),
{
    let keep = Seq::new(full.len(), |i: int| true);
    if full.len() > 0 {
        lemma_pick_all(full.drop_last());
        assert(keep.drop_last() =~= Seq::new(full.drop_last().len(), |i: int| true));
    }
    assert(pick(full, keep) =~= full);
}

/// Filtering by a predicate is picking the items that satisfy it.
pub proof fn lemma_filter_is_pick<T>(full: Seq<T>, pred: spec_fn(T) -> bool)
    ensures
        full.filter(pred) == pick(full, full.map_values(pred)),
        is_selection(full.filter(pred), full),
    decreases full.len(),
{
    reveal(Seq::filter);
    if full.len() > 0 {
        lemma_filter_is_pick(full.drop_last(), pred);
        assert(full.map_values(pred).drop_last() =~= full.drop_last().map_values(pred));
    }
    assert(full.filter(pred) =~= pick(full, full.map_values(pred)));
}

/// Every item of a selection is an item of what it was taken from.
pub proof fn lemma_pick_contains<T>(full: Seq<T>, keep: Seq<bool>, item: T)
    requires
        keep.len() == full.len(),
        pick(full, keep).contains(item),
    ensures
        full.contains(item),
    decreases full.len(),
{
    if full.len() > 0 {
        let rest = pick(full.drop_last(), keep.drop_last());
        if keep.last() && full.last() == item {
            assert(full[full.len() - 1] == item);
        } else {
            let i = choose|i: int| 0 <= i < pick(full, keep).len() && pick(full, keep)[i] == item;
            assert(rest[i] == item);
            lemma_pick_contains(full.drop_last(), keep.drop_last(), item);
            let j = choose|j: int| 0 <= j < full.drop_last().len() && full.drop_last()[j] == item;
            assert(full[j] == item);
        }
    }
}

} // verus!

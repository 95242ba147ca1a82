//! Reordering by an explicit sequence of ids.
//!
//! The sequence lists ids from the top of the list to the bottom.  The
//! live items it names are placed above every item it does not name, in
//! the order of the sequence: the id in the last place gets the lowest of
//! the new positions, the one before it the next, and so on.  An id that
//! occurs more than once counts where it occurs last.  Ids of items that
//! are not live are passed over; the places they take in the sequence stay
//! empty.  Items the sequence does not name are not touched.

use vstd::prelude::*;
use crate::todos::batch::{
    assigned, batch_ids_distinct, lemma_assigned_by_pair, lemma_reassigned_positions_distinct,
    lemma_unnamed_is_unassigned, reassigned, valid_batch, with_position,
};
use crate::todos::model::{
    distinct_ids, distinct_positions, has_id, highest_position, lemma_highest_position,
    next_position, TodoView,
};
use crate::todos::plan::explicit_plan;
use crate::todos::removal::{lemma_survivors_agree, lemma_survivors_untouched, survivors};

verus! {

/// The last place at which `id` occurs in `ids`, or -1 if it occurs nowhere.
pub open spec fn last_index_of(ids: Seq<int>, id: int) -> int
    decreases ids.len(),
{
    if ids.len() == 0 {
        -1
    } else if ids.last() == id {
        ids.len() - 1
    } else {
        last_index_of(ids.drop_last(), id)
    }
}

/// The place the sequence gives to `id`, counted from the bottom of the
/// sequence and from the last place at which the id occurs.
pub open spec fn explicit_position(ids: Seq<int>, id: int) -> Option<int> {
    let k = last_index_of(ids, id);
    if k < 0 {
        None
    } else {
        Some(ids.len() - 1 - k)
    }
}

/// For each item, whether the sequence names it.
pub open spec fn listed(items: Seq<TodoView>, ids: Seq<int>) -> Seq<bool> {
    Seq::new(items.len(), |i: int| explicit_position(ids, items[i].id) is Some)
}

/// The position the bottom place of the sequence stands for: one above
/// every item the sequence does not name, or 0 where it names every item.
pub open spec fn reorder_base(items: Seq<TodoView>, ids: Seq<int>) -> int {
    next_position(survivors(items, listed(items, ids)))
}

/// Every position the sequence deals out to a live item fits in an `i32`.
pub open spec fn reorder_fits(items: Seq<TodoView>, ids: Seq<int>) -> bool {
    forall|i: int|
        0 <= i < items.len() ==> match explicit_position(ids, (#[trigger] items[i]).id) {
            Some(p) => reorder_base(items, ids) + p <= i32::MAX,
            None => true,
        }
}

/// The items after the sequence is applied: every live item the sequence
/// names stands at its place above the base, every other item is as it
/// was.
pub open spec fn reordered(items: Seq<TodoView>, ids: Seq<int>) -> Seq<TodoView> {
    Seq::new(
        items.len(),
        |i: int|
            match explicit_position(ids, items[i].id) {
                Some(p) => with_position(items[i], reorder_base(items, ids) + p),
                None => items[i],
            },
    )
}

/// The batch of a sequence whose bottom place stands for `base`: one pair
/// for every live item the sequence names, in the order the store keeps
/// the items.
pub open spec fn explicit_batch_from(items: Seq<TodoView>, ids: Seq<int>, base: int) -> Seq<
    (int, int),
>
    decreases items.len(),
{
    if items.len() == 0 {
        Seq::empty()
    } else {
        let rest = explicit_batch_from(items.drop_last(), ids, base);
        match explicit_position(ids, items.last().id) {
            Some(p) => rest.push((base + p, items.last().id)),
            None => rest,
        }
    }
}

/// The batch the sequence amounts to on these items.
pub open spec fn explicit_batch(items: Seq<TodoView>, ids: Seq<int>) -> Seq<(int, int)> {
    explicit_batch_from(items, ids, reorder_base(items, ids))
}

/// What the last place of an id is: the id stands there and at no later
/// place; an id without a last place stands nowhere.
pub proof fn lemma_last_index_of(ids: Seq<int>, id: int)
    ensures
        -1 <= last_index_of(ids, id) < ids.len(),
        last_index_of(ids, id) >= 0 ==> ids[last_index_of(ids, id)] == id,
        forall|k: int| last_index_of(ids, id) < k < ids.len() ==> ids[k] != id,
    decreases ids.len(),
{
    if ids.len() > 0 && ids.last() != id {
        let front = ids.drop_last();
        lemma_last_index_of(front, id);
        assert forall|k: int| last_index_of(ids, id) < k < ids.len() implies ids[k] != id by {
            if k < front.len() {
                assert(front[k] == ids[k]);
            }
        }
    }
}

/// In the plan of the sequence, the pair at the place of an id names it,
/// and no pair at a lower place does; an id without a place is named by no
/// pair.
pub proof fn lemma_explicit_position_in_plan(ids: Seq<int>, id: int)
    ensures
        match explicit_position(ids, id) {
            Some(p) => {
                &&& 0 <= p < ids.len()
                &&& explicit_plan(ids)[p] == (p, id)
                &&& forall|q: int| 0 <= q < p ==> explicit_plan(ids)[q].1 != id
            },
            None => forall|q: int| 0 <= q < ids.len() ==> explicit_plan(ids)[q].1 != id,
        },
{
    lemma_last_index_of(ids, id);
}

proof fn lemma_explicit_batch_member(items: Seq<TodoView>, ids: Seq<int>, base: int, k: int) -> (i:
    int)
    requires
        0 <= k < explicit_batch_from(items, ids, base).len(),
    ensures
        0 <= i < items.len(),
        explicit_batch_from(items, ids, base)[k].1 == items[i].id,
        explicit_position(ids, items[i].id) is Some,
        explicit_batch_from(items, ids, base)[k].0 == base + explicit_position(
            ids,
            items[i].id,
        )->0,
    decreases items.len(),
{
    let rest = explicit_batch_from(items.drop_last(), ids, base);
    if k < rest.len() {
        lemma_explicit_batch_member(items.drop_last(), ids, base, k)
    } else {
        items.len() - 1
    }
}

proof fn lemma_explicit_batch_covers(items: Seq<TodoView>, ids: Seq<int>, base: int, i: int) -> (k:
    int)
    requires
        0 <= i < items.len(),
        explicit_position(ids, items[i].id) is Some,
    ensures
        0 <= k < explicit_batch_from(items, ids, base).len(),
        explicit_batch_from(items, ids, base)[k] == (
            base + explicit_position(ids, items[i].id)->0,
            items[i].id,
        ),
    decreases items.len(),
{
    let rest = explicit_batch_from(items.drop_last(), ids, base);
    if i < items.len() - 1 {
        lemma_explicit_batch_covers(items.drop_last(), ids, base, i)
    } else {
        rest.len() as int
    }
}

proof fn lemma_explicit_batch_ids_distinct(items: Seq<TodoView>, ids: Seq<int>, base: int)
    requires
        distinct_ids(items),
    ensures
        batch_ids_distinct(explicit_batch_from(items, ids, base)),
        explicit_batch_from(items, ids, base).len() <= items.len(),
    decreases items.len(),
{
    if items.len() > 0 {
        let front = items.drop_last();
        let rest = explicit_batch_from(front, ids, base);
        lemma_explicit_batch_ids_distinct(front, ids, base);
        assert forall|k: int| 0 <= k < rest.len() implies rest[k].1 != items.last().id by {
            let i = lemma_explicit_batch_member(front, ids, base, k);
            assert(front[i] == items[i]);
        }
    }
}

/// Every item the sequence does not name stands below the base.
pub proof fn lemma_unlisted_below_base(items: Seq<TodoView>, ids: Seq<int>, i: int)
    requires
        0 <= i < items.len(),
        explicit_position(ids, items[i].id) is None,
    ensures
        items[i].position < reorder_base(items, ids),
{
    let flags = listed(items, ids);
    let unlisted = survivors(items, flags);
    lemma_survivors_untouched(items, flags);
    let k = choose|k: int| 0 <= k < unlisted.len() && #[trigger] unlisted[k] == items[i];
    lemma_highest_position(unlisted);
    assert(unlisted[k].position <= highest_position(unlisted));
}

/// What the batch of a sequence assigns: to every item the sequence names
/// its place above the base, to every other item nothing.
pub proof fn lemma_explicit_batch_assigns(items: Seq<TodoView>, ids: Seq<int>, base: int, i: int)
    requires
        distinct_ids(items),
        0 <= i < items.len(),
    ensures
        assigned(explicit_batch_from(items, ids, base), items[i].id) == match explicit_position(
            ids,
            items[i].id,
        ) {
            Some(p) => Some(base + p),
            None => None,
        },
{
    let batch = explicit_batch_from(items, ids, base);
    lemma_explicit_batch_ids_distinct(items, ids, base);
    if explicit_position(ids, items[i].id) is Some {
        let k = lemma_explicit_batch_covers(items, ids, base, i);
        lemma_assigned_by_pair(batch, k);
    } else {
        assert forall|k: int| 0 <= k < batch.len() implies #[trigger] batch[k].1
            != items[i].id by {
            let j = lemma_explicit_batch_member(items, ids, base, k);
        }
        lemma_unnamed_is_unassigned(batch, items[i].id);
    }
}

/// The batch of a sequence is one the store accepts, whatever the
/// sequence: it stays clear of every item it does not name.
pub proof fn lemma_explicit_batch_valid(items: Seq<TodoView>, ids: Seq<int>)
    requires
        distinct_ids(items),
    ensures
        valid_batch(items, explicit_batch(items, ids)),
        explicit_batch(items, ids).len() <= items.len(),
{
    let base = reorder_base(items, ids);
    let batch = explicit_batch(items, ids);
    lemma_explicit_batch_ids_distinct(items, ids, base);
    assert forall|k: int, l: int| 0 <= k < l < batch.len() implies batch[k].0 != batch[l].0 by {
        let i = lemma_explicit_batch_member(items, ids, base, k);
        let j = lemma_explicit_batch_member(items, ids, base, l);
        lemma_last_index_of(ids, items[i].id);
        lemma_last_index_of(ids, items[j].id);
    }
    assert forall|k: int| 0 <= k < batch.len() implies has_id(items, #[trigger] batch[k].1) by {
        let i = lemma_explicit_batch_member(items, ids, base, k);
    }
    assert forall|i: int, k: int|
        0 <= i < items.len() && 0 <= k < batch.len() && assigned(batch, items[i].id)
            is None implies #[trigger] items[i].position != #[trigger] batch[k].0 by {
        lemma_explicit_batch_assigns(items, ids, base, i);
        lemma_unlisted_below_base(items, ids, i);
        let j = lemma_explicit_batch_member(items, ids, base, k);
        lemma_last_index_of(ids, items[j].id);
    }
}

/// Applying the batch of a sequence is reordering by the sequence.
pub proof fn lemma_explicit_batch_reorders(items: Seq<TodoView>, ids: Seq<int>)
    requires
        distinct_ids(items),
    ensures
        reassigned(items, explicit_batch(items, ids)) == reordered(items, ids),
{
    let base = reorder_base(items, ids);
    let batch = explicit_batch(items, ids);
    assert forall|i: int| 0 <= i < items.len() implies reassigned(items, batch)[i] == reordered(
        items,
        ids,
    )[i] by {
        lemma_explicit_batch_assigns(items, ids, base, i);
    }
    assert(reassigned(items, batch) =~= reordered(items, ids));
}

/// Reordering leaves the base where it is: the items the sequence does not
/// name are the same before and after.
pub proof fn lemma_reordered_keeps_base(items: Seq<TodoView>, ids: Seq<int>)
    ensures
        listed(reordered(items, ids), ids) == listed(items, ids),
        reorder_base(reordered(items, ids), ids) == reorder_base(items, ids),
{
    let after = reordered(items, ids);
    assert(listed(after, ids) =~= listed(items, ids));
    lemma_survivors_agree(after, items, listed(items, ids), items.len() as int);
}

/// Reordering twice by the same sequence gives what reordering once gives,
/// and a sequence that fits once fits again.
pub proof fn lemma_reorder_idempotent(items: Seq<TodoView>, ids: Seq<int>)
    ensures
        reordered(reordered(items, ids), ids) == reordered(items, ids),
        reorder_fits(items, ids) ==> reorder_fits(reordered(items, ids), ids),
{
    lemma_reordered_keeps_base(items, ids);
    assert(reordered(reordered(items, ids), ids) =~= reordered(items, ids));
}

/// Reordering changes neither which items there are nor their ids, it
/// touches no item the sequence does not name, and it keeps positions
/// unique.
pub proof fn lemma_reordered_keeps_items(items: Seq<TodoView>, ids: Seq<int>)
    ensures
        reordered(items, ids).len() == items.len(),
        forall|i: int|
            0 <= i < items.len() ==> (#[trigger] reordered(items, ids)[i]).id == items[i].id,
        forall|i: int|
            0 <= i < items.len() && !ids.contains(items[i].id) ==> #[trigger] reordered(
                items,
                ids,
            )[i] == items[i],
        distinct_ids(items) && distinct_positions(items) ==> distinct_positions(
            reordered(items, ids),
        ),
{
    assert forall|i: int|
        0 <= i < items.len() && !ids.contains(items[i].id) implies #[trigger] reordered(
        items,
        ids,
    )[i] == items[i] by {
        lemma_last_index_of(ids, items[i].id);
    }
    if distinct_ids(items) && distinct_positions(items) {
        lemma_explicit_batch_valid(items, ids);
        lemma_explicit_batch_reorders(items, ids);
        lemma_reassigned_positions_distinct(items, explicit_batch(items, ids));
    }
}

} // verus!

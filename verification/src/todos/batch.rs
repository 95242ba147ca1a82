//! What a batch of position writes does to a sequence of items.
//!
//! A batch is a sequence of `(position, id)` pairs.  The store applies a
//! batch as a whole or not at all; the functions here say what "applied"
//! means.

use vstd::prelude::*;
use crate::todos::model::{distinct_ids, distinct_positions, has_id, TodoView};

verus! {

/// The item `t` moved to position `p`.
pub open spec fn with_position(t: TodoView, p: int) -> TodoView {
    TodoView { id: t.id, done: t.done, description: t.description, position: p }
}

/// The position a batch gives to the item `id`, if it names that item.
/// Where a batch names an item more than once, its last pair counts.
pub open spec fn assigned(batch: Seq<(int, int)>, id: int) -> Option<int>
    decreases batch.len(),
{
    if batch.len() == 0 {
        None
    } else if batch.last().1 == id {
        Some(batch.last().0)
    } else {
        assigned(batch.drop_last(), id)
    }
}

/// The items after the batch is applied: every item the batch names stands
/// at its new position, every other item is as it was.
pub open spec fn reassigned(items: Seq<TodoView>, batch: Seq<(int, int)>) -> Seq<TodoView> {
    Seq::new(
        items.len(),
        |i: int|
            match assigned(batch, items[i].id) {
                Some(p) => with_position(items[i], p),
                None => items[i],
            },
    )
}

/// No two pairs of the batch carry the same position.
pub open spec fn batch_positions_distinct(batch: Seq<(int, int)>) -> bool {
    forall|k: int, l: int| 0 <= k < l < batch.len() ==> batch[k].0 != batch[l].0
}

/// No two pairs of the batch name the same item.
pub open spec fn batch_ids_distinct(batch: Seq<(int, int)>) -> bool {
    forall|k: int, l: int| 0 <= k < l < batch.len() ==> batch[k].1 != batch[l].1
}

/// Every pair of the batch names an item of `items`.
pub open spec fn batch_ids_live(items: Seq<TodoView>, batch: Seq<(int, int)>) -> bool {
    forall|k: int| 0 <= k < batch.len() ==> has_id(items, #[trigger] batch[k].1)
}

/// The batch gives none of its positions to an item it does not name: no
/// item that stays where it is stands at a position the batch deals out.
pub open spec fn clear_of_bystanders(items: Seq<TodoView>, batch: Seq<(int, int)>) -> bool {
    forall|i: int, k: int|
        0 <= i < items.len() && 0 <= k < batch.len() && assigned(batch, items[i].id) is None
            ==> #[trigger] items[i].position != #[trigger] batch[k].0
}

/// The batch is one the store accepts: it maps live items to pairwise
/// distinct positions, names no item twice, and takes no position that an
/// item it does not name keeps.
pub open spec fn valid_batch(items: Seq<TodoView>, batch: Seq<(int, int)>) -> bool {
    &&& batch_positions_distinct(batch)
    &&& batch_ids_distinct(batch)
    &&& batch_ids_live(items, batch)
    &&& clear_of_bystanders(items, batch)
}

/// A batch that names no item twice gives each item it names the position
/// of the pair that names it.
pub proof fn lemma_assigned_by_pair(batch: Seq<(int, int)>, k: int)
    requires
        batch_ids_distinct(batch),
        0 <= k < batch.len(),
    ensures
        assigned(batch, batch[k].1) == Some(batch[k].0),
    decreases batch.len(),
{
    if k < batch.len() - 1 {
        lemma_assigned_by_pair(batch.drop_last(), k);
    }
}

/// A batch assigns a position to every item it names.
pub proof fn lemma_named_is_assigned(batch: Seq<(int, int)>, k: int)
    requires
        0 <= k < batch.len(),
    ensures
        assigned(batch, batch[k].1) is Some,
    decreases batch.len(),
{
    if k < batch.len() - 1 && batch.last().1 != batch[k].1 {
        lemma_named_is_assigned(batch.drop_last(), k);
    }
}

/// A position the batch assigns is the position of one of its pairs, and
/// that pair names the item.
pub proof fn lemma_assigned_comes_from_pair(batch: Seq<(int, int)>, id: int) -> (k: int)
    requires
        assigned(batch, id) is Some,
    ensures
        0 <= k < batch.len(),
        batch[k].1 == id,
        assigned(batch, id) == Some(batch[k].0),
    decreases batch.len(),
{
    if batch.last().1 == id {
        batch.len() - 1
    } else {
        lemma_assigned_comes_from_pair(batch.drop_last(), id)
    }
}

/// A batch assigns nothing to an item it does not name.
pub proof fn lemma_unnamed_is_unassigned(batch: Seq<(int, int)>, id: int)
    requires
        forall|k: int| 0 <= k < batch.len() ==> #[trigger] batch[k].1 != id,
    ensures
        assigned(batch, id) is None,
    decreases batch.len(),
{
    if batch.len() > 0 {
        lemma_unnamed_is_unassigned(batch.drop_last(), id);
    }
}

/// Applying a batch changes neither which items there are nor their ids.
pub proof fn lemma_reassigned_keeps_ids(items: Seq<TodoView>, batch: Seq<(int, int)>)
    ensures
        reassigned(items, batch).len() == items.len(),
        forall|i: int|
            0 <= i < items.len() ==> (#[trigger] reassigned(items, batch)[i]).id == items[i].id,
        distinct_ids(items) ==> distinct_ids(reassigned(items, batch)),
        forall|id: int| has_id(items, id) <==> has_id(reassigned(items, batch), id),
{
    let after = reassigned(items, batch);
    assert forall|id: int| has_id(items, id) <==> has_id(after, id) by {
        if has_id(items, id) {
            let i = choose|i: int| 0 <= i < items.len() && items[i].id == id;
            assert(after[i].id == id);
        }
        if has_id(after, id) {
            let i = choose|i: int| 0 <= i < after.len() && after[i].id == id;
            assert(items[i].id == id);
        }
    }
}

/// Uniqueness of positions survives every batch the store accepts.
pub proof fn lemma_reassigned_positions_distinct(items: Seq<TodoView>, batch: Seq<(int, int)>)
    requires
        distinct_ids(items),
        distinct_positions(items),
        valid_batch(items, batch),
    ensures
        distinct_positions(reassigned(items, batch)),
{
    let after = reassigned(items, batch);
    assert forall|i: int, j: int| 0 <= i < j < after.len() implies after[i].position
        != after[j].position by {
        let a = assigned(batch, items[i].id);
        let b = assigned(batch, items[j].id);
        if a is Some && b is Some {
            let k = lemma_assigned_comes_from_pair(batch, items[i].id);
            let l = lemma_assigned_comes_from_pair(batch, items[j].id);
            assert(k != l);
        } else if a is Some {
            let k = lemma_assigned_comes_from_pair(batch, items[i].id);
            assert(items[j].position != batch[k].0);
        } else if b is Some {
            let l = lemma_assigned_comes_from_pair(batch, items[j].id);
            assert(items[i].position != batch[l].0);
        }
    }
}

} // verus!

//! Moving a group of items to the top or the bottom of the list.
//!
//! Every item gets a fresh position: the positions 0, 1, 2, ... are dealt
//! out from the bottom of the list upwards, first to the group that goes
//! below the other, each group in the order it had.

use vstd::prelude::*;
use crate::todos::batch::{
    assigned, lemma_assigned_by_pair, reassigned, valid_batch, with_position,
};
use crate::todos::model::{distinct_ids, distinct_positions, has_id, TodoView};
use crate::todos::plan::{boundary_keys, boundary_plan, boundary_position, Boundary};
use crate::todos::rank::{
    element_at_rank, lemma_element_at_rank, lemma_rank_in_range, lemma_rank_injective,
    lemma_rank_respects_order, precedes, stable_rank,
};

verus! {

/// The items after the matched ones moved to the boundary.
pub open spec fn moved_to_boundary(items: Seq<TodoView>, matched: Seq<bool>, boundary: Boundary) -> Seq<
    TodoView,
> {
    Seq::new(
        items.len(),
        |i: int| with_position(items[i], boundary_position(items, matched, boundary, i)),
    )
}

/// The plan of a move names every item once, so the store accepts it, and
/// applying it is the move.
pub proof fn lemma_boundary_plan_moves(items: Seq<TodoView>, matched: Seq<bool>, boundary: Boundary)
    requires
        distinct_ids(items),
    ensures
        valid_batch(items, boundary_plan(items, matched, boundary)),
        reassigned(items, boundary_plan(items, matched, boundary)) == moved_to_boundary(
            items,
            matched,
            boundary,
        ),
{
    let keys = boundary_keys(items, matched, boundary);
    let plan = boundary_plan(items, matched, boundary);
    assert forall|r: int| 0 <= r < plan.len() implies 0 <= element_at_rank(keys, r) < items.len()
        && stable_rank(keys, element_at_rank(keys, r)) == r by {
        lemma_element_at_rank(keys, r);
    }
    assert forall|k: int, l: int| 0 <= k < l < plan.len() implies plan[k].1 != plan[l].1 by {
        assert(element_at_rank(keys, k) != element_at_rank(keys, l));
    }
    assert forall|k: int| 0 <= k < plan.len() implies has_id(items, #[trigger] plan[k].1) by {
        assert(items[element_at_rank(keys, k)].id == plan[k].1);
    }
    assert forall|i: int| 0 <= i < items.len() implies assigned(plan, items[i].id) == Some(
        stable_rank(keys, i),
    ) by {
        lemma_rank_in_range(keys, i);
        let r = stable_rank(keys, i);
        lemma_element_at_rank(keys, r);
        lemma_assigned_by_pair(plan, r);
    }
    assert forall|i: int, k: int|
        0 <= i < items.len() && 0 <= k < plan.len() && assigned(plan, items[i].id)
            is None implies #[trigger] items[i].position != #[trigger] plan[k].0 by {
        assert(assigned(plan, items[i].id) == Some(stable_rank(keys, i)));
    }
    assert(reassigned(items, plan) =~= moved_to_boundary(items, matched, boundary));
}

/// A move leaves the items and their ids alone and deals out exactly the
/// positions 0, 1, ..., one to each item.
pub proof fn lemma_move_deals_positions(items: Seq<TodoView>, matched: Seq<bool>, boundary: Boundary)
    ensures
        moved_to_boundary(items, matched, boundary).len() == items.len(),
        forall|i: int|
            0 <= i < items.len() ==> {
                let after = #[trigger] moved_to_boundary(items, matched, boundary)[i];
                &&& after.id == items[i].id
                &&& after.done == items[i].done
                &&& after.description == items[i].description
                &&& 0 <= after.position < items.len()
            },
        distinct_positions(moved_to_boundary(items, matched, boundary)),
        distinct_ids(items) ==> distinct_ids(moved_to_boundary(items, matched, boundary)),
{
    let keys = boundary_keys(items, matched, boundary);
    let after = moved_to_boundary(items, matched, boundary);
    assert forall|i: int| 0 <= i < items.len() implies 0 <= (#[trigger] after[i]).position
        < items.len() by {
        lemma_rank_in_range(keys, i);
    }
    assert forall|i: int, j: int| 0 <= i < j < after.len() implies after[i].position
        != after[j].position by {
        lemma_rank_injective(keys, i, j);
    }
}

/// Two items of the same group keep their order: the one that stood below
/// the other still stands below it.
pub proof fn lemma_move_keeps_order_within_group(
    items: Seq<TodoView>,
    matched: Seq<bool>,
    boundary: Boundary,
    i: int,
    j: int,
)
    requires
        0 <= i < items.len(),
        0 <= j < items.len(),
        matched[i] == matched[j],
        items[i].position < items[j].position,
    ensures
        moved_to_boundary(items, matched, boundary)[i].position < moved_to_boundary(
            items,
            matched,
            boundary,
        )[j].position,
{
    let keys = boundary_keys(items, matched, boundary);
    assert(precedes(keys, i, j));
    lemma_rank_respects_order(keys, i, j);
}

/// The matched items stand at the boundary: below every other item when
/// they move to the bottom, above every other item when they move to the
/// top.
pub proof fn lemma_move_reaches_boundary(
    items: Seq<TodoView>,
    matched: Seq<bool>,
    boundary: Boundary,
    i: int,
    j: int,
)
    requires
        0 <= i < items.len(),
        0 <= j < items.len(),
        matched[i],
        !matched[j],
    ensures
        boundary == Boundary::Bottom ==> moved_to_boundary(items, matched, boundary)[i].position
            < moved_to_boundary(items, matched, boundary)[j].position,
        boundary == Boundary::Top ==> moved_to_boundary(items, matched, boundary)[i].position
            > moved_to_boundary(items, matched, boundary)[j].position,
{
    let keys = boundary_keys(items, matched, boundary);
    match boundary {
        Boundary::Bottom => {
            assert(precedes(keys, i, j));
            lemma_rank_respects_order(keys, i, j);
        },
        Boundary::Top => {
            assert(precedes(keys, j, i));
            lemma_rank_respects_order(keys, j, i);
        },
    }
}

} // verus!

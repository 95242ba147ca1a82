//! Laws of the ordering engine, stated over the outcomes of its operations.
//!
//! Each law takes a store before an operation and the store after it, tied
//! together by the predicate the operation promises, and says what follows.

use vstd::prelude::*;
use crate::todos::batch::lemma_reassigned_positions_distinct;
use crate::todos::boundary::{
    lemma_move_deals_positions, lemma_move_keeps_order_within_group, lemma_move_reaches_boundary,
};
use crate::todos::explicit::{
    explicit_batch, lemma_reorder_idempotent, lemma_reordered_keeps_items, reorder_fits,
};
use crate::todos::model::{distinct_positions, lemma_highest_position};
use crate::todos::plan::{listing, Boundary};
use crate::todos::removal::{lemma_survivors_stay_distinct, lemma_survivors_untouched};
use crate::todos::store::{
    created_as, cut_short, deleted_as, marked_as, moved_as, reassigned_as, reordered_as,
    EngineError, TodoStore,
};

verus! {

/// Uniqueness under a batch of position writes: if no two items share a
/// position, no two items share a position afterwards, whatever the batch
/// and whether it went through, was refused or was cut short.
pub proof fn law_reassign_keeps_positions_unique(
    before: TodoStore,
    after: TodoStore,
    batch: Seq<(int, int)>,
    failure: Option<EngineError>,
)
    requires
        before.wf(),
        distinct_positions(before@),
        reassigned_as(before, after, batch, failure),
    ensures
        distinct_positions(after@),
{
    if failure is None {
        lemma_reassigned_positions_distinct(before@, batch);
    }
}

/// Uniqueness under an explicit reordering: whatever the sequence names,
/// leaves out or repeats, no two items share a position afterwards if none
/// did before.
pub proof fn law_reorder_keeps_positions_unique(
    before: TodoStore,
    after: TodoStore,
    ids: Seq<int>,
    failure: Option<EngineError>,
)
    requires
        before.wf(),
        distinct_positions(before@),
        reordered_as(before, after, ids, failure),
    ensures
        distinct_positions(after@),
{
    if failure is None {
        lemma_reordered_keeps_items(before@, ids);
    }
}

/// Uniqueness under a move to a boundary: a move that goes through leaves
/// no two items at one position, whatever the positions were; one that
/// fails keeps the positions unique if they were.
pub proof fn law_move_keeps_positions_unique(
    before: TodoStore,
    after: TodoStore,
    matched: Seq<bool>,
    boundary: Boundary,
    failure: Option<EngineError>,
)
    requires
        moved_as(before, after, matched, boundary, failure),
        failure is Some ==> distinct_positions(before@),
    ensures
        distinct_positions(after@),
{
    lemma_move_deals_positions(before@, matched, boundary);
}

/// Uniqueness under removal, creation and ticking: each keeps the
/// positions unique if they were.
pub proof fn law_single_writes_keep_positions_unique(
    before: TodoStore,
    after: TodoStore,
    matched: Seq<bool>,
    description: Seq<char>,
    id: int,
    done: bool,
    failure: Option<EngineError>,
)
    requires
        distinct_positions(before@),
        deleted_as(before, after, matched, failure) || created_as(
            before,
            after,
            description,
            failure,
        ) || marked_as(before, after, id, done, failure),
    ensures
        distinct_positions(after@),
{
    if failure is None {
        if deleted_as(before, after, matched, failure) {
            lemma_survivors_stay_distinct(before@, matched);
        } else if created_as(before, after, description, failure) {
            if before@.len() > 0 {
                lemma_highest_position(before@);
            }
        }
    }
}

/// One request to the engine.
pub enum Operation {
    Reassign { batch: Seq<(int, int)> },
    Reorder { ids: Seq<int> },
    Move { matched: Seq<bool>, boundary: Boundary },
    Delete { matched: Seq<bool> },
    Create { description: Seq<char> },
    Mark { id: int, done: bool },
}

/// The store went from `before` to `after` by the operation, with the
/// given outcome.
pub open spec fn performed_as(
    before: TodoStore,
    after: TodoStore,
    operation: Operation,
    failure: Option<EngineError>,
) -> bool {
    match operation {
        Operation::Reassign { batch } => reassigned_as(before, after, batch, failure),
        Operation::Reorder { ids } => reordered_as(before, after, ids, failure),
        Operation::Move { matched, boundary } => moved_as(
            before,
            after,
            matched,
            boundary,
            failure,
        ),
        Operation::Delete { matched } => deleted_as(before, after, matched, failure),
        Operation::Create { description } => created_as(before, after, description, failure),
        Operation::Mark { id, done } => marked_as(before, after, id, done, failure),
    }
}

/// `states` is a run of the engine: each state is well formed and leads to
/// the next by the operation of that step, with the outcome of that step.
pub open spec fn engine_run(
    states: Seq<TodoStore>,
    operations: Seq<Operation>,
    failures: Seq<Option<EngineError>>,
) -> bool {
    &&& states.len() == operations.len() + 1
    &&& failures.len() == operations.len()
    &&& forall|s: int|
        #![trigger operations[s]]
        0 <= s < operations.len() ==> states[s].wf() && performed_as(
            states[s],
            states[s + 1],
            operations[s],
            failures[s],
        )
}

/// The uniqueness invariant: through any run of operations, on a store
/// whose positions are unique to begin with, the positions are unique
/// after every operation, whether it went through or failed.
pub proof fn law_positions_stay_unique(
    states: Seq<TodoStore>,
    operations: Seq<Operation>,
    failures: Seq<Option<EngineError>>,
    k: int,
)
    requires
        engine_run(states, operations, failures),
        distinct_positions(states[0]@),
        0 <= k <= operations.len(),
    ensures
        distinct_positions(states[k]@),
    decreases k,
{
    if k > 0 {
        law_positions_stay_unique(states, operations, failures, k - 1);
        let operation = operations[k - 1];
        let before = states[k - 1];
        let after = states[k];
        let failure = failures[k - 1];
        match operation {
            Operation::Reassign { batch } => {
                law_reassign_keeps_positions_unique(before, after, batch, failure);
            },
            Operation::Reorder { ids } => {
                law_reorder_keeps_positions_unique(before, after, ids, failure);
            },
            Operation::Move { matched, boundary } => {
                law_move_keeps_positions_unique(before, after, matched, boundary, failure);
            },
            Operation::Delete { matched } => {
                law_single_writes_keep_positions_unique(
                    before,
                    after,
                    matched,
                    Seq::empty(),
                    0,
                    false,
                    failure,
                );
            },
            Operation::Create { description } => {
                law_single_writes_keep_positions_unique(
                    before,
                    after,
                    Seq::empty(),
                    description,
                    0,
                    false,
                    failure,
                );
            },
            Operation::Mark { id, done } => {
                law_single_writes_keep_positions_unique(
                    before,
                    after,
                    Seq::empty(),
                    Seq::empty(),
                    id,
                    done,
                    failure,
                );
            },
        }
    }
}

/// Atomicity: a batch of position writes that fails, for whatever reason
/// and after however many rows, leaves every item as it was, so the list
/// shows exactly what it showed before.
pub proof fn law_failed_batch_changes_nothing(
    before: TodoStore,
    after: TodoStore,
    batch: Seq<(int, int)>,
    failure: Option<EngineError>,
)
    requires
        reassigned_as(before, after, batch, failure),
        failure is Some,
    ensures
        after@ == before@,
        listing(after@) == listing(before@),
{
}

/// Idempotence: once a store has been reordered by a sequence, reordering
/// it by the same sequence again is not declined, and whatever its outcome
/// it leaves every item as the first reordering left it, so the list shows
/// the same order.
pub proof fn law_reorder_twice_is_reorder_once(
    start: TodoStore,
    once: TodoStore,
    twice: TodoStore,
    ids: Seq<int>,
    failure: Option<EngineError>,
)
    requires
        reordered_as(start, once, ids, None),
        reordered_as(once, twice, ids, failure),
    ensures
        reorder_fits(once@, ids),
        failure is Some ==> cut_short(once.fault(), explicit_batch(once@, ids).len() as int),
        twice@ == once@,
        listing(twice@) == listing(once@),
{
    lemma_reorder_idempotent(start@, ids);
}

/// Partition preservation: after a move to a boundary every item is still
/// the item it was, two items of the same group stand in the order they
/// stood in, and every matched item stands beyond every other item on the
/// side of the boundary.
pub proof fn law_move_preserves_partitions(
    before: TodoStore,
    after: TodoStore,
    matched: Seq<bool>,
    boundary: Boundary,
    i: int,
    j: int,
)
    requires
        moved_as(before, after, matched, boundary, None),
        0 <= i < before@.len(),
        0 <= j < before@.len(),
    ensures
        after@.len() == before@.len(),
        after@[i].id == before@[i].id,
        after@[i].done == before@[i].done,
        matched[i] == matched[j] && before@[i].position < before@[j].position ==> after@[i].position
            < after@[j].position,
        matched[i] && !matched[j] && boundary == Boundary::Bottom ==> after@[i].position
            < after@[j].position,
        matched[i] && !matched[j] && boundary == Boundary::Top ==> after@[i].position
            > after@[j].position,
{
    lemma_move_deals_positions(before@, matched, boundary);
    if matched[i] == matched[j] && before@[i].position < before@[j].position {
        lemma_move_keeps_order_within_group(before@, matched, boundary, i, j);
    }
    if matched[i] && !matched[j] {
        lemma_move_reaches_boundary(before@, matched, boundary, i, j);
    }
}

/// Deletion does not renumber: every item a removal does not match is in
/// the store afterwards, with the position and everything else it had, and
/// nothing else is.
pub proof fn law_delete_leaves_survivors_alone(
    before: TodoStore,
    after: TodoStore,
    matched: Seq<bool>,
)
    requires
        deleted_as(before, after, matched, None),
    ensures
        forall|i: int|
            #![trigger before@[i]]
            0 <= i < before@.len() && !matched[i] ==> exists|k: int|
                #![trigger after@[k]]
                0 <= k < after@.len() && after@[k] == before@[i],
        forall|k: int|
            #![trigger after@[k]]
            0 <= k < after@.len() ==> exists|i: int|
                #![trigger before@[i]]
                0 <= i < before@.len() && !matched[i] && after@[k] == before@[i],
{
    lemma_survivors_untouched(before@, matched);
}

} // verus!

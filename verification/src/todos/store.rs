//! The store of todo items and the ordering engine that works on it.
//!
//! [`TodoStore`] keeps the live items in memory and applies every change as
//! one indivisible step: an operation either takes effect as a whole or
//! leaves the store exactly as it was.  A store can be told to fail after a
//! number of row writes, which makes the all-or-nothing behaviour
//! observable.

use vstd::prelude::*;
use crate::todos::batch::{
    assigned, lemma_named_is_assigned, lemma_reassigned_keeps_ids,
    lemma_reassigned_positions_distinct, lemma_unnamed_is_unassigned, reassigned, valid_batch,
    with_position,
};
use crate::todos::boundary::{
    lemma_boundary_plan_moves, lemma_move_deals_positions, lemma_move_keeps_order_within_group,
    moved_to_boundary,
};
use crate::todos::explicit::{
    explicit_batch, explicit_batch_from, explicit_position, lemma_explicit_batch_reorders,
    lemma_explicit_batch_valid, lemma_explicit_position_in_plan, listed, reorder_base,
    reorder_fits, reordered,
};
use crate::todos::model::{
    distinct_ids, distinct_positions, fresh_id_for, has_id, int_pairs, lemma_fresh_id_for,
    lemma_highest_position, marked, naming, next_position, todo_views, Todo, TodoView,
};
use crate::todos::plan::{
    boundary_positions, explicit_plan, explicit_positions, listing, Boundary,
};
use crate::todos::removal::{
    lemma_survivors_stay_distinct, lemma_survivors_untouched, matched_upto, removed_count,
    survivors, survivors_upto,
};
use crate::todos::token::token_ids;

verus! {

/// Why an operation of the engine did not take effect.
#[derive(Clone, Copy, Debug, PartialEq, Eq, Structural)]
pub enum EngineError {
    /// The store failed; nothing was applied.
    StoreUnavailable,
    /// The request was malformed; nothing was applied.
    PreconditionViolation,
}

/// A write of `rows` rows is cut short by the pending failure.
pub open spec fn cut_short(fault: Option<usize>, rows: int) -> bool {
    match fault {
        Some(k) => k < rows,
        None => false,
    }
}

/// The pending failure after a write of `rows` rows was attempted: a write
/// that was cut short uses the failure up, one that went through uses up
/// `rows` of the writes that remain before it.
pub open spec fn fault_left(fault: Option<usize>, rows: int) -> Option<usize> {
    match fault {
        Some(k) => if k < rows {
            None
        } else {
            Some((k - rows) as usize)
        },
        None => None,
    }
}

/// The first pair of a plan that names `id`.
fn first_naming(plan: &Vec<(i32, i32)>, id: i32) -> (found: Option<usize>)
    ensures
        match found {
            Some(p) => p < plan.len() && plan[p as int].1 == id && forall|q: int|
                0 <= q < p ==> (#[trigger] plan[q]).1 != id,
            None => forall|q: int| 0 <= q < plan.len() ==> (#[trigger] plan[q]).1 != id,
        },
{
    let mut p: usize = 0;
    while p < plan.len()
        invariant
            p <= plan.len(),
            forall|q: int| 0 <= q < p ==> (#[trigger] plan[q]).1 != id,
        decreases plan.len() - p,
    {
        if plan[p].1 == id {
            return Some(p);
        }
        p += 1;
    }
    None
}

/// The live todo items, each with a unique id and an integer position.
pub struct TodoStore {
    items: Vec<Todo>,
    next_id: i64,
    fault: Option<usize>,
}

impl View for TodoStore {
    type V = Seq<TodoView>;

    /// The live items, in the order the store keeps them.
    open spec fn view(&self) -> Seq<TodoView> {
        todo_views(self.todos())
    }
}

impl TodoStore {
    /// The live items as the store holds them.
    pub closed spec fn todos(&self) -> Seq<Todo> {
        self.items@
    }

    /// The pending failure: `Some(k)` when the store fails once `k` more
    /// rows have been written.
    pub closed spec fn fault(&self) -> Option<usize> {
        self.fault
    }

    /// The id the next created item gets.  Ids are never reused: every id
    /// ever handed out is below it.
    pub closed spec fn fresh_id(&self) -> int {
        self.next_id as int
    }

    /// The store is well formed: ids are unique and below the fresh id, and
    /// the items can be numbered by an `i32`.
    pub open spec fn wf(&self) -> bool {
        &&& distinct_ids(self@)
        &&& self@.len() <= i32::MAX
        &&& 1 <= self.fresh_id() <= i32::MAX + 1
        &&& forall|i: int| 0 <= i < self@.len() ==> (#[trigger] self@[i]).id < self.fresh_id()
    }

    /// An empty store whose first item will get the id 1.
    pub fn new() -> (store: Self)
        ensures
            store.wf(),
            store@ == Seq::<TodoView>::empty(),
            store.fault() is None,
            store.fresh_id() == 1,
    {
        let store = TodoStore { items: Vec::new(), next_id: 1, fault: None };
        assert(store@ =~= Seq::<TodoView>::empty());
        store
    }

    /// The number of live items.
    pub fn len(&self) -> (n: usize)
        ensures
            n == self@.len(),
    {
        self.items.len()
    }

    /// The id of the item the store keeps at place `i`.
    pub(crate) fn id_at(&self, i: usize) -> (id: i32)
        requires
            i < self@.len(),
        ensures
            id == self@[i as int].id,
    {
        self.items[i].id
    }

    /// Makes the store fail once `rows` more rows have been written: the
    /// write that would write row `rows + 1` is cut short and undone.
    pub fn fail_after(&mut self, rows: usize)
        ensures
            final(self)@ == old(self)@,
            final(self).todos() == old(self).todos(),
            final(self).fresh_id() == old(self).fresh_id(),
            final(self).fault() == Some(rows),
            old(self).wf() ==> final(self).wf(),
    {
        self.fault = Some(rows);
    }

    /// The index of the item with the id `id`, if it is live.
    fn find(&self, id: i32) -> (found: Option<usize>)
        ensures
            match found {
                Some(i) => i < self@.len() && self@[i as int].id == id,
                None => !has_id(self@, id as int),
            },
    {
        let mut i: usize = 0;
        while i < self.items.len()
            invariant
                i <= self.items.len(),
                forall|j: int| 0 <= j < i ==> (#[trigger] self@[j]).id != id,
            decreases self.items.len() - i,
        {
            if self.items[i].id == id {
                return Some(i);
            }
            i += 1;
        }
        None
    }

    /// All live items, largest position first.  Reading never fails and
    /// changes nothing.
    pub fn list_ordered(&self) -> (listed: Vec<Todo>)
        ensures
            todo_views(listed@) == listing(self@),
    {
        crate::todos::plan::list_ordered(&self.items)
    }

    /// Checks that a batch maps live items to pairwise distinct positions
    /// and names no item twice.
    fn accepts(&self, batch: &Vec<(i32, i32)>) -> (ok: bool)
        ensures
            ok == valid_batch(self@, int_pairs(batch@)),
    {
        let ghost b = int_pairs(batch@);
        let mut k: usize = 0;
        while k < batch.len()
            invariant
                k <= batch.len(),
                b == int_pairs(batch@),
                forall|x: int, y: int| 0 <= x < y < k ==> b[x].0 != b[y].0 && b[x].1 != b[y].1,
                forall|x: int| 0 <= x < k ==> has_id(self@, #[trigger] b[x].1),
            decreases batch.len() - k,
        {
            if self.find(batch[k].1).is_none() {
                assert(!has_id(self@, b[k as int].1));
                return false;
            }
            let mut l: usize = 0;
            while l < k
                invariant
                    l <= k,
                    k < batch.len(),
                    b == int_pairs(batch@),
                    forall|x: int| 0 <= x < l ==> b[x].0 != b[k as int].0 && b[x].1 != b[k as int].1,
                decreases k - l,
            {
                if batch[l].0 == batch[k].0 || batch[l].1 == batch[k].1 {
                    assert(b[l as int].0 == b[k as int].0 || b[l as int].1 == b[k as int].1);
                    return false;
                }
                l += 1;
            }
            k += 1;
        }
        // No item the batch leaves where it is may stand at a position the
        // batch deals out.
        let n = self.items.len();
        let mut i: usize = 0;
        while i < n
            invariant
                i <= n,
                n == self.items.len(),
                b == int_pairs(batch@),
                forall|x: int, y: int|
                    0 <= x < i && 0 <= y < b.len() && assigned(b, self@[x].id) is None
                        ==> #[trigger] self@[x].position != #[trigger] b[y].0,
            decreases n - i,
        {
            let id = self.items[i].id;
            let position = self.items[i].position;
            let mut named = false;
            let mut clash = false;
            let mut k: usize = 0;
            while k < batch.len()
                invariant
                    k <= batch.len(),
                    b == int_pairs(batch@),
                    named == exists|y: int| 0 <= y < k && (#[trigger] b[y]).1 == id,
                    clash == exists|y: int| 0 <= y < k && (#[trigger] b[y]).0 == position,
                decreases batch.len() - k,
            {
                if batch[k].1 == id {
                    assert(b[k as int].1 == id);
                    named = true;
                }
                if batch[k].0 == position {
                    assert(b[k as int].0 == position);
                    clash = true;
                }
                k += 1;
            }
            proof {
                if named {
                    let y = choose|y: int| 0 <= y < b.len() && (#[trigger] b[y]).1 == id;
                    if assigned(b, id as int) is None {
                        lemma_named_is_assigned(b, y);
                    }
                } else {
                    lemma_unnamed_is_unassigned(b, id as int);
                }
            }
            if !named && clash {
                proof {
                    let y = choose|y: int| 0 <= y < b.len() && (#[trigger] b[y]).0 == position;
                    assert(self@[i as int].position == b[y].0);
                }
                return false;
            }
            i += 1;
        }
        true
    }

    /// Gives every item the batch names its new position, as one
    /// indivisible write; items the batch does not name keep theirs.
    ///
    /// A batch is refused if it repeats a position, names an item twice,
    /// names an item that is not live, or gives an item a position that an
    /// item it does not name keeps.  A write that the store cuts short is
    /// undone.  Either way the store is left exactly as it was, so no batch
    /// ever leaves two items at one position.
    pub fn reassign_positions(&mut self, batch: &Vec<(i32, i32)>) -> (result: Result<
        (),
        EngineError,
    >)
        requires
            old(self).wf(),
        ensures
            final(self).wf(),
            reassigned_as(*old(self), *final(self), int_pairs(batch@), failure(result)),
            distinct_positions(old(self)@) ==> distinct_positions(final(self)@),
    {
        if !self.accepts(batch) {
            return Err(EngineError::PreconditionViolation);
        }
        let ghost before = self@;
        let ghost b = int_pairs(batch@);
        let n = self.items.len();
        let m = batch.len();
        // Stage the current positions; the rows are written to the staging
        // area and reach the items only when the whole batch is through.
        let mut staged: Vec<i32> = Vec::new();
        let mut i: usize = 0;
        while i < n
            invariant
                i <= n,
                n == self.items.len(),
                staged.len() == i,
                forall|j: int| 0 <= j < i ==> #[trigger] staged[j] == self@[j].position,
            decreases n - i,
        {
            staged.push(self.items[i].position);
            i += 1;
        }
        let mut k: usize = 0;
        while k < m
            invariant
                k <= m,
                m == batch.len(),
                n == self.items.len(),
                staged.len() == n,
                self@ == before,
                before == old(self)@,
                self.wf(),
                self.fresh_id() == old(self).fresh_id(),
                self.fault() == old(self).fault(),
                b == int_pairs(batch@),
                valid_batch(before, b),
                match self.fault {
                    Some(f) => k <= f,
                    None => true,
                },
                forall|j: int|
                    0 <= j < n ==> #[trigger] staged[j] == match assigned(b.take(k as int), before[j].id) {
                        Some(p) => p,
                        None => before[j].position,
                    },
            decreases m - k,
        {
            if let Some(f) = self.fault {
                if f == k {
                    self.fault = None;
                    return Err(EngineError::StoreUnavailable);
                }
            }
            let (position, id) = batch[k];
            match self.find(id) {
                Some(at) => {
                    staged.set(at, position);
                },
                None => {
                    assert(has_id(before, b[k as int].1));
                    assert(false);
                },
            }
            proof {
                assert(b.take(k + 1).drop_last() =~= b.take(k as int));
                assert(b.take(k + 1).last() == b[k as int]);
            }
            k += 1;
        }
        assert(b.take(m as int) =~= b);
        // Commit: every item takes its staged position.
        let mut moved: Vec<Todo> = Vec::new();
        let mut i: usize = 0;
        while i < n
            invariant
                i <= n,
                n == self.items.len(),
                staged.len() == n,
                self@ == before,
                self.fresh_id() == old(self).fresh_id(),
                self.fault() == old(self).fault(),
                moved.len() == i,
                forall|j: int|
                    0 <= j < i ==> (#[trigger] moved[j])@ == with_position(before[j], staged[j] as int),
            decreases n - i,
        {
            let item = &self.items[i];
            moved.push(
                Todo {
                    id: item.id,
                    done: item.done,
                    description: item.description.clone(),
                    position: staged[i],
                },
            );
            i += 1;
        }
        proof {
            assert(todo_views(moved@) =~= reassigned(before, b));
            lemma_reassigned_keeps_ids(before, b);
            if distinct_positions(before) {
                lemma_reassigned_positions_distinct(before, b);
            }
        }
        self.items = moved;
        self.fault = match self.fault {
            Some(f) => Some(f - m),
            None => None,
        };
        Ok(())
    }

    /// Rearranges the store by an explicit sequence of id tokens, given from
    /// the top of the list to the bottom, as one indivisible write.
    ///
    /// The live items the sequence names are placed above every other item,
    /// in the order of the sequence: the last token gets the position one
    /// above the highest item the sequence does not name (0 where it names
    /// every item), the token before it the next position, and so on.  A
    /// token that is no decimal `i32` stands for the id 0.  An id that
    /// occurs more than once counts where it occurs last.  Ids of items
    /// that are not live are passed over without error, and items the
    /// sequence does not name keep their positions.
    ///
    /// Where a position that would be dealt out does not fit in an `i32`,
    /// the store declines and nothing changes.
    pub fn reorder_by_explicit_sequence(&mut self, ordered_ids: &Vec<String>) -> (result: Result<
        (),
        EngineError,
    >)
        requires
            old(self).wf(),
            ordered_ids.len() <= i32::MAX,
        ensures
            final(self).wf(),
            reordered_as(*old(self), *final(self), token_ids(ordered_ids@), failure(result)),
            distinct_positions(old(self)@) ==> distinct_positions(final(self)@),
    {
        let ghost before = self@;
        let ghost ids = token_ids(ordered_ids@);
        let ghost flags = listed(before, ids);
        let plan = explicit_positions(ordered_ids);
        let n = self.items.len();
        // First pass: the place of each item in the sequence, and the base,
        // one above the highest item the sequence does not name.
        let mut places: Vec<Option<i32>> = Vec::new();
        let mut base: i64 = 0;
        let mut unlisted: usize = 0;
        let mut i: usize = 0;
        while i < n
            invariant
                i <= n,
                n == self.items.len(),
                self@ == before,
                flags == listed(before, ids),
                int_pairs(plan@) == explicit_plan(ids),
                places.len() == i,
                forall|j: int|
                    0 <= j < i ==> match explicit_position(ids, before[j].id) {
                        Some(p) => #[trigger] places[j] == Some(p as i32) && 0 <= p <= i32::MAX,
                        None => places[j] is None,
                    },
                unlisted == survivors_upto(before, flags, i as int).len(),
                unlisted <= i,
                base == next_position(survivors_upto(before, flags, i as int)),
                i32::MIN + 1 <= base <= i32::MAX + 1,
            decreases n - i,
        {
            let id = self.items[i].id;
            proof {
                lemma_explicit_position_in_plan(ids, id as int);
                assert(int_pairs(plan@).len() == plan.len());
            }
            match first_naming(&plan, id) {
                Some(p) => {
                    proof {
                        let pairs = explicit_plan(ids);
                        assert(pairs[p as int] == int_pairs(plan@)[p as int]);
                        let at = explicit_position(ids, id as int);
                        assert(at is Some);
                        assert(pairs[at->0] == int_pairs(plan@)[at->0]);
                        assert(plan[at->0].1 == id);
                        assert(at->0 == p);
                    }
                    places.push(Some(plan[p].0));
                },
                None => {
                    proof {
                        let pairs = explicit_plan(ids);
                        let at = explicit_position(ids, id as int);
                        if at is Some {
                            assert(pairs[at->0] == int_pairs(plan@)[at->0]);
                            assert(plan[at->0].1 == id);
                        }
                        let so_far = survivors_upto(before, flags, i as int);
                        assert(so_far.push(before[i as int]).drop_last() =~= so_far);
                    }
                    let here = self.items[i].position as i64;
                    if unlisted == 0 || here + 1 > base {
                        base = here + 1;
                    }
                    unlisted += 1;
                    places.push(None);
                },
            }
            i += 1;
        }
        // Second pass: one pair for every item the sequence names.
        let mut batch: Vec<(i32, i32)> = Vec::new();
        let mut i: usize = 0;
        while i < n
            invariant
                i <= n,
                n == self.items.len(),
                self@ == before,
                *self == *old(self),
                old(self).wf(),
                ids == token_ids(ordered_ids@),
                places.len() == n,
                base == reorder_base(before, ids),
                i32::MIN + 1 <= base <= i32::MAX + 1,
                forall|j: int|
                    0 <= j < n ==> match explicit_position(ids, before[j].id) {
                        Some(p) => #[trigger] places[j] == Some(p as i32) && 0 <= p <= i32::MAX,
                        None => places[j] is None,
                    },
                forall|j: int|
                    0 <= j < i ==> match explicit_position(ids, (#[trigger] before[j]).id) {
                        Some(p) => base + p <= i32::MAX,
                        None => true,
                    },
                int_pairs(batch@) == explicit_batch_from(before.take(i as int), ids, base as int),
            decreases n - i,
        {
            proof {
                assert(before.take(i + 1).drop_last() =~= before.take(i as int));
                assert(before.take(i + 1).last() == before[i as int]);
            }
            match places[i] {
                Some(p) => {
                    let position = base + p as i64;
                    if position > i32::MAX as i64 {
                        assert(!reorder_fits(before, ids)) by {
                            assert(explicit_position(ids, before[i as int].id) == Some(p as int));
                        }
                        return Err(EngineError::StoreUnavailable);
                    }
                    batch.push((position as i32, self.items[i].id));
                    assert(int_pairs(batch@) =~= explicit_batch_from(
                        before.take(i as int),
                        ids,
                        base as int,
                    ).push((base + p, before[i as int].id)));
                },
                None => {},
            }
            i += 1;
        }
        proof {
            assert(before.take(n as int) =~= before);
            assert(reorder_fits(before, ids));
            lemma_explicit_batch_valid(before, ids);
            lemma_explicit_batch_reorders(before, ids);
        }
        self.reassign_positions(&batch)
    }

    /// Moves the flagged items to a boundary of the list, as one indivisible
    /// write that gives every item a fresh position.  `matched[i]` tells
    /// whether the item the store keeps at place `i` belongs to the group
    /// that moves; flags that are not one for each item are refused.
    pub fn move_flagged_to_boundary(&mut self, matched: &Vec<bool>, boundary: Boundary) -> (result:
        Result<(), EngineError>)
        requires
            old(self).wf(),
        ensures
            final(self).wf(),
            moved_as(*old(self), *final(self), matched@, boundary, failure(result)),
            result is Ok ==> distinct_positions(final(self)@),
            result is Ok ==> keeps_order_within_groups(old(self)@, final(self)@, matched@),
    {
        if matched.len() != self.items.len() {
            return Err(EngineError::PreconditionViolation);
        }
        let ghost before = self@;
        let batch = boundary_positions(&self.items, matched, boundary);
        proof {
            assert(int_pairs(batch@).len() == batch.len());
            lemma_boundary_plan_moves(before, matched@, boundary);
            lemma_move_deals_positions(before, matched@, boundary);
            let after = moved_to_boundary(before, matched@, boundary);
            assert forall|i: int, j: int|
                0 <= i < before.len() && 0 <= j < before.len() && matched[i] == matched[j]
                    && before[i].position < before[j].position implies #[trigger] after[i].position
                < #[trigger] after[j].position by {
                lemma_move_keeps_order_within_group(before, matched@, boundary, i, j);
            }
        }
        self.reassign_positions(&batch)
    }

    /// Removes the flagged items as one indivisible write and tells how many
    /// it removed.  The items that stay keep their positions.  Flags that
    /// are not one for each item are refused.
    pub fn delete_flagged(&mut self, matched: &Vec<bool>) -> (result: Result<usize, EngineError>)
        requires
            old(self).wf(),
        ensures
            final(self).wf(),
            deleted_as(*old(self), *final(self), matched@, failure(result)),
            result matches Ok(count) ==> count == removed_count(old(self)@, matched@),
            distinct_positions(old(self)@) ==> distinct_positions(final(self)@),
    {
        if matched.len() != self.items.len() {
            return Err(EngineError::PreconditionViolation);
        }
        let ghost before = self@;
        let n = self.items.len();
        let mut removed: usize = 0;
        let mut i: usize = 0;
        while i < n
            invariant
                i <= n,
                n == matched.len(),
                removed == matched_upto(matched@, i as int),
                removed <= i,
            decreases n - i,
        {
            if matched[i] {
                removed += 1;
            }
            i += 1;
        }
        if let Some(f) = self.fault {
            if f < removed {
                self.fault = None;
                return Err(EngineError::StoreUnavailable);
            }
        }
        let mut kept: Vec<Todo> = Vec::new();
        let mut i: usize = 0;
        while i < n
            invariant
                i <= n,
                n == matched.len(),
                n == self.items.len(),
                self@ == before,
                todo_views(kept@) == survivors_upto(before, matched@, i as int),
            decreases n - i,
        {
            if !matched[i] {
                kept.push(self.items[i].clone());
                assert(todo_views(kept@) =~= survivors_upto(before, matched@, i as int).push(
                    before[i as int],
                ));
            }
            i += 1;
        }
        proof {
            lemma_survivors_stay_distinct(before, matched@);
            lemma_survivors_untouched(before, matched@);
        }
        self.items = kept;
        self.fault = match self.fault {
            Some(f) => Some(f - removed),
            None => None,
        };
        Ok(removed)
    }

    /// A store that holds the given items.  Items that share an id, or more
    /// items than an `i32` can number, are refused.  The store knows only
    /// the ids it is given: the first id it hands out is the least positive
    /// id above all of them.
    pub fn from_todos(items: Vec<Todo>) -> (result: Result<Self, EngineError>)
        ensures
            match result {
                Ok(store) => {
                    &&& distinct_ids(todo_views(items@))
                    &&& items.len() <= i32::MAX
                    &&& store.wf()
                    &&& store@ == todo_views(items@)
                    &&& store.fault() is None
                    &&& store.fresh_id() == fresh_id_for(todo_views(items@))
                },
                Err(EngineError::PreconditionViolation) => !distinct_ids(todo_views(items@))
                    || items.len() > i32::MAX,
                Err(EngineError::StoreUnavailable) => false,
            },
    {
        let ghost views = todo_views(items@);
        let n = items.len();
        if n > i32::MAX as usize {
            return Err(EngineError::PreconditionViolation);
        }
        let mut next_id: i64 = 1;
        let mut i: usize = 0;
        while i < n
            invariant
                i <= n,
                n == items.len(),
                views == todo_views(items@),
                next_id == fresh_id_for(views.take(i as int)),
                1 <= next_id <= i32::MAX + 1,
                forall|x: int, y: int| 0 <= x < y < i ==> views[x].id != views[y].id,
            decreases n - i,
        {
            let id = items[i].id;
            let mut j: usize = 0;
            while j < i
                invariant
                    j <= i,
                    i < n,
                    n == items.len(),
                    views == todo_views(items@),
                    id == views[i as int].id,
                    forall|x: int| 0 <= x < j ==> views[x].id != id,
                decreases i - j,
            {
                if items[j].id == id {
                    assert(views[j as int].id == views[i as int].id);
                    return Err(EngineError::PreconditionViolation);
                }
                j += 1;
            }
            proof {
                assert(views.take(i + 1).drop_last() =~= views.take(i as int));
                assert(views.take(i + 1).last() == views[i as int]);
            }
            if id as i64 + 1 > next_id {
                next_id = id as i64 + 1;
            }
            i += 1;
        }
        proof {
            assert(views.take(n as int) =~= views);
            lemma_fresh_id_for(views);
        }
        Ok(TodoStore { items, next_id, fault: None })
    }

    /// Adds a new item above every item there is and returns its id.  The
    /// item is not completed, its id is the fresh id of the store, and its
    /// position is 0 in an empty store and one above the highest position
    /// otherwise.
    ///
    /// The store refuses the item when it cannot number it: when the ids,
    /// the positions or the places of an `i32` are used up.
    pub fn create(&mut self, description: String) -> (result: Result<i32, EngineError>)
        requires
            old(self).wf(),
        ensures
            final(self).wf(),
            created_as(*old(self), *final(self), description@, failure(result)),
            result matches Ok(id) ==> id == old(self).fresh_id(),
            result is Ok ==> forall|i: int|
                0 <= i < old(self)@.len() ==> (#[trigger] old(self)@[i]).position < next_position(
                    old(self)@,
                ),
            distinct_positions(old(self)@) ==> distinct_positions(final(self)@),
    {
        let ghost before = self@;
        let n = self.items.len();
        let mut position: i64 = 0;
        let mut i: usize = 0;
        while i < n
            invariant
                i <= n,
                n == self.items.len(),
                self@ == before,
                position == next_position(before.take(i as int)),
                i32::MIN + 1 <= position <= i32::MAX + 1,
            decreases n - i,
        {
            proof {
                assert(before.take(i + 1).drop_last() =~= before.take(i as int));
                assert(before.take(i + 1).last() == before[i as int]);
                if i == 0 {
                    assert(before.take(1)[0] == before[0]);
                }
            }
            let here = self.items[i].position as i64;
            if i == 0 || here + 1 > position {
                position = here + 1;
            }
            i += 1;
        }
        proof {
            assert(before.take(n as int) =~= before);
            if n > 0 {
                lemma_highest_position(before);
            }
        }
        if self.next_id > i32::MAX as i64 || n >= i32::MAX as usize || position > i32::MAX as i64 {
            return Err(EngineError::StoreUnavailable);
        }
        if let Some(f) = self.fault {
            if f < 1 {
                self.fault = None;
                return Err(EngineError::StoreUnavailable);
            }
        }
        let id = self.next_id as i32;
        self.items.push(Todo { id, done: false, description, position: position as i32 });
        self.next_id = self.next_id + 1;
        self.fault = match self.fault {
            Some(f) => Some(f - 1),
            None => None,
        };
        proof {
            let item = TodoView {
                id: id as int,
                done: false,
                description: description@,
                position: position as int,
            };
            assert(self@ =~= before.push(item));
        }
        Ok(id)
    }

    /// The store can number one more item.
    pub open spec fn has_room(&self) -> bool {
        &&& self.fresh_id() <= i32::MAX
        &&& self@.len() < i32::MAX
        &&& next_position(self@) <= i32::MAX
    }

    /// Sets the completion flag of the item `id`.  Where no such item is
    /// live, nothing is written and nothing changes.
    pub fn set_done(&mut self, id: i32, done: bool) -> (result: Result<(), EngineError>)
        requires
            old(self).wf(),
        ensures
            final(self).wf(),
            marked_as(*old(self), *final(self), id as int, done, failure(result)),
            distinct_positions(old(self)@) ==> distinct_positions(final(self)@),
    {
        let ghost before = self@;
        match self.find(id) {
            None => {
                assert(marked(before, id as int, done) =~= before) by {
                    assert forall|i: int| 0 <= i < before.len() implies before[i].id != id by {
                        if before[i].id == id {
                            assert(has_id(before, id as int));
                        }
                    }
                }
                Ok(())
            },
            Some(at) => {
                if let Some(f) = self.fault {
                    if f < 1 {
                        self.fault = None;
                        return Err(EngineError::StoreUnavailable);
                    }
                }
                let item = &self.items[at];
                let changed = Todo {
                    id: item.id,
                    done,
                    description: item.description.clone(),
                    position: item.position,
                };
                self.items.set(at, changed);
                self.fault = match self.fault {
                    Some(f) => Some(f - 1),
                    None => None,
                };
                assert(self@ =~= marked(before, id as int, done));
                Ok(())
            },
        }
    }

    /// Removes the item `id` and tells how many items it removed: one, or
    /// none where no such item is live.  The other items keep their
    /// positions.
    pub fn remove(&mut self, id: i32) -> (result: Result<usize, EngineError>)
        requires
            old(self).wf(),
        ensures
            final(self).wf(),
            deleted_as(*old(self), *final(self), naming(old(self)@, id as int), failure(result)),
            result matches Ok(count) ==> count == removed_count(
                old(self)@,
                naming(old(self)@, id as int),
            ),
            distinct_positions(old(self)@) ==> distinct_positions(final(self)@),
    {
        let n = self.items.len();
        let mut matched: Vec<bool> = Vec::new();
        let mut i: usize = 0;
        while i < n
            invariant
                i <= n,
                n == self.items.len(),
                matched.len() == i,
                forall|j: int| 0 <= j < i ==> #[trigger] matched[j] == (self@[j].id == id),
            decreases n - i,
        {
            matched.push(self.items[i].id == id);
            i += 1;
        }
        assert(matched@ =~= naming(self@, id as int));
        self.delete_flagged(&matched)
    }

    /// Asks the predicate about every item, in the order the store keeps
    /// them.
    fn judge<F: Fn(&Todo) -> bool>(&self, predicate: &F) -> (matched: Vec<bool>)
        requires
            forall|i: int|
                0 <= i < self.todos().len() ==> call_requires(*predicate, (&#[trigger] self.todos()[i],)),
        ensures
            judged_by(*predicate, self.todos(), matched@),
    {
        let n = self.items.len();
        let mut matched: Vec<bool> = Vec::new();
        let mut i: usize = 0;
        while i < n
            invariant
                i <= n,
                n == self.items.len(),
                matched.len() == i,
                forall|j: int|
                    0 <= j < self.todos().len() ==> call_requires(
                        *predicate,
                        (&#[trigger] self.todos()[j],),
                    ),
                forall|j: int|
                    0 <= j < i ==> call_ensures(*predicate, (&self.todos()[j],), #[trigger] matched[j]),
            decreases n - i,
        {
            assert(self.todos()[i as int] == self.items[i as int]);
            let flag = predicate(&self.items[i]);
            matched.push(flag);
            i += 1;
        }
        matched
    }

    /// Moves the items the predicate holds of to a boundary of the list, as
    /// one indivisible write that gives every item a fresh position: the
    /// group at the boundary, the other items next to it, and within each
    /// of the two the order the items had.
    pub fn move_group_to_boundary<F: Fn(&Todo) -> bool>(
        &mut self,
        predicate: F,
        boundary: Boundary,
    ) -> (result: Result<(), EngineError>)
        requires
            old(self).wf(),
            forall|i: int|
                0 <= i < old(self).todos().len() ==> call_requires(
                    predicate,
                    (&#[trigger] old(self).todos()[i],),
                ),
        ensures
            final(self).wf(),
            exists|matched: Seq<bool>|
                {
                    &&& judged_by(predicate, old(self).todos(), matched)
                    &&& #[trigger] moved_as(
                        *old(self),
                        *final(self),
                        matched,
                        boundary,
                        failure(result),
                    )
                    &&& result is Ok ==> keeps_order_within_groups(
                        old(self)@,
                        final(self)@,
                        matched,
                    )
                },
            result is Ok ==> distinct_positions(final(self)@),
    {
        let matched = self.judge(&predicate);
        let ghost before = *self;
        let result = self.move_flagged_to_boundary(&matched, boundary);
        assert(moved_as(before, *self, matched@, boundary, failure(result)));
        result
    }

    /// Removes the items the predicate holds of, as one indivisible write,
    /// and tells how many it removed.  The items that stay keep their
    /// positions.
    pub fn delete_where<F: Fn(&Todo) -> bool>(&mut self, predicate: F) -> (result: Result<
        usize,
        EngineError,
    >)
        requires
            old(self).wf(),
            forall|i: int|
                0 <= i < old(self).todos().len() ==> call_requires(
                    predicate,
                    (&#[trigger] old(self).todos()[i],),
                ),
        ensures
            final(self).wf(),
            exists|matched: Seq<bool>|
                {
                    &&& judged_by(predicate, old(self).todos(), matched)
                    &&& #[trigger] deleted_as(*old(self), *final(self), matched, failure(result))
                    &&& result matches Ok(count) ==> count == removed_count(old(self)@, matched)
                },
            distinct_positions(old(self)@) ==> distinct_positions(final(self)@),
    {
        let matched = self.judge(&predicate);
        let ghost before = *self;
        let result = self.delete_flagged(&matched);
        assert(deleted_as(before, *self, matched@, failure(result)));
        result
    }
}

/// `matched` holds, for every item, an answer the predicate gives about it.
pub open spec fn judged_by<F: Fn(&Todo) -> bool>(
    predicate: F,
    todos: Seq<Todo>,
    matched: Seq<bool>,
) -> bool {
    &&& matched.len() == todos.len()
    &&& forall|i: int|
        0 <= i < todos.len() ==> call_ensures(predicate, (&todos[i],), #[trigger] matched[i])
}

/// Within the flagged items, and within the others, whoever stood below
/// another before still stands below it after.
pub open spec fn keeps_order_within_groups(
    before: Seq<TodoView>,
    after: Seq<TodoView>,
    matched: Seq<bool>,
) -> bool {
    forall|i: int, j: int|
        0 <= i < before.len() && 0 <= j < before.len() && matched[i] == matched[j]
            && before[i].position < before[j].position ==> #[trigger] after[i].position
            < #[trigger] after[j].position
}

/// The outcome all the writes of the engine share: a write that is cut
/// short fails with [`EngineError::StoreUnavailable`], changes nothing and
/// uses the pending failure up; a write of `rows` rows that goes through
/// leaves the items as `applied` and uses up `rows` of the writes that
/// remain before the failure.  No write ever hands out an id.
pub open spec fn written_as(
    before: TodoStore,
    after: TodoStore,
    rows: int,
    applied: Seq<TodoView>,
    failure: Option<EngineError>,
) -> bool {
    &&& after.fresh_id() == before.fresh_id()
    &&& match failure {
        None => {
            &&& !cut_short(before.fault(), rows)
            &&& after@ == applied
            &&& after.fault() == fault_left(before.fault(), rows)
        },
        Some(EngineError::StoreUnavailable) => {
            &&& cut_short(before.fault(), rows)
            &&& after@ == before@
            &&& after.fault() is None
        },
        Some(EngineError::PreconditionViolation) => false,
    }
}

/// The outcome of a malformed request: it fails with
/// [`EngineError::PreconditionViolation`] before anything is written, and
/// changes nothing, not even the pending failure.
pub open spec fn refused_as(before: TodoStore, after: TodoStore, failure: Option<EngineError>) -> bool {
    &&& failure == Some(EngineError::PreconditionViolation)
    &&& after@ == before@
    &&& after.fault() == before.fault()
    &&& after.fresh_id() == before.fresh_id()
}

/// What a batch of position writes does to a store.  A batch the store
/// does not accept is refused; an accepted batch is a write of one row for
/// each of its pairs.
pub open spec fn reassigned_as(
    before: TodoStore,
    after: TodoStore,
    batch: Seq<(int, int)>,
    failure: Option<EngineError>,
) -> bool {
    if valid_batch(before@, batch) {
        written_as(before, after, batch.len() as int, reassigned(before@, batch), failure)
    } else {
        refused_as(before, after, failure)
    }
}

/// The outcome of a request the store has no numbers left for: it fails
/// with [`EngineError::StoreUnavailable`] before anything is written, and
/// changes nothing, not even the pending failure.
pub open spec fn declined_as(before: TodoStore, after: TodoStore, failure: Option<EngineError>) -> bool {
    &&& failure == Some(EngineError::StoreUnavailable)
    &&& after@ == before@
    &&& after.fault() == before.fault()
    &&& after.fresh_id() == before.fresh_id()
}

/// What reordering by a sequence of ids does to a store: a write of one row
/// for every live item the sequence names.  A sequence whose positions do
/// not fit in an `i32` is declined.
pub open spec fn reordered_as(
    before: TodoStore,
    after: TodoStore,
    ids: Seq<int>,
    failure: Option<EngineError>,
) -> bool {
    if reorder_fits(before@, ids) {
        written_as(
            before,
            after,
            explicit_batch(before@, ids).len() as int,
            reordered(before@, ids),
            failure,
        )
    } else {
        declined_as(before, after, failure)
    }
}

/// What a move of the flagged items to a boundary does to a store: a write
/// of one row for every item.
pub open spec fn moved_as(
    before: TodoStore,
    after: TodoStore,
    matched: Seq<bool>,
    boundary: Boundary,
    failure: Option<EngineError>,
) -> bool {
    if matched.len() == before@.len() {
        written_as(
            before,
            after,
            before@.len() as int,
            moved_to_boundary(before@, matched, boundary),
            failure,
        )
    } else {
        refused_as(before, after, failure)
    }
}

/// What a removal of the flagged items does to a store: a write of one row
/// for every item it takes away.
pub open spec fn deleted_as(
    before: TodoStore,
    after: TodoStore,
    matched: Seq<bool>,
    failure: Option<EngineError>,
) -> bool {
    if matched.len() == before@.len() {
        written_as(
            before,
            after,
            removed_count(before@, matched),
            survivors(before@, matched),
            failure,
        )
    } else {
        refused_as(before, after, failure)
    }
}

/// What ticking or unticking the item `id` does to a store: a write of one
/// row where the item is live, of none where it is not.
pub open spec fn marked_as(
    before: TodoStore,
    after: TodoStore,
    id: int,
    done: bool,
    failure: Option<EngineError>,
) -> bool {
    written_as(
        before,
        after,
        if has_id(before@, id) {
            1
        } else {
            0
        },
        marked(before@, id, done),
        failure,
    )
}

/// The item a store creates for a description.
pub open spec fn created_item(before: TodoStore, description: Seq<char>) -> TodoView {
    TodoView {
        id: before.fresh_id(),
        done: false,
        description: description,
        position: next_position(before@),
    }
}

/// What creating an item does to a store.  A store without room declines;
/// otherwise the creation is a write of one row that also uses the fresh
/// id up.
pub open spec fn created_as(
    before: TodoStore,
    after: TodoStore,
    description: Seq<char>,
    failure: Option<EngineError>,
) -> bool {
    if !before.has_room() {
        declined_as(before, after, failure)
    } else {
        match failure {
            None => {
                &&& !cut_short(before.fault(), 1)
                &&& after@ == before@.push(created_item(before, description))
                &&& after.fault() == fault_left(before.fault(), 1)
                &&& after.fresh_id() == before.fresh_id() + 1
            },
            Some(EngineError::StoreUnavailable) => {
                &&& cut_short(before.fault(), 1)
                &&& after@ == before@
                &&& after.fault() is None
                &&& after.fresh_id() == before.fresh_id()
            },
            Some(EngineError::PreconditionViolation) => false,
        }
    }
}

/// The error of a result, if it is one.
pub open spec fn failure<T>(result: Result<T, EngineError>) -> Option<EngineError> {
    match result {
        Ok(_) => None,
        Err(e) => Some(e),
    }
}

} // verus!
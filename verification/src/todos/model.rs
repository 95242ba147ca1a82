//! The todo item and the mathematical model the contracts speak about.

use vstd::prelude::*;

verus! {

/// One todo item as the store keeps it.
#[derive(Debug)]
pub struct Todo {
    pub id: i32,
    pub done: bool,
    pub description: String,
    pub position: i32,
}

/// What a [`Todo`] is, mathematically.
pub struct TodoView {
    pub id: int,
    pub done: bool,
    pub description: Seq<char>,
    pub position: int,
}

impl View for Todo {
    type V = TodoView;

    open spec fn view(&self) -> TodoView {
        TodoView {
            id: self.id as int,
            done: self.done,
            description: self.description@,
            position: self.position as int,
        }
    }
}

impl Clone for Todo {
    fn clone(&self) -> (copy: Self)
        ensures
            copy == *self,
    {
        Todo {
            id: self.id,
            done: self.done,
            description: self.description.clone(),
            position: self.position,
        }
    }
}

/// The views of a sequence of items, in the same order.
pub open spec fn todo_views(items: Seq<Todo>) -> Seq<TodoView> {
    Seq::new(items.len(), |i: int| items[i]@)
}

/// No two items share an id.
pub open spec fn distinct_ids(items: Seq<TodoView>) -> bool {
    forall|i: int, j: int| 0 <= i < j < items.len() ==> items[i].id != items[j].id
}

/// No two items share a position.
pub open spec fn distinct_positions(items: Seq<TodoView>) -> bool {
    forall|i: int, j: int| 0 <= i < j < items.len() ==> items[i].position != items[j].position
}

/// Some item carries the id `id`.
pub open spec fn has_id(items: Seq<TodoView>, id: int) -> bool {
    exists|i: int| 0 <= i < items.len() && items[i].id == id
}

/// The largest position among the items; meant for a sequence that is not
/// empty.
pub open spec fn highest_position(items: Seq<TodoView>) -> int
    decreases items.len(),
{
    if items.len() <= 1 {
        items[0].position
    } else {
        let rest = highest_position(items.drop_last());
        if items.last().position > rest {
            items.last().position
        } else {
            rest
        }
    }
}

/// The position a new item gets: one above every position there is, or 0
/// where there is no item yet.
pub open spec fn next_position(items: Seq<TodoView>) -> int {
    if items.len() == 0 {
        0
    } else {
        highest_position(items) + 1
    }
}

/// The least id that is positive and above the id of every item.
pub open spec fn fresh_id_for(items: Seq<TodoView>) -> int
    decreases items.len(),
{
    if items.len() == 0 {
        1
    } else {
        let rest = fresh_id_for(items.drop_last());
        if items.last().id + 1 > rest {
            items.last().id + 1
        } else {
            rest
        }
    }
}

/// The items with the completion flag of the item `id` set to `done`.
pub open spec fn marked(items: Seq<TodoView>, id: int, done: bool) -> Seq<TodoView> {
    Seq::new(
        items.len(),
        |i: int|
            if items[i].id == id {
                TodoView {
                    id: items[i].id,
                    done: done,
                    description: items[i].description,
                    position: items[i].position,
                }
            } else {
                items[i]
            },
    )
}

/// For each item, whether it is the item `id`.
pub open spec fn naming(items: Seq<TodoView>, id: int) -> Seq<bool> {
    Seq::new(items.len(), |i: int| items[i].id == id)
}

/// For each item, whether it is still to do.
pub open spec fn pending(items: Seq<TodoView>) -> Seq<bool> {
    Seq::new(items.len(), |i: int| !items[i].done)
}

/// For each item, whether it is completed.
pub open spec fn completed(items: Seq<TodoView>) -> Seq<bool> {
    Seq::new(items.len(), |i: int| items[i].done)
}

/// The highest position is the position of some item, and no item stands
/// above it.
pub proof fn lemma_highest_position(items: Seq<TodoView>)
    requires
        items.len() > 0,
    ensures
        forall|i: int| 0 <= i < items.len() ==> (#[trigger] items[i]).position <= highest_position(items),
        exists|i: int| 0 <= i < items.len() && (#[trigger] items[i]).position == highest_position(items),
    decreases items.len(),
{
    if items.len() > 1 {
        let front = items.drop_last();
        lemma_highest_position(front);
        assert forall|i: int| 0 <= i < items.len() implies (#[trigger] items[i]).position
            <= highest_position(items) by {
            if i < front.len() {
                assert(front[i] == items[i]);
            }
        }
        let w = choose|i: int| 0 <= i < front.len() && (#[trigger] front[i]).position == highest_position(front);
        assert(front[w] == items[w]);
        if items.last().position > highest_position(front) {
            assert(items[items.len() - 1].position == highest_position(items));
        } else {
            assert(items[w].position == highest_position(items));
        }
    } else {
        assert(items[0].position == highest_position(items));
    }
}

/// The fresh id is positive and above every id.
pub proof fn lemma_fresh_id_for(items: Seq<TodoView>)
    ensures
        fresh_id_for(items) >= 1,
        forall|i: int| 0 <= i < items.len() ==> (#[trigger] items[i]).id < fresh_id_for(items),
    decreases items.len(),
{
    if items.len() > 0 {
        let front = items.drop_last();
        lemma_fresh_id_for(front);
        assert forall|i: int| 0 <= i < items.len() implies (#[trigger] items[i]).id < fresh_id_for(
            items,
        ) by {
            if i < front.len() {
                assert(front[i] == items[i]);
            }
        }
    }
}

/// A batch of `(position, id)` pairs as mathematical integers.
pub open spec fn int_pairs(pairs: Seq<(i32, i32)>) -> Seq<(int, int)> {
    Seq::new(pairs.len(), |k: int| (pairs[k].0 as int, pairs[k].1 as int))
}

} // verus!

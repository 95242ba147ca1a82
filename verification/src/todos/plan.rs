//! Position plans: which position each item is to get, computed from a
//! snapshot of the items without touching any store.
//!
//! A plan is a batch of `(position, id)` pairs.  A larger position is shown
//! first, so the item that is to stand at the bottom gets position 0.

use vstd::prelude::*;
use crate::todos::model::{int_pairs, todo_views, Todo, TodoView};
use crate::todos::rank::{
    element_at_rank, int_keys, lemma_element_at_rank, lemma_rank_in_range,
    lemma_rank_respects_order, precedes, sorted_arrangement, stable_rank,
};
use crate::todos::token::{token_id, token_id_of, token_ids};

verus! {

/// The end of the list a group of items is moved to.
#[derive(Clone, Copy, Debug, PartialEq, Eq, Structural)]
pub enum Boundary {
    Top,
    Bottom,
}

/// The plan an explicit sequence of ids asks for, counted from the bottom
/// of the sequence: the last id gets place 0, the one before it place 1,
/// and so on up to the first id, which gets the highest place.  The store
/// lifts the places above the items the sequence does not name.
pub open spec fn explicit_plan(ids: Seq<int>) -> Seq<(int, int)> {
    Seq::new(ids.len(), |p: int| (p, ids[ids.len() - 1 - p]))
}

/// 0 for the items that go below the others, 1 for those that go above.
pub open spec fn group_of(matched: bool, boundary: Boundary) -> int {
    match boundary {
        Boundary::Bottom => if matched {
            0
        } else {
            1
        },
        Boundary::Top => if matched {
            1
        } else {
            0
        },
    }
}

/// The sort keys of a move to a boundary: first the group, then the
/// position the item has now.
pub open spec fn boundary_keys(items: Seq<TodoView>, matched: Seq<bool>, boundary: Boundary) -> Seq<
    (int, int),
> {
    Seq::new(items.len(), |i: int| (group_of(matched[i], boundary), items[i].position))
}

/// The position item `i` gets when the matched items move to the boundary.
pub open spec fn boundary_position(
    items: Seq<TodoView>,
    matched: Seq<bool>,
    boundary: Boundary,
    i: int,
) -> int {
    stable_rank(boundary_keys(items, matched, boundary), i)
}

/// The plan of a move to a boundary: position `r` goes to the item whose
/// boundary position is `r`.
pub open spec fn boundary_plan(items: Seq<TodoView>, matched: Seq<bool>, boundary: Boundary) -> Seq<
    (int, int),
> {
    Seq::new(
        items.len(),
        |r: int| (r, items[element_at_rank(boundary_keys(items, matched, boundary), r)].id),
    )
}

/// The sort keys of the listing: the larger position comes first.
pub open spec fn listing_keys(items: Seq<TodoView>) -> Seq<(int, int)> {
    Seq::new(items.len(), |i: int| (-items[i].position, 0int))
}

/// The items in the order they are shown: by position, largest first; items
/// that share a position keep the order they have in `items`.
pub open spec fn listing(items: Seq<TodoView>) -> Seq<TodoView> {
    Seq::new(items.len(), |r: int| items[element_at_rank(listing_keys(items), r)])
}

/// The listing never shows a smaller position above a larger one.
pub proof fn lemma_listing_descends(items: Seq<TodoView>, r: int, s: int)
    requires
        0 <= r < s < items.len(),
    ensures
        listing(items)[r].position >= listing(items)[s].position,
{
    let keys = listing_keys(items);
    lemma_element_at_rank(keys, r);
    lemma_element_at_rank(keys, s);
    let a = element_at_rank(keys, r);
    let b = element_at_rank(keys, s);
    if items[a].position < items[b].position {
        assert(precedes(keys, b, a));
        lemma_rank_respects_order(keys, b, a);
    }
}

/// The listing shows every item, each at the rank of its key.
pub proof fn lemma_listing_shows_every_item(items: Seq<TodoView>, i: int)
    requires
        0 <= i < items.len(),
    ensures
        0 <= stable_rank(listing_keys(items), i) < items.len(),
        listing(items)[stable_rank(listing_keys(items), i)] == items[i],
{
    let keys = listing_keys(items);
    lemma_rank_in_range(keys, i);
    lemma_element_at_rank(keys, stable_rank(keys, i));
}

/// Turns the tokens of an explicit ordering, given top to bottom, into a
/// plan of places: the token at the bottom gets place 0.
pub fn explicit_positions(order: &Vec<String>) -> (plan: Vec<(i32, i32)>)
    requires
        order.len() <= i32::MAX,
    ensures
        int_pairs(plan@) == explicit_plan(token_ids(order@)),
{
    let n = order.len();
    let mut plan: Vec<(i32, i32)> = Vec::new();
    let mut p: usize = 0;
    while p < n
        invariant
            p <= n,
            n == order.len(),
            n <= i32::MAX,
            plan.len() == p,
            forall|q: int|
                0 <= q < p ==> #[trigger] plan[q] == (
                    q as i32,
                    token_id_of(order[n - 1 - q]@),
                ),
        decreases n - p,
    {
        let id = token_id(order[n - 1 - p].as_str());
        plan.push((p as i32, id));
        p += 1;
    }
    assert(int_pairs(plan@) =~= explicit_plan(token_ids(order@)));
    plan
}

fn group(matched: bool, boundary: Boundary) -> (g: i64)
    ensures
        g == group_of(matched, boundary),
{
    match boundary {
        Boundary::Bottom => if matched {
            0
        } else {
            1
        },
        Boundary::Top => if matched {
            1
        } else {
            0
        },
    }
}

/// Plans the move of the matched items to a boundary.  Within the matched
/// items, and within the others, an item that stood below another still
/// stands below it.
pub fn boundary_positions(todos: &Vec<Todo>, matched: &Vec<bool>, boundary: Boundary) -> (plan: Vec<
    (i32, i32),
>)
    requires
        matched.len() == todos.len(),
        todos.len() <= i32::MAX,
    ensures
        int_pairs(plan@) == boundary_plan(todo_views(todos@), matched@, boundary),
{
    let n = todos.len();
    let ghost items = todo_views(todos@);
    let mut keys: Vec<(i64, i64)> = Vec::new();
    let mut i: usize = 0;
    while i < n
        invariant
            i <= n,
            n == todos.len(),
            n == matched.len(),
            keys.len() == i,
            forall|j: int|
                0 <= j < i ==> #[trigger] keys[j] == (
                    group_of(matched[j], boundary) as i64,
                    todos[j].position as i64,
                ),
        decreases n - i,
    {
        keys.push((group(matched[i], boundary), todos[i].position as i64));
        i += 1;
    }
    assert(int_keys(keys@) =~= boundary_keys(items, matched@, boundary));
    let order = sorted_arrangement(&keys);
    let mut plan: Vec<(i32, i32)> = Vec::new();
    let mut r: usize = 0;
    while r < n
        invariant
            r <= n,
            n == todos.len(),
            n <= i32::MAX,
            order.len() == n,
            items == todo_views(todos@),
            int_keys(keys@) == boundary_keys(items, matched@, boundary),
            forall|q: int|
                0 <= q < n ==> #[trigger] order[q] == element_at_rank(int_keys(keys@), q),
            plan.len() == r,
            forall|q: int|
                0 <= q < r ==> #[trigger] plan[q] == (
                    q as i32,
                    todos[element_at_rank(int_keys(keys@), q)].id,
                ),
        decreases n - r,
    {
        proof {
            lemma_element_at_rank(int_keys(keys@), r as int);
        }
        plan.push((r as i32, todos[order[r]].id));
        r += 1;
    }
    assert(int_pairs(plan@) =~= boundary_plan(items, matched@, boundary)) by {
        assert forall|q: int| 0 <= q < n implies int_pairs(plan@)[q] == boundary_plan(
            items,
            matched@,
            boundary,
        )[q] by {
            lemma_element_at_rank(int_keys(keys@), q);
        }
    }
    plan
}

/// Lists the items as they are shown: largest position first.
pub fn list_ordered(todos: &Vec<Todo>) -> (listed: Vec<Todo>)
    ensures
        todo_views(listed@) == listing(todo_views(todos@)),
{
    let n = todos.len();
    let ghost items = todo_views(todos@);
    let mut keys: Vec<(i64, i64)> = Vec::new();
    let mut i: usize = 0;
    while i < n
        invariant
            i <= n,
            n == todos.len(),
            keys.len() == i,
            forall|j: int| 0 <= j < i ==> #[trigger] keys[j] == ((-todos[j].position) as i64, 0i64),
        decreases n - i,
    {
        keys.push((-(todos[i].position as i64), 0));
        i += 1;
    }
    assert(int_keys(keys@) =~= listing_keys(items));
    let order = sorted_arrangement(&keys);
    let mut listed: Vec<Todo> = Vec::new();
    let mut r: usize = 0;
    while r < n
        invariant
            r <= n,
            n == todos.len(),
            order.len() == n,
            items == todo_views(todos@),
            int_keys(keys@) == listing_keys(items),
            forall|q: int|
                0 <= q < n ==> #[trigger] order[q] == element_at_rank(int_keys(keys@), q),
            listed.len() == r,
            forall|q: int|
                0 <= q < r ==> #[trigger] listed[q] == todos[element_at_rank(int_keys(keys@), q)],
        decreases n - r,
    {
        proof {
            lemma_element_at_rank(int_keys(keys@), r as int);
        }
        listed.push(todos[order[r]].clone());
        r += 1;
    }
    assert(todo_views(listed@) =~= listing(items)) by {
        assert forall|q: int| 0 <= q < n implies todo_views(listed@)[q] == listing(items)[q] by {
            lemma_element_at_rank(int_keys(keys@), q);
        }
    }
    listed
}

} // verus!

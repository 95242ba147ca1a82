//! The requests of the todo list: what each one does to the store and what
//! page it answers with.
//!
//! Every request that changes the store answers with the list as it is
//! afterwards, or with the error of the one write it makes; a request that
//! fails has changed nothing.

use vstd::prelude::*;
use crate::todos::model::{
    completed, distinct_positions, int_pairs, naming, pending, todo_views, Todo, TodoView,
};
use crate::todos::plan::{listing, Boundary};
use crate::todos::removal::{removed_count, survivors, survivors_upto};
use crate::todos::store::{
    created_as, deleted_as, failure, judged_by, keeps_order_within_groups, marked_as, moved_as,
    reassigned_as, reordered_as, EngineError, TodoStore,
};
use crate::todos::templates::{
    entries_of, entry_of, TodoLiTemplate, TodosInnerTemplate, TodosUlTemplate,
};
use crate::todos::token::token_ids;

verus! {

/// The form that creates an item.
#[derive(Debug)]
pub struct TodoCreateParams {
    pub description: String,
}

/// The form that rearranges the list: the id tokens from the top of the
/// list to the bottom.
#[derive(Debug)]
pub struct TodoOrderingParams {
    pub order: Vec<String>,
}

/// The form that ticks or unticks an item: the value of its check box, if
/// the form carries one.
#[derive(Debug)]
pub struct TodoUpdateParams {
    pub done: Option<String>,
}

/// The state of a check box.
#[derive(Debug, Clone, Copy, PartialEq, Eq, Structural)]
pub enum CheckBox {
    On,
    Off,
}

impl From<CheckBox> for bool {
    fn from(val: CheckBox) -> (ticked: Self) {
        match val {
            CheckBox::On => true,
            CheckBox::Off => false,
        }
    }
}

impl vstd::std_specs::convert::FromSpecImpl<CheckBox> for bool {
    open spec fn obeys_from_spec() -> bool {
        true
    }

    open spec fn from_spec(val: CheckBox) -> Self {
        val == CheckBox::On
    }
}

/// The state a form value stands for: on for the text `on`, off for any
/// other text.
pub open spec fn check_box_of(text: Seq<char>) -> CheckBox {
    if text == "on"@ {
        CheckBox::On
    } else {
        CheckBox::Off
    }
}

impl CheckBox {
    /// Reads the state of a check box from the value the form carries.
    pub fn read(val: String) -> (state: Self)
        ensures
            state == check_box_of(val@),
    {
        let on = "on".to_owned();
        if val == on {
            CheckBox::On
        } else {
            CheckBox::Off
        }
    }
}

/// Whether the form ticks the item: it does where it carries the check box
/// value `on`.
pub open spec fn ticked(done: Option<String>) -> bool {
    match done {
        Some(text) => text@ == "on"@,
        None => false,
    }
}

/// The live items, top of the list first.
pub fn get_todos(store: &TodoStore) -> (todos: Vec<Todo>)
    ensures
        todo_views(todos@) == listing(store@),
{
    store.list_ordered()
}

/// Shows items as list entries, in the same order.
pub fn render_todos(todos: Vec<Todo>) -> (page: TodosInnerTemplate)
    ensures
        page@ == entries_of(todo_views(todos@)),
{
    let ghost items = todo_views(todos@);
    let mut todos = todos;
    let n = todos.len();
    // Entries are taken off the end, so they are collected bottom first.
    let mut bottom_up: Vec<TodoLiTemplate> = Vec::new();
    while todos.len() > 0
        invariant
            n == items.len(),
            todos.len() + bottom_up.len() == n,
            todo_views(todos@) == items.take(todos.len() as int),
            forall|k: int|
                0 <= k < bottom_up.len() ==> (#[trigger] bottom_up[k])@ == entry_of(items[n - 1 - k]),
        decreases todos.len(),
    {
        let ghost left = todos.len();
        let last = todos.pop();
        match last {
            Some(todo) => {
                assert(todo@ == items[left - 1]) by {
                    assert(items.take(left as int)[left - 1] == items[left - 1]);
                }
                bottom_up.push(TodoLiTemplate::from(todo));
                assert(todo_views(todos@) =~= items.take(left - 1));
            },
            None => {},
        }
    }
    let mut entries: Vec<TodoLiTemplate> = Vec::new();
    while bottom_up.len() > 0
        invariant
            n == items.len(),
            bottom_up.len() + entries.len() == n,
            forall|k: int|
                0 <= k < bottom_up.len() ==> (#[trigger] bottom_up[k])@ == entry_of(items[n - 1 - k]),
            forall|k: int| 0 <= k < entries.len() ==> (#[trigger] entries[k])@ == entry_of(items[k]),
        decreases bottom_up.len(),
    {
        match bottom_up.pop() {
            Some(entry) => {
                entries.push(entry);
            },
            None => {},
        }
    }
    let page = TodosInnerTemplate { todos: entries };
    assert(page@ =~= entries_of(items));
    page
}

/// The list as the store holds it now.
fn render_all_todos(store: &TodoStore) -> (page: TodosInnerTemplate)
    ensures
        page@ == entries_of(listing(store@)),
{
    render_todos(get_todos(store))
}

/// Shows the whole list.
pub fn list(store: &TodoStore) -> (page: TodosUlTemplate)
    ensures
        page@ == entries_of(listing(store@)),
{
    TodosUlTemplate { todos: render_all_todos(store) }
}

/// The ids of the given items, in the same order.
pub fn ids_of(todos: &Vec<Todo>) -> (ids: Vec<i32>)
    ensures
        ids.len() == todos.len(),
        forall|i: int| 0 <= i < ids.len() ==> #[trigger] ids[i] == todos[i].id,
{
    let mut ids: Vec<i32> = Vec::new();
    let mut i: usize = 0;
    while i < todos.len()
        invariant
            i <= todos.len(),
            ids.len() == i,
            forall|j: int| 0 <= j < i ==> #[trigger] ids[j] == todos[j].id,
        decreases todos.len() - i,
    {
        ids.push(todos[i].id);
        i += 1;
    }
    ids
}

/// Splits items into the completed ones and the others, each part in the
/// order it had.
pub fn split_completed(todos: Vec<Todo>) -> (parts: (Vec<Todo>, Vec<Todo>))
    ensures
        todo_views(parts.0@) == survivors(todo_views(todos@), pending(todo_views(todos@))),
        todo_views(parts.1@) == survivors(todo_views(todos@), completed(todo_views(todos@))),
{
    let ghost items = todo_views(todos@);
    let n = todos.len();
    let mut done: Vec<Todo> = Vec::new();
    let mut rest: Vec<Todo> = Vec::new();
    let mut i: usize = 0;
    while i < n
        invariant
            i <= n,
            n == todos.len(),
            items == todo_views(todos@),
            todo_views(done@) == survivors_upto(items, pending(items), i as int),
            todo_views(rest@) == survivors_upto(items, completed(items), i as int),
        decreases n - i,
    {
        if todos[i].done {
            done.push(todos[i].clone());
            assert(todo_views(done@) =~= survivors_upto(items, pending(items), i as int).push(
                items[i as int],
            ));
        } else {
            rest.push(todos[i].clone());
            assert(todo_views(rest@) =~= survivors_upto(items, completed(items), i as int).push(
                items[i as int],
            ));
        }
        i += 1;
    }
    (done, rest)
}

/// For each item, whether it is one of `todos`: whether its id is the id of
/// one of them.
pub open spec fn among(items: Seq<TodoView>, todos: Seq<Todo>) -> Seq<bool> {
    Seq::new(
        items.len(),
        |i: int| exists|k: int| 0 <= k < todos.len() && (#[trigger] todos[k]).id == items[i].id,
    )
}

/// Removes the given items from the store, found by their ids, as one
/// indivisible write.
pub fn delete_todos(todos: Vec<Todo>, store: &mut TodoStore) -> (result: Result<(), EngineError>)
    requires
        old(store).wf(),
    ensures
        final(store).wf(),
        deleted_as(*old(store), *final(store), among(old(store)@, todos@), failure(result)),
        distinct_positions(old(store)@) ==> distinct_positions(final(store)@),
{
    let ghost before = store@;
    let n = store.len();
    // The flags go by the place an item has in the store, so the ids are
    // looked up in the store's own order.
    let mut matched: Vec<bool> = Vec::new();
    let mut i: usize = 0;
    while i < n
        invariant
            i <= n,
            n == store@.len(),
            store@ == before,
            *store == *old(store),
            matched.len() == i,
            forall|j: int| 0 <= j < i ==> #[trigger] matched[j] == among(before, todos@)[j],
        decreases n - i,
    {
        let id = store.id_at(i);
        let mut found = false;
        let mut k: usize = 0;
        while k < todos.len()
            invariant
                k <= todos.len(),
                found == exists|q: int| 0 <= q < k && (#[trigger] todos[q]).id == id,
            decreases todos.len() - k,
        {
            if todos[k].id == id {
                found = true;
            }
            k += 1;
        }
        matched.push(found);
        i += 1;
    }
    assert(matched@ =~= among(before, todos@));
    match store.delete_flagged(&matched) {
        Ok(_) => Ok(()),
        Err(e) => Err(e),
    }
}

/// Creates an item from the form and shows the list with the new item at
/// its top.
pub fn create(store: &mut TodoStore, params: TodoCreateParams) -> (result: Result<
    TodosInnerTemplate,
    EngineError,
>)
    requires
        old(store).wf(),
    ensures
        final(store).wf(),
        created_as(*old(store), *final(store), params.description@, failure(result)),
        result matches Ok(page) ==> page@ == entries_of(listing(final(store)@)),
        distinct_positions(old(store)@) ==> distinct_positions(final(store)@),
{
    match store.create(params.description) {
        Ok(_) => Ok(render_all_todos(store)),
        Err(e) => Err(e),
    }
}

/// Sends the completed items to the bottom of the list and shows the list.
/// The completed items keep their order among themselves, and so do the
/// others.
pub fn move_complete_to_bottom(store: &mut TodoStore) -> (result: Result<
    TodosInnerTemplate,
    EngineError,
>)
    requires
        old(store).wf(),
    ensures
        final(store).wf(),
        moved_as(
            *old(store),
            *final(store),
            completed(old(store)@),
            Boundary::Bottom,
            failure(result),
        ),
        result matches Ok(page) ==> page@ == entries_of(listing(final(store)@)),
        result is Ok ==> distinct_positions(final(store)@),
        result is Ok ==> keeps_order_within_groups(
            old(store)@,
            final(store)@,
            completed(old(store)@),
        ),
{
    let ghost before = *store;
    let is_done = |todo: &Todo| -> (done: bool)
        ensures
            done == todo.done,
        { todo.done };
    let moved = store.move_group_to_boundary(is_done, Boundary::Bottom);
    proof {
        let matched = choose|matched: Seq<bool>|
            {
                &&& judged_by(is_done, before.todos(), matched)
                &&& #[trigger] moved_as(before, *store, matched, Boundary::Bottom, failure(moved))
                &&& moved is Ok ==> keeps_order_within_groups(before@, store@, matched)
            };
        assert(matched =~= completed(before@));
    }
    match moved {
        Ok(()) => Ok(render_all_todos(store)),
        Err(e) => Err(e),
    }
}

/// Deletes the completed items and shows the items that are left.
pub fn delete_completed(store: &mut TodoStore) -> (result: Result<TodosInnerTemplate, EngineError>)
    requires
        old(store).wf(),
    ensures
        final(store).wf(),
        deleted_as(*old(store), *final(store), completed(old(store)@), failure(result)),
        result matches Ok(page) ==> page@ == entries_of(listing(final(store)@)),
        distinct_positions(old(store)@) ==> distinct_positions(final(store)@),
{
    let ghost before = *store;
    let is_done = |todo: &Todo| -> (done: bool)
        ensures
            done == todo.done,
        { todo.done };
    let deleted = store.delete_where(is_done);
    proof {
        let matched = choose|matched: Seq<bool>|
            {
                &&& judged_by(is_done, before.todos(), matched)
                &&& #[trigger] deleted_as(before, *store, matched, failure(deleted))
                &&& deleted matches Ok(count) ==> count == removed_count(
                    before@,
                    matched,
                )
            };
        assert(matched =~= completed(before@));
    }
    match deleted {
        Ok(_) => Ok(render_all_todos(store)),
        Err(e) => Err(e),
    }
}

/// Writes a batch of `(position, id)` pairs to the store as one indivisible
/// write.  A batch that would leave two items at one position is refused.
pub fn set_positions(position_data: Vec<(i32, i32)>, store: &mut TodoStore) -> (result: Result<
    (),
    EngineError,
>)
    requires
        old(store).wf(),
    ensures
        final(store).wf(),
        reassigned_as(*old(store), *final(store), int_pairs(position_data@), failure(result)),
        distinct_positions(old(store)@) ==> distinct_positions(final(store)@),
{
    store.reassign_positions(&position_data)
}

/// Rearranges the list as the form asks and shows it.  The form lists id
/// tokens from the top of the list to the bottom; the items it names move
/// above the items it does not name.
pub fn update_order(store: &mut TodoStore, params: TodoOrderingParams) -> (result: Result<
    TodosInnerTemplate,
    EngineError,
>)
    requires
        old(store).wf(),
        params.order.len() <= i32::MAX,
    ensures
        final(store).wf(),
        reordered_as(*old(store), *final(store), token_ids(params.order@), failure(result)),
        result matches Ok(page) ==> page@ == entries_of(listing(final(store)@)),
        distinct_positions(old(store)@) ==> distinct_positions(final(store)@),
{
    match store.reorder_by_explicit_sequence(&params.order) {
        Ok(()) => Ok(render_all_todos(store)),
        Err(e) => Err(e),
    }
}

/// Ticks or unticks the item `todo_id` as the form asks and shows the list.
/// A form without a check box value, or with any value but `on`, unticks.
pub fn update(todo_id: i32, store: &mut TodoStore, params: TodoUpdateParams) -> (result: Result<
    TodosInnerTemplate,
    EngineError,
>)
    requires
        old(store).wf(),
    ensures
        final(store).wf(),
        marked_as(*old(store), *final(store), todo_id as int, ticked(params.done), failure(result)),
        result matches Ok(page) ==> page@ == entries_of(listing(final(store)@)),
        distinct_positions(old(store)@) ==> distinct_positions(final(store)@),
{
    let check_box = match params.done {
        Some(text) => CheckBox::read(text),
        None => CheckBox::Off,
    };
    let check_box: bool = bool::from(check_box);
    match store.set_done(todo_id, check_box) {
        Ok(()) => Ok(render_all_todos(store)),
        Err(e) => Err(e),
    }
}

/// Deletes the item `todo_id` and shows the list.  The other items keep
/// their positions.
pub fn delete(todo_id: i32, store: &mut TodoStore) -> (result: Result<
    TodosInnerTemplate,
    EngineError,
>)
    requires
        old(store).wf(),
    ensures
        final(store).wf(),
        deleted_as(
            *old(store),
            *final(store),
            naming(old(store)@, todo_id as int),
            failure(result),
        ),
        result matches Ok(page) ==> page@ == entries_of(listing(final(store)@)),
        distinct_positions(old(store)@) ==> distinct_positions(final(store)@),
{
    match store.remove(todo_id) {
        Ok(_) => Ok(render_all_todos(store)),
        Err(e) => Err(e),
    }
}

} // verus!

//! What the pages of the todo list show, as plain data.  Turning it into
//! markup is left to the caller.

use vstd::prelude::*;
use crate::todos::model::{Todo, TodoView};

verus! {

/// One entry of the list.
#[derive(Debug)]
pub struct TodoLiTemplate {
    pub id: i32,
    pub done: bool,
    pub description: String,
}

/// What a [`TodoLiTemplate`] is, mathematically.
pub struct TodoLiView {
    pub id: int,
    pub done: bool,
    pub description: Seq<char>,
}

impl View for TodoLiTemplate {
    type V = TodoLiView;

    open spec fn view(&self) -> TodoLiView {
        TodoLiView { id: self.id as int, done: self.done, description: self.description@ }
    }
}

/// The entries of the list, top to bottom.
#[derive(Debug)]
pub struct TodosInnerTemplate {
    pub todos: Vec<TodoLiTemplate>,
}

impl View for TodosInnerTemplate {
    type V = Seq<TodoLiView>;

    open spec fn view(&self) -> Seq<TodoLiView> {
        Seq::new(self.todos@.len(), |i: int| self.todos@[i]@)
    }
}

/// The whole list: its entries inside the list frame.
#[derive(Debug)]
pub struct TodosUlTemplate {
    pub todos: TodosInnerTemplate,
}

impl View for TodosUlTemplate {
    type V = Seq<TodoLiView>;

    open spec fn view(&self) -> Seq<TodoLiView> {
        self.todos@
    }
}

/// The entry that shows an item: everything but its position.
pub open spec fn entry_of(item: TodoView) -> TodoLiView {
    TodoLiView { id: item.id, done: item.done, description: item.description }
}

/// The entries that show a sequence of items, in the same order.
pub open spec fn entries_of(items: Seq<TodoView>) -> Seq<TodoLiView> {
    Seq::new(items.len(), |i: int| entry_of(items[i]))
}

impl From<Todo> for TodoLiTemplate {
    fn from(todo: Todo) -> (entry: Self) {
        TodoLiTemplate { id: todo.id, done: todo.done, description: todo.description }
    }
}

impl vstd::std_specs::convert::FromSpecImpl<Todo> for TodoLiTemplate {
    open spec fn obeys_from_spec() -> bool {
        true
    }

    open spec fn from_spec(todo: Todo) -> Self {
        TodoLiTemplate { id: todo.id, done: todo.done, description: todo.description }
    }
}

} // verus!

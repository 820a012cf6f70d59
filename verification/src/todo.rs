//! The todo item record and its mathematical view.

use vstd::prelude::*;

verus! {

/// Mathematical view of a [`TodoItem`]: the body as a character sequence,
/// the completion flag, and the creation timestamp.
pub ghost struct TodoItemView {
    pub body: Seq<char>,
    pub completed: bool,
    pub created_at: u64,
}

/// A single task: a text body, a completion flag, and a creation timestamp
/// (seconds since the Unix epoch, UTC), set once at creation and never
/// changed by storage operations.
#[derive(Debug)]
pub struct TodoItem {
    pub body: String,
    pub completed: bool,
    pub created_at: u64,
}

impl View for TodoItem {
    type V = TodoItemView;

    open spec fn view(&self) -> TodoItemView {
        TodoItemView { body: self.body@, completed: self.completed, created_at: self.created_at }
    }
}

/// The views of a sequence of items, in order.
pub open spec fn views_of(items: Seq<TodoItem>) -> Seq<TodoItemView> {
    items.map_values(|t: TodoItem| t@)
}

impl TodoItem {
    /// Creates a fresh, not yet completed item. The creation time is an
    /// explicit argument so that the record stays a pure function of its
    /// inputs; the caller supplies the current clock reading.
    pub fn new(body: String, created_at: u64) -> (r: TodoItem)
        ensures
            r@ == (TodoItemView { body: body@, completed: false, created_at }),
    {
        TodoItem { body, completed: false, created_at }
    }

    /// Marks the item as completed; body and creation time are untouched.
    pub fn complete(&mut self)
        ensures
            final(self)@ == (TodoItemView { completed: true, ..old(self)@ }),
    {
        self.completed = true;
    }

    /// Marks the item as not completed; body and creation time are untouched.
    pub fn uncomplete(&mut self)
        ensures
            final(self)@ == (TodoItemView { completed: false, ..old(self)@ }),
    {
        self.completed = false;
    }
}

impl PartialEq for TodoItem {
    fn eq(&self, other: &TodoItem) -> (r: bool) {
        self.body == other.body && self.completed == other.completed && self.created_at
            == other.created_at
    }
}

impl vstd::std_specs::cmp::PartialEqSpecImpl for TodoItem {
    open spec fn obeys_eq_spec() -> bool {
        true
    }

    open spec fn eq_spec(&self, other: &TodoItem) -> bool {
        self@ == other@
    }
}

} // verus!

//! Data model for the task store: a single record type and its state.
use vstd::prelude::*;

verus! {

/// The completion state of a todo record.
#[derive(Debug, Clone, Copy, PartialEq, Eq, Structural)]
pub enum TodoState {
    /// Todo is pending completion
    Pending,
    /// Todo is completed
    Completed,
}

/// One task record: a unique numeric id, free-form text, and a state.
#[derive(Debug)]
pub struct Todo {
    /// Unique identifier
    pub id: u64,
    /// The todo content
    pub content: String,
    /// The state as defined in TodoState
    pub state: TodoState,
}

/// Mathematical image of a [`Todo`]: the content as a sequence of characters.
pub struct TodoView {
    pub id: u64,
    pub content: Seq<char>,
    pub state: TodoState,
}

impl View for Todo {
    type V = TodoView;

    open spec fn view(&self) -> TodoView {
        TodoView { id: self.id, content: self.content@, state: self.state }
    }
}

impl DeepView for Todo {
    type V = TodoView;

    open spec fn deep_view(&self) -> TodoView {
        self.view()
    }
}

impl Clone for Todo {
    fn clone(&self) -> (r: Self)
        ensures
            r@ == self@,
    {
        Todo { id: self.id, content: self.content.clone(), state: self.state }
    }
}

impl Todo {
    /// Build a record from its parts.
    pub fn new(id: u64, content: String, state: TodoState) -> (r: Todo)
        ensures
            r@ == (TodoView { id, content: content@, state }),
    {
        Todo { id, content, state }
    }
}

} // verus!

//! The todo record model: status, record, and the creation/update inputs,
//! together with the presentation label mapping for statuses.

use vstd::prelude::*;

verus! {

/// The three states a record can be in. Any state may move to any other.
#[derive(Debug, Clone, Copy, PartialEq, Eq, Structural)]
pub enum TodoStatus {
    Completed,
    Pending,
    InProgress,
}

/// One todo record: a unique identifier, a non-empty task description,
/// and the current status. Only the status changes after creation.
#[derive(Debug, Clone)]
pub struct Todo {
    pub id: String,
    pub task: String,
    pub status: TodoStatus,
}

/// The input of a record creation: the task description.
pub struct TodoCreate {
    pub task: String,
}

/// The input of a status update: the new status.
pub struct TodoUpdate {
    pub status: TodoStatus,
}

/// The mathematical value of a record: both strings as character
/// sequences, and the status.
pub struct TodoView {
    pub id: Seq<char>,
    pub task: Seq<char>,
    pub status: TodoStatus,
}

impl View for Todo {
    type V = TodoView;

    open spec fn view(&self) -> TodoView {
        TodoView { id: self.id@, task: self.task@, status: self.status }
    }
}

/// Relies on uuid::Uuid::new_v4 and its Display form: a freshly drawn
/// random identifier, rendered in the hyphenated form of 36 characters.
/// Which identifier comes back cannot be promised, only its shape. The
/// draw aborts the process if the operating system's randomness source
/// fails, as running out of memory would.
#[verifier::external_body]
pub(crate) fn get_random_id() -> (r: String)
    ensures
        r@.len() == 36,
{
    uuid::Uuid::new_v4().to_string()
}

impl Todo {
    /// Builds a new record for the given task: a freshly drawn, non-empty
    /// identifier and `Pending` status. Uniqueness of the identifier
    /// against a collection is the store's concern, not this
    /// constructor's.
    pub fn new(todo_create: TodoCreate) -> (r: Self)
        ensures
            r@.task == todo_create.task@,
            r@.status == TodoStatus::Pending,
            r@.id.len() > 0,
    {
        Todo { id: get_random_id(), status: TodoStatus::Pending, task: todo_create.task }
    }

    /// Replaces the status; identifier and task are untouched.
    pub fn update(&mut self, todo_update: TodoUpdate)
        ensures
            final(self)@.id == old(self)@.id,
            final(self)@.task == old(self)@.task,
            final(self)@.status == todo_update.status,
    {
        self.status = todo_update.status;
    }
}

/// The presentation label of a status, as shown to a user.
pub open spec fn spec_status_label(s: TodoStatus) -> Seq<char> {
    match s {
        TodoStatus::Completed => "Completed"@,
        TodoStatus::Pending => "Pending"@,
        TodoStatus::InProgress => "In progress"@,
    }
}

/// An unrecognized presentation label was given where a status was expected.
#[derive(Debug, Clone, PartialEq, Eq, Structural)]
pub struct LabelMappingError;

/// Maps a status to its presentation label.
pub fn get_status_string(todo_status: &TodoStatus) -> (r: String)
    ensures
        r@ == spec_status_label(*todo_status),
{
    match todo_status {
        TodoStatus::Completed => "Completed".to_owned(),
        TodoStatus::Pending => "Pending".to_owned(),
        TodoStatus::InProgress => "In progress".to_owned(),
    }
}

/// The status a presentation label names, if any.
pub open spec fn spec_status_of_label(l: Seq<char>) -> Option<TodoStatus> {
    if l == spec_status_label(TodoStatus::Completed) {
        Some(TodoStatus::Completed)
    } else if l == spec_status_label(TodoStatus::Pending) {
        Some(TodoStatus::Pending)
    } else if l == spec_status_label(TodoStatus::InProgress) {
        Some(TodoStatus::InProgress)
    } else {
        None
    }
}

/// Maps a presentation label back to the status it names; an unrecognized
/// label is a recoverable error.
pub fn get_status_from_string(todo_status: &str) -> (r: Result<TodoStatus, LabelMappingError>)
    ensures
        (match spec_status_of_label(todo_status@) {
            Some(s) => r == Ok::<TodoStatus, LabelMappingError>(s),
            None => r == Err::<TodoStatus, LabelMappingError>(LabelMappingError),
        }),
{
    let owned = todo_status.to_owned();
    if owned == "Completed".to_owned() {
        Ok(TodoStatus::Completed)
    } else if owned == "Pending".to_owned() {
        Ok(TodoStatus::Pending)
    } else if owned == "In progress".to_owned() {
        Ok(TodoStatus::InProgress)
    } else {
        Err(LabelMappingError)
    }
}

} // verus!

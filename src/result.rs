use vstd::prelude::*;

verus! {

/// What a successful command reports.
#[derive(Debug)]
pub enum Message {
    /// A task of this name was created.
    CreatedTask(String),
    /// The names that were deleted, and the names that could not be.
    DeletedTasks(Vec<String>, Vec<String>),
    /// Changes were applied to the task of this name.
    AppliedTaskChanges(String),
}

/// Why a command on the store failed.
#[derive(Debug)]
pub enum SystemError {
    /// A task of this name is already in the store.
    TaskAlreadyExists(String),
    /// No task of this name is in the store.
    TaskDoesntExist(String),
    /// The store holds no task.
    Empty,
}

} // verus!

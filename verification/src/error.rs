//! What can go wrong when the store is asked to change or to report.

use vstd::prelude::*;

verus! {

/// Why the store refused a request. A refused request leaves the store as it
/// was.
#[derive(Debug, Clone, Copy, PartialEq, Eq, Structural)]
pub enum DbError {
    /// A text that a new row must have is empty.
    EmptyField,
    /// A row with that identity is already in the table.
    DuplicateId,
    /// A task names a project that is not in the store.
    UnknownProject,
    /// A subtask or a focus session names a task that is not in the store.
    UnknownTask,
    /// The row to change is not in the store.
    NotFound,
    /// A record breaks a rule of the life of a task.
    InvalidRecord,
    /// A time or a figure does not fit the field that holds it.
    OutOfRange,
    /// The machine's time zone gave no answer for an instant or a wall-clock
    /// time.
    NoLocalTime,
}

impl DbError {
    /// The words in which the error is reported.
    pub open spec fn text(self) -> Seq<char> {
        match self {
            DbError::EmptyField => "a required field is empty"@,
            DbError::DuplicateId => "a row with this id already exists"@,
            DbError::UnknownProject => "the project does not exist"@,
            DbError::UnknownTask => "the task does not exist"@,
            DbError::NotFound => "no such row"@,
            DbError::InvalidRecord => "the record is inconsistent"@,
            DbError::OutOfRange => "a value is out of range"@,
            DbError::NoLocalTime => "the local time could not be resolved"@,
        }
    }

    /// The words in which the error is reported.
    pub fn message(&self) -> (s: String)
        ensures
            s@ == self.text(),
    {
        match self {
            DbError::EmptyField => "a required field is empty".to_owned(),
            DbError::DuplicateId => "a row with this id already exists".to_owned(),
            DbError::UnknownProject => "the project does not exist".to_owned(),
            DbError::UnknownTask => "the task does not exist".to_owned(),
            DbError::NotFound => "no such row".to_owned(),
            DbError::InvalidRecord => "the record is inconsistent".to_owned(),
            DbError::OutOfRange => "a value is out of range".to_owned(),
            DbError::NoLocalTime => "the local time could not be resolved".to_owned(),
        }
    }
}

} // verus!

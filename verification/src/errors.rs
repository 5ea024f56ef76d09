//! The errors that operations on tables report.

use crate::string_map::Duplicate;
use crate::text::Text;
use vstd::prelude::*;

verus! {

/// What kind of thing went wrong.
#[derive(Debug, Clone, Copy, PartialEq, Eq, Structural)]
pub enum ErrorKind {
    NotFound,
    InvalidInput,
    InvalidData,
    Other,
}

/// An error with a message.
#[derive(Debug, PartialEq, Eq)]
pub struct DbError {
    pub kind: ErrorKind,
    pub message: String,
}

/// A [`DbError`] as a mathematical value.
pub struct ErrorView {
    pub kind: ErrorKind,
    pub message: Text,
}

impl DeepView for DbError {
    type V = ErrorView;

    open spec fn deep_view(&self) -> ErrorView {
        ErrorView { kind: self.kind, message: self.message@ }
    }
}

impl Duplicate for DbError {
    fn duplicate(&self) -> (r: Self) {
        DbError { kind: self.kind, message: self.message.clone() }
    }
}

impl DbError {
    /// An error of the given kind with the given message.
    pub fn new(kind: ErrorKind, message: String) -> (r: Self)
        ensures
            r.deep_view() == (ErrorView { kind, message: message@ }),
    {
        DbError { kind, message }
    }
}

/// The mathematical value of a result.
pub open spec fn result_view<T: DeepView>(r: Result<T, DbError>) -> Result<T::V, ErrorView> {
    match r {
        Ok(x) => Ok(x.deep_view()),
        Err(e) => Err(e.deep_view()),
    }
}

} // verus!

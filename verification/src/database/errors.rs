//! # errors
// This module includes error enum and utility fuctions.
use vstd::prelude::*;

verus! {

/// Error types which can occur on database operation.
#[derive(Debug)]
pub enum Errors {
    /// Record not found
    NotFound(String),
    /// Record conflicts wit another record.
    Conflict(String),
}

/// The kind and message of an [`Errors`].
pub enum ErrorView {
    NotFound(Seq<char>),
    Conflict(Seq<char>),
}

impl View for Errors {
    type V = ErrorView;

    open spec fn view(&self) -> ErrorView {
        match self {
            Errors::NotFound(m) => ErrorView::NotFound(m@),
            Errors::Conflict(m) => ErrorView::Conflict(m@),
        }
    }
}

impl Errors {
    /// A copy of this error.
    pub fn copy(&self) -> (r: Errors)
        ensures
            r@ == self@,
    {
        match self {
            Errors::NotFound(m) => Errors::NotFound(m.clone()),
            Errors::Conflict(m) => Errors::Conflict(m.clone()),
        }
    }
}

} // verus!

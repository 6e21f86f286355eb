//! The errors of the library.

use vstd::prelude::*;

verus! {

/// What can go wrong while a diff is loaded.
#[derive(Debug, Clone)]
pub enum TuicrError {
    /// There is nothing to review.
    NoChanges,
    /// No version control system claims the directory.
    NotARepository,
    /// A version control command, or what it printed, could not be used.
    VcsCommand(String),
    /// A forge could not be reached or identified.
    Forge(String),
}

/// An error, with its message as a sequence of characters.
pub enum ErrorView {
    NoChanges,
    NotARepository,
    VcsCommand(Seq<char>),
    Forge(Seq<char>),
}

impl View for TuicrError {
    type V = ErrorView;

    open spec fn view(&self) -> ErrorView {
        match self {
            TuicrError::NoChanges => ErrorView::NoChanges,
            TuicrError::NotARepository => ErrorView::NotARepository,
            TuicrError::VcsCommand(message) => ErrorView::VcsCommand(message@),
            TuicrError::Forge(message) => ErrorView::Forge(message@),
        }
    }
}

/// A result, with the views of its value and of its error.
pub open spec fn outcome<T: View>(res: Result<T, TuicrError>) -> Result<T::V, ErrorView> {
    match res {
        Ok(value) => Ok(value@),
        Err(error) => Err(error@),
    }
}

} // verus!

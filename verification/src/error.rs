//! What can go wrong in a run.

use vstd::prelude::*;

verus! {

/// A failure that ends a run. Each variant carries a message for the user.
#[derive(Debug)]
pub enum TrendsError {
    /// The repository cannot be opened or read.
    RepositoryUnavailable(String),
    /// The start commit does not resolve to a commit.
    ReferenceNotFound(String),
    /// An object id does not resolve to a blob.
    ContentNotFound(String),
    /// An output did not take what it was given.
    Output(String),
}

impl TrendsError {
    /// The message for the user.
    pub fn message(&self) -> (text: &String)
        ensures
            text == (match *self {
                TrendsError::RepositoryUnavailable(m) => m,
                TrendsError::ReferenceNotFound(m) => m,
                TrendsError::ContentNotFound(m) => m,
                TrendsError::Output(m) => m,
            }),
    {
        match self {
            TrendsError::RepositoryUnavailable(m) => m,
            TrendsError::ReferenceNotFound(m) => m,
            TrendsError::ContentNotFound(m) => m,
            TrendsError::Output(m) => m,
        }
    }
}

} // verus!

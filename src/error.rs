//! The library's errors and how a server reports them.

use vstd::prelude::*;
use crate::text::joined;

verus! {

/// What went wrong: a store failure, something that does not resolve, a
/// malformed input, a checkout blocked by local changes, or an internal
/// fault.
#[derive(Debug)]
pub enum AppError {
    Git(String),
    RepoNotFound(String),
    PathNotFound(String),
    CommitNotFound(String),
    InvalidPath(String),
    CheckoutConflict(String),
    Internal(String),
}

/// The HTTP status reported for an error.
pub open spec fn status_of_error(e: AppError) -> u16 {
    match e {
        AppError::RepoNotFound(_) | AppError::PathNotFound(_) | AppError::CommitNotFound(_) => 404,
        AppError::InvalidPath(_) => 400,
        AppError::CheckoutConflict(_) => 409,
        AppError::Git(_) | AppError::Internal(_) => 500,
    }
}

/// The message reported for an error.
pub open spec fn message_of_error(e: AppError) -> Seq<char> {
    match e {
        AppError::Git(m) => m@,
        AppError::RepoNotFound(p) => "Repository not found: "@ + p@,
        AppError::PathNotFound(p) => "Path not found: "@ + p@,
        AppError::CommitNotFound(o) => "Commit not found: "@ + o@,
        AppError::InvalidPath(p) => "Invalid path: "@ + p@,
        AppError::CheckoutConflict(m) => m@,
        AppError::Internal(m) => m@,
    }
}

impl AppError {
    /// The HTTP status of this error: not found, bad request, conflict, or
    /// internal error.
    pub fn status_code(&self) -> (r: u16)
        ensures
            r == status_of_error(*self),
    {
        match self {
            AppError::RepoNotFound(_) | AppError::PathNotFound(_) | AppError::CommitNotFound(_) => 404,
            AppError::InvalidPath(_) => 400,
            AppError::CheckoutConflict(_) => 409,
            AppError::Git(_) | AppError::Internal(_) => 500,
        }
    }

    /// The message reported to clients for this error.
    pub fn error_message(&self) -> (r: String)
        ensures
            r@ == message_of_error(*self),
    {
        match self {
            AppError::Git(m) => m.clone(),
            AppError::RepoNotFound(p) => joined("Repository not found: ", p.as_str()),
            AppError::PathNotFound(p) => joined("Path not found: ", p.as_str()),
            AppError::CommitNotFound(o) => joined("Commit not found: ", o.as_str()),
            AppError::InvalidPath(p) => joined("Invalid path: ", p.as_str()),
            AppError::CheckoutConflict(m) => m.clone(),
            AppError::Internal(m) => m.clone(),
        }
    }
}

} // verus!

//! Error taxonomy shared by every store operation.

use vstd::prelude::*;

verus! {

/// Errors surfaced by the core operations.
///
/// Every operation propagates its error to the caller; nothing is retried
/// internally and no partial write survives a failed operation.
#[derive(Debug, PartialEq, Eq)]
pub enum AppError {
    /// A referenced entity does not exist.
    NotFound(String),
    /// A uniqueness invariant (post slug, tag name or tag slug) would be
    /// violated by the requested write.
    Conflict(String),
    /// A caller-supplied value fails a domain rule, such as an unknown
    /// comment status or a comment against an unpublished post.
    ValidationError(String),
    /// An unclassified failure of the underlying store.
    StoreFailure(String),
}

impl AppError {
    /// The human-readable detail the error carries.
    pub fn message(&self) -> (r: &String)
        ensures
            r@ == (match self {
                AppError::NotFound(m) => m@,
                AppError::Conflict(m) => m@,
                AppError::ValidationError(m) => m@,
                AppError::StoreFailure(m) => m@,
            }),
    {
        match self {
            AppError::NotFound(m) => m,
            AppError::Conflict(m) => m,
            AppError::ValidationError(m) => m,
            AppError::StoreFailure(m) => m,
        }
    }
}

} // verus!

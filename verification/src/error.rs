//! The error surface of the query core.
//!
//! Every failure carries one of two abstract kinds and a human-readable
//! message: `Internal` for schema mismatches, unresolved column names, empty
//! merge inputs and the like, and `BadArguments` for caller-supplied argument
//! shapes that are invalid.

use vstd::prelude::*;

verus! {

/// An error raised by the query core.
#[derive(Debug)]
pub enum FuseQueryError {
    /// An internal invariant of the core was violated by the inputs.
    Internal(String),
    /// The caller supplied arguments of an invalid count or shape.
    BadArguments(String),
}

/// The result type used throughout the query core.
pub type FuseQueryResult<T> = Result<T, FuseQueryError>;

impl FuseQueryError {
    /// True of the `Internal` kind.
    pub open spec fn is_internal(&self) -> bool {
        matches!(self, FuseQueryError::Internal(_))
    }

    /// True of the `BadArguments` kind.
    pub open spec fn is_bad_arguments(&self) -> bool {
        matches!(self, FuseQueryError::BadArguments(_))
    }

    /// The human-readable message the error carries.
    pub fn message(&self) -> (r: &String)
        ensures
            match self {
                FuseQueryError::Internal(m) => r == m,
                FuseQueryError::BadArguments(m) => r == m,
            },
    {
        match self {
            FuseQueryError::Internal(m) => m,
            FuseQueryError::BadArguments(m) => m,
        }
    }
}

} // verus!

//! The failures of the relational store, as far as the registry tells them
//! apart.

use crate::errors::ErrorKind;
use vstd::prelude::*;

verus! {

/// `diesel::result::Error`, the failure with which a call on the relational
/// store ends. The type is only named here: nothing is claimed of its values.
#[verifier::external_type_specification]
#[verifier::external_body]
pub struct ExDieselError(diesel::result::Error);

/// What the registry tells apart in a failure of the relational store.
#[derive(Clone, Copy, Debug, PartialEq, Eq, Structural)]
pub enum StoreFailure {
    /// A row was refused because it repeats a value that may occur once.
    UniqueViolation,
    /// A row that had to be there was not.
    NotFound,
    /// Anything else: the store did not do what it was asked.
    Other,
}

impl StoreFailure {
    /// The kind under which the registry reports the failure.
    pub open spec fn kind_model(self) -> ErrorKind {
        match self {
            StoreFailure::UniqueViolation => ErrorKind::Conflict,
            StoreFailure::NotFound => ErrorKind::NotFound,
            StoreFailure::Other => ErrorKind::Unavailable,
        }
    }

    /// The kind under which the registry reports the failure: a repeated
    /// value is a conflict, a missing row is not found, and for anything else
    /// the store counts as unavailable.
    pub fn kind(self) -> (kind: ErrorKind)
        ensures
            kind == self.kind_model(),
    {
        match self {
            StoreFailure::UniqueViolation => ErrorKind::Conflict,
            StoreFailure::NotFound => ErrorKind::NotFound,
            StoreFailure::Other => ErrorKind::Unavailable,
        }
    }
}

/// Tells the variants of `diesel::result::Error` apart: a `DatabaseError`
/// whose kind is `DatabaseErrorKind::UniqueViolation`, `NotFound`, and all the
/// others. The body is not verified, and nothing is claimed of the result.
#[verifier::external_body]
fn failure_of(e: &diesel::result::Error) -> StoreFailure {
    match e {
        diesel::result::Error::DatabaseError(
            diesel::result::DatabaseErrorKind::UniqueViolation,
            _,
        ) => StoreFailure::UniqueViolation,
        diesel::result::Error::NotFound => StoreFailure::NotFound,
        _ => StoreFailure::Other,
    }
}

/// The kind under which the registry reports a failure of the relational
/// store: the kind of one of the failures that the registry tells apart.
/// Which one it is depends on how the failure is read, which is not proved.
pub fn kind_of(e: &diesel::result::Error) -> (kind: ErrorKind)
    ensures
        exists|failure: StoreFailure| kind == failure.kind_model(),
{
    failure_of(e).kind()
}

} // verus!

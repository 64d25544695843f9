//! What the store's callers are told of a query that diesel ran against a
//! database: a row that may be absent, or one of the store's own errors.

use vstd::prelude::*;
use crate::errors::RegistryError;
use crate::store::required;

verus! {

/// diesel's error type. Nothing is known of a value of it but its
/// [`fault_kind`].
#[verifier::external_type_specification]
#[verifier::external_body]
pub struct ExQueryError(diesel::result::Error);

/// The failures of a query, as far as the store tells them apart.
#[derive(Clone, Copy, Debug, PartialEq, Eq, Structural)]
pub enum Fault {
    /// The query was to return a row and returned none.
    NoRow,
    /// The database refused a write that broke a unique constraint.
    UniqueViolation,
    /// Anything else.
    Other,
}

/// Which failure a `diesel::result::Error` stands for: `NoRow` for its
/// variant `NotFound`, `UniqueViolation` for a `DatabaseError` of the kind
/// `UniqueViolation`, and `Other` for every other error. The error has no
/// view, so it is taken as it is.
pub uninterp spec fn fault_kind(error: diesel::result::Error) -> Fault;

/// The store's error for a failure of a query.
pub open spec fn error_of(fault: Fault) -> RegistryError {
    match fault {
        Fault::NoRow => RegistryError::NotFound,
        Fault::UniqueViolation => RegistryError::UniqueConstraintViolation,
        Fault::Other => RegistryError::StorageError,
    }
}

/// Tells the variants of `diesel::result::Error` apart, one arm each:
/// `NotFound`, a `DatabaseError` of the kind `UniqueViolation`, and all
/// others. What it returns is the error's [`fault_kind`].
#[verifier::external_body]
fn fault_of(error: &diesel::result::Error) -> (fault: Fault)
    ensures
        fault == fault_kind(*error),
{
    match error {
        diesel::result::Error::NotFound => Fault::NoRow,
        diesel::result::Error::DatabaseError(
            diesel::result::DatabaseErrorKind::UniqueViolation,
            _,
        ) => Fault::UniqueViolation,
        _ => Fault::Other,
    }
}

/// Calls diesel's `OptionalExtension::optional`, which hands a row on as
/// `Some`, turns the error `NotFound`, and no other, into `Ok(None)`, and
/// hands every other error on as it is.
#[verifier::external_body]
fn optional<T>(outcome: Result<T, diesel::result::Error>) -> (found: Result<Option<T>, diesel::result::Error>)
    ensures
        (match outcome {
            Ok(row) => found == Ok::<Option<T>, diesel::result::Error>(Some(row)),
            Err(error) => found == (if fault_kind(error) == Fault::NoRow {
                Ok::<Option<T>, diesel::result::Error>(None)
            } else {
                Err::<Option<T>, diesel::result::Error>(error)
            }),
        }),
{
    diesel::result::OptionalExtension::optional(outcome)
}

impl RegistryError {
    /// The store's error for a failure of a query: [`error_of`].
    pub fn from_fault(fault: Fault) -> (error: RegistryError)
        ensures
            error == error_of(fault),
    {
        match fault {
            Fault::NoRow => RegistryError::NotFound,
            Fault::UniqueViolation => RegistryError::UniqueConstraintViolation,
            Fault::Other => RegistryError::StorageError,
        }
    }
}

/// What a lookup that must find its row returns for what one that may come
/// back empty found: the row, or [`RegistryError::NotFound`].
pub fn or_not_found<T>(found: Option<T>) -> (result: Result<T, RegistryError>)
    ensures
        result == required(found),
{
    match found {
        Some(row) => Ok(row),
        None => Err(RegistryError::NotFound),
    }
}

/// What [`checked`] makes of the outcome of a query: a row, or whatever
/// else the query returned, unchanged, and for diesel's error the store's
/// error for its kind.
pub open spec fn checked_outcome<T>(outcome: Result<T, diesel::result::Error>) -> Result<
    T,
    RegistryError,
> {
    match outcome {
        Ok(row) => Ok(row),
        Err(error) => Err(error_of(fault_kind(error))),
    }
}

/// What [`absent_as_none`] makes of the outcome of a query for one row:
/// the row as `Some`, `None` where the query found no row, and the store's
/// error for every other failure.
pub open spec fn optional_outcome<T>(outcome: Result<T, diesel::result::Error>) -> Result<
    Option<T>,
    RegistryError,
> {
    match outcome {
        Ok(row) => Ok(Some(row)),
        Err(error) => match fault_kind(error) {
            Fault::NoRow => Ok(None),
            Fault::UniqueViolation => Err(RegistryError::UniqueConstraintViolation),
            Fault::Other => Err(RegistryError::StorageError),
        },
    }
}

/// The outcome of a query with the store's error in place of diesel's: a
/// missing row is `NotFound`, a broken unique constraint
/// `UniqueConstraintViolation`, and every other failure `StorageError`.
pub fn checked<T>(outcome: Result<T, diesel::result::Error>) -> (result: Result<T, RegistryError>)
    ensures
        result == checked_outcome(outcome),
{
    match outcome {
        Ok(row) => Ok(row),
        Err(error) => Err(RegistryError::from_fault(fault_of(&error))),
    }
}

/// The outcome of a query for one row, for a caller to whom a missing row
/// is no error: the row as `Some`, `None` for a missing row, and for any
/// other failure the store's error, as [`checked`] gives it.
pub fn absent_as_none<T>(outcome: Result<T, diesel::result::Error>) -> (result: Result<
    Option<T>,
    RegistryError,
>)
    ensures
        result == optional_outcome(outcome),
{
    match optional(outcome) {
        Ok(found) => Ok(found),
        Err(error) => Err(RegistryError::from_fault(fault_of(&error))),
    }
}

} // verus!

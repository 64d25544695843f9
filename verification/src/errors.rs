//! The kinds of failure that a store operation reports.

use vstd::prelude::*;

verus! {

/// Why a store operation failed.
#[derive(Clone, Copy, Debug, PartialEq, Eq, Structural)]
pub enum RegistryError {
    /// A lookup by key found no row.
    NotFound,
    /// A write would have put a second row under a key that is unique.
    UniqueConstraintViolation,
    /// Any other fault of the store, such as a counter that has run out.
    StorageError,
}

} // verus!

//! The store's failure taxonomy. Errors cross the application boundary as
//! human-readable messages, so each variant renders to a descriptive string.

use vstd::prelude::*;

verus! {

/// Why a store operation failed.
///
/// - `StorageUnavailable`: the backing directory or file cannot be created
///   or opened.
/// - `MigrationError`: a genuine schema-alteration failure (distinct from
///   "column already present", which is not an error).
/// - `NotFound`: an update targeted an `id` with no matching record.
/// - `ConnectionError`: an I/O failure during an operation against an
///   otherwise healthy store.
/// - `LockError`: the exclusive-access guard could not be acquired.
#[derive(Clone, Copy, PartialEq, Eq, Structural, Debug)]
pub enum StoreError {
    StorageUnavailable,
    MigrationError,
    NotFound,
    ConnectionError,
    LockError,
}

impl StoreError {
    /// The human-readable description under which this failure crosses the
    /// application boundary.
    pub fn message(&self) -> (r: String)
        ensures
            *self == StoreError::StorageUnavailable ==> r@ == "storage location unavailable"@,
            *self == StoreError::MigrationError ==> r@ == "schema migration failed"@,
            *self == StoreError::NotFound ==> r@ == "no record with the given id"@,
            *self == StoreError::ConnectionError ==> r@ == "database operation failed"@,
            *self == StoreError::LockError ==> r@ == "store lock poisoned"@,
    {
        match self {
            StoreError::StorageUnavailable => String::from_str("storage location unavailable"),
            StoreError::MigrationError => String::from_str("schema migration failed"),
            StoreError::NotFound => String::from_str("no record with the given id"),
            StoreError::ConnectionError => String::from_str("database operation failed"),
            StoreError::LockError => String::from_str("store lock poisoned"),
        }
    }
}

} // verus!

//! The error taxonomy of the store.
//!
//! Caller misuse (a key or prefix that begins with `/`) is told apart from
//! storage-layer failure, and a storage failure always carries its
//! originating cause for diagnostics.

use vstd::prelude::*;

verus! {

/// diesel's query-execution error, carried as the cause of a storage
/// execution failure. Opaque here: the store never looks inside it, apart
/// from the one trusted not-found test.
#[verifier::external_type_specification]
#[verifier::external_body]
pub struct ExDieselError(diesel::result::Error);

/// r2d2's pool error, carried as the cause of a failed connection
/// acquisition. Opaque here.
#[verifier::external_type_specification]
#[verifier::external_body]
pub struct ExPoolError(r2d2::Error);

/// Every way an operation can fail.
#[derive(Debug)]
#[allow(inconsistent_fields)]
pub enum RvError {
    /// A get, put or delete key begins with the path separator: a caller
    /// bug, surfaced before any storage access.
    ErrPhysicalBackendKeyInvalid,
    /// A list prefix begins with the path separator: handled as above.
    ErrPhysicalBackendPrefixInvalid,
    /// The underlying query failed; the originating cause is kept.
    ErrDatabaseExecuteEntry { source: diesel::result::Error },
    /// No connection could be taken from the pool; the cause is kept.
    ErrConnectionPoolGet { source: r2d2::Error },
    /// The construction-time configuration could not name a reachable
    /// database: surfaced before any operation is attempted.
    ErrDatabaseConnectionInfoInvalid,
}

impl RvError {
    /// Is this the invalid-key rejection?
    pub open spec fn is_key_invalid(&self) -> bool {
        match self {
            RvError::ErrPhysicalBackendKeyInvalid => true,
            _ => false,
        }
    }

    /// Is this the invalid-prefix rejection?
    pub open spec fn is_prefix_invalid(&self) -> bool {
        match self {
            RvError::ErrPhysicalBackendPrefixInvalid => true,
            _ => false,
        }
    }

    /// Does this error wrap `src` as a failed query execution?
    pub open spec fn wraps_execute_error(&self, src: diesel::result::Error) -> bool {
        match self {
            RvError::ErrDatabaseExecuteEntry { source } => source == src,
            _ => false,
        }
    }

    /// Does this error wrap `src` as a failed pool acquisition?
    pub open spec fn wraps_pool_error(&self, src: r2d2::Error) -> bool {
        match self {
            RvError::ErrConnectionPoolGet { source } => source == src,
            _ => false,
        }
    }

    /// A short description of the error, for diagnostics.
    pub fn describe(&self) -> (r: &'static str)
        ensures
            self.is_key_invalid() ==> r@ == "invalid key"@,
            self.is_prefix_invalid() ==> r@ == "invalid prefix"@,
    {
        match self {
            RvError::ErrPhysicalBackendKeyInvalid => "invalid key",
            RvError::ErrPhysicalBackendPrefixInvalid => "invalid prefix",
            RvError::ErrDatabaseExecuteEntry { source: _ } => "database execute error",
            RvError::ErrConnectionPoolGet { source: _ } => "connection pool get error",
            RvError::ErrDatabaseConnectionInfoInvalid => "database connection info invalid",
        }
    }
}

} // verus!

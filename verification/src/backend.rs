//! The storage-facing halves of the four operations.
//!
//! Each operation is validate, then one storage round trip, then translate.
//! The round trip itself needs a live connection and stays with the
//! connection-holding runner; everything around it is here, verified: the
//! validation that runs before any storage access, the pattern a listing
//! fetch matches keys against, and the translation of every raw outcome
//! into the error taxonomy.

use vstd::prelude::*;
use vstd::string::StringExecFns;
use crate::entry::BackendEntry;
use crate::entry::MysqlBackendEntry;
use crate::errors::RvError;
use crate::listing::list_keys;
use crate::listing::rows_keys;
use crate::listing::spec_segments;
use crate::path::begins_with_separator;
use crate::path::path_invalid;

verus! {

/// A get, put or delete key that begins with `/` is rejected here, before
/// any storage access.
pub fn validate_key(key: &str) -> (r: Result<(), RvError>)
    ensures
        path_invalid(key@) <==> (r matches Err(e) && e.is_key_invalid()),
        !path_invalid(key@) <==> r matches Ok(u),
{
    if begins_with_separator(key) {
        Err(RvError::ErrPhysicalBackendKeyInvalid)
    } else {
        Ok(())
    }
}

/// A list prefix that begins with `/` is rejected here, before any storage
/// access.
pub fn validate_prefix(prefix: &str) -> (r: Result<(), RvError>)
    ensures
        path_invalid(prefix@) <==> (r matches Err(e) && e.is_prefix_invalid()),
        !path_invalid(prefix@) <==> r matches Ok(u),
{
    if begins_with_separator(prefix) {
        Err(RvError::ErrPhysicalBackendPrefixInvalid)
    } else {
        Ok(())
    }
}

/// The pattern a listing fetch matches keys against: the prefix followed by
/// the match-anything marker, so the fetch returns the rows whose key
/// starts with the prefix.
pub fn prefix_pattern(prefix: &str) -> (r: String)
    ensures
        r@ == prefix@.push('%'),
{
    let mut pattern = String::from_str(prefix);
    pattern.append("%");
    proof {
        reveal_strlit("%");
        assert(pattern@ =~= prefix@.push('%'));
    }
    pattern
}

/// Relies on the hand-written `PartialEq` of `diesel::result::Error`: an
/// error equals `Error::NotFound` exactly when it is that variant, the one
/// `first` returns when a query finds no row.
#[verifier::external_body]
fn database_error_is_not_found(e: &diesel::result::Error) -> bool {
    match e {
        diesel::result::Error::NotFound => true,
        _ => false,
    }
}

/// The outcome of a get's fetch, translated. A fetched row is returned as
/// the entry it persists; the storage-layer not-found outcome is an empty
/// result, never an error; any other failure wraps its cause.
pub fn get_response(fetched: Result<MysqlBackendEntry, diesel::result::Error>) -> (r: Result<
    Option<BackendEntry>,
    RvError,
>)
    ensures
        fetched matches Ok(row) ==> (match r {
            Ok(Some(e)) => e.key@ == row.vault_key@ && e.value@ == row.vault_value@,
            _ => false,
        }),
        fetched matches Err(src) ==> (match r {
            Ok(o) => o is None,
            Err(e) => e.wraps_execute_error(src),
        }),
{
    match fetched {
        Ok(row) => Ok(Some(row.into_entry())),
        Err(e) => {
            if database_error_is_not_found(&e) {
                Ok(None)
            } else {
                Err(RvError::ErrDatabaseExecuteEntry { source: e })
            }
        },
    }
}

/// The outcome of a put's or delete's statement, translated: success is
/// success whatever the affected-row count, and a failure wraps its cause.
pub fn execute_response(outcome: Result<usize, diesel::result::Error>) -> (r: Result<(), RvError>)
    ensures
        outcome matches Ok(n) <==> r matches Ok(u),
        outcome matches Err(src) ==> (r matches Err(e) && e.wraps_execute_error(src)),
{
    match outcome {
        Ok(_) => Ok(()),
        Err(e) => Err(RvError::ErrDatabaseExecuteEntry { source: e }),
    }
}

/// The outcome of a listing's fetch, translated: the fetched rows collapse
/// to their distinct child segments, and a failure wraps its cause.
pub fn list_response(prefix: &str, fetched: Result<Vec<MysqlBackendEntry>, diesel::result::Error>) -> (r: Result<
    Vec<String>,
    RvError,
>)
    ensures
        fetched matches Ok(rows) ==> (match r {
            Ok(segs) => segs.deep_view() == spec_segments(prefix@, rows_keys(rows@)),
            Err(_) => false,
        }),
        fetched matches Err(src) ==> (r matches Err(e) && e.wraps_execute_error(src)),
{
    match fetched {
        Ok(rows) => Ok(list_keys(prefix, &rows)),
        Err(e) => Err(RvError::ErrDatabaseExecuteEntry { source: e }),
    }
}

/// A failed pool acquisition, wrapped as the storage-layer error it is.
pub fn pool_error(source: r2d2::Error) -> (r: RvError)
    ensures
        r.wraps_pool_error(source),
{
    RvError::ErrConnectionPoolGet { source }
}

} // verus!

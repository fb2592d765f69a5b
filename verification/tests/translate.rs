//! The storage-facing halves: validation, the fetch pattern, and the
//! translation of raw storage outcomes, driven with real driver errors.

use vault_kv::backend::execute_response;
use vault_kv::backend::get_response;
use vault_kv::backend::list_response;
use vault_kv::backend::prefix_pattern;
use vault_kv::backend::validate_key;
use vault_kv::backend::validate_prefix;
use vault_kv::entry::MysqlBackendEntry;
use vault_kv::errors::RvError;
use vault_kv::listing::key_segment;
use vault_kv::path::find_slash;

fn row(key: &str, value: &[u8]) -> MysqlBackendEntry {
    MysqlBackendEntry { vault_key: key.to_string(), vault_value: value.to_vec() }
}

fn query_error() -> diesel::result::Error {
    diesel::result::Error::QueryBuilderError("boom".into())
}

#[test]
fn validation_rejects_leading_separator_only() {
    assert!(matches!(validate_key("/k"), Err(RvError::ErrPhysicalBackendKeyInvalid)));
    assert!(validate_key("k/with/separators").is_ok());
    assert!(validate_key("").is_ok());
    assert!(matches!(validate_prefix("/p"), Err(RvError::ErrPhysicalBackendPrefixInvalid)));
    assert!(validate_prefix("p/").is_ok());
    assert!(validate_prefix("").is_ok());
}

#[test]
fn prefix_pattern_appends_the_marker() {
    assert_eq!(prefix_pattern("a/"), "a/%");
    assert_eq!(prefix_pattern(""), "%");
}

#[test]
fn get_response_maps_not_found_to_none() {
    let r = get_response(Err(diesel::result::Error::NotFound));
    assert!(matches!(r, Ok(None)));
}

#[test]
fn get_response_wraps_other_failures() {
    let r = get_response(Err(query_error()));
    assert!(matches!(r, Err(RvError::ErrDatabaseExecuteEntry { .. })));
}

#[test]
fn get_response_rebuilds_the_fetched_row() {
    let r = get_response(Ok(row("a/b", &[9, 8]))).unwrap().unwrap();
    assert_eq!(r.key, "a/b");
    assert_eq!(r.value, vec![9, 8]);
}

#[test]
fn execute_response_keeps_success_and_wraps_failure() {
    assert!(execute_response(Ok(1)).is_ok());
    assert!(execute_response(Ok(0)).is_ok());
    let r = execute_response(Err(query_error()));
    assert!(matches!(r, Err(RvError::ErrDatabaseExecuteEntry { .. })));
}

#[test]
fn list_response_collapses_fetched_rows() {
    let rows = vec![row("a/b/c", b"1"), row("a/b/d", b"2"), row("a/e", b"3")];
    let segs = list_response("a/", Ok(rows)).unwrap();
    assert_eq!(segs, vec!["b/".to_string(), "e".to_string()]);
}

#[test]
fn list_response_wraps_failure() {
    let r = list_response("a/", Err(query_error()));
    assert!(matches!(r, Err(RvError::ErrDatabaseExecuteEntry { .. })));
}

#[test]
fn key_segment_takes_through_the_first_separator() {
    assert_eq!(key_segment("a/", "a/b/c"), "b/");
    assert_eq!(key_segment("a/", "a/b"), "b");
    assert_eq!(key_segment("", "x"), "x");
    assert_eq!(key_segment("a/b", "a/b"), "");
    // A key the prefix does not head is left whole before collapsing.
    assert_eq!(key_segment("z/", "a/b"), "a/");
}

#[test]
fn find_slash_finds_the_first() {
    assert_eq!(find_slash("ab/cd/e"), Some(2));
    assert_eq!(find_slash("abc"), None);
    assert_eq!(find_slash(""), None);
    assert_eq!(find_slash("/x"), Some(0));
}

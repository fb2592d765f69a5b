//! The four-operation contract, exercised on the in-memory table.

use vault_kv::entry::BackendEntry;
use vault_kv::errors::RvError;
use vault_kv::table::Table;

fn entry(key: &str, value: &[u8]) -> BackendEntry {
    BackendEntry { key: key.to_string(), value: value.to_vec() }
}

#[test]
fn invalid_key_is_rejected_by_every_operation() {
    let mut t = Table::new();
    assert!(matches!(t.get("/k"), Err(RvError::ErrPhysicalBackendKeyInvalid)));
    assert!(matches!(t.put(&entry("/k", b"v")), Err(RvError::ErrPhysicalBackendKeyInvalid)));
    assert!(matches!(t.delete("/k"), Err(RvError::ErrPhysicalBackendKeyInvalid)));
    // No storage access happened: the table is still empty.
    let listed = t.list("").unwrap();
    assert_eq!(listed.len(), 0);
}

#[test]
fn invalid_prefix_is_rejected_by_list() {
    let t = Table::new();
    assert!(matches!(t.list("/p"), Err(RvError::ErrPhysicalBackendPrefixInvalid)));
}

#[test]
fn put_then_get_round_trips() {
    let mut t = Table::new();
    t.put(&entry("foo/bar", &[1, 2, 3])).unwrap();
    let got = t.get("foo/bar").unwrap().unwrap();
    assert_eq!(got.key, "foo/bar");
    assert_eq!(got.value, vec![1, 2, 3]);
}

#[test]
fn put_of_empty_value_round_trips() {
    let mut t = Table::new();
    t.put(&entry("empty", b"")).unwrap();
    let got = t.get("empty").unwrap().unwrap();
    assert_eq!(got.key, "empty");
    assert_eq!(got.value, Vec::<u8>::new());
}

#[test]
fn delete_is_idempotent() {
    let mut t = Table::new();
    assert!(t.delete("missing").is_ok());
    t.put(&entry("k", b"v")).unwrap();
    assert!(t.delete("k").is_ok());
    assert!(t.delete("k").is_ok());
    assert!(t.get("k").unwrap().is_none());
}

#[test]
fn put_overwrites_without_duplicates() {
    let mut t = Table::new();
    t.put(&entry("k", b"first")).unwrap();
    t.put(&entry("k", b"second")).unwrap();
    let got = t.get("k").unwrap().unwrap();
    assert_eq!(got.value, b"second".to_vec());
    let listed = t.list("").unwrap();
    assert_eq!(listed, vec!["k".to_string()]);
}

#[test]
fn racing_puts_leave_one_row_with_one_of_the_values() {
    // The sequential shadow of two racing puts: whichever commits last
    // wins, and either order leaves exactly one row.
    let mut t = Table::new();
    t.put(&entry("k", b"v1")).unwrap();
    t.put(&entry("k", b"v2")).unwrap();
    assert_eq!(t.get("k").unwrap().unwrap().value, b"v2".to_vec());
    assert_eq!(t.list("").unwrap().len(), 1);

    let mut u = Table::new();
    u.put(&entry("k", b"v2")).unwrap();
    u.put(&entry("k", b"v1")).unwrap();
    assert_eq!(u.get("k").unwrap().unwrap().value, b"v1".to_vec());
    assert_eq!(u.list("").unwrap().len(), 1);
}

#[test]
fn get_of_missing_key_is_none_not_error() {
    let t = Table::new();
    assert!(matches!(t.get("does-not-exist"), Ok(None)));
}

#[test]
fn list_collapses_to_immediate_children() {
    let mut t = Table::new();
    t.put(&entry("a/b", b"1")).unwrap();
    t.put(&entry("a/c", b"2")).unwrap();
    t.put(&entry("x", b"3")).unwrap();

    let top = t.list("").unwrap();
    assert_eq!(top.len(), 2);
    assert!(top.contains(&"a/".to_string()));
    assert!(top.contains(&"x".to_string()));

    let under_a = t.list("a/").unwrap();
    assert_eq!(under_a.len(), 2);
    assert!(under_a.contains(&"b".to_string()));
    assert!(under_a.contains(&"c".to_string()));
}

#[test]
fn list_deduplicates_directories() {
    let mut t = Table::new();
    t.put(&entry("a/b/c", b"1")).unwrap();
    t.put(&entry("a/b/d", b"2")).unwrap();
    let under_a = t.list("a/").unwrap();
    assert_eq!(under_a, vec!["b/".to_string()]);
}

#[test]
fn list_of_exact_key_yields_empty_segment() {
    // A key equal to the prefix leaves a zero-length suffix, listed as the
    // empty entry.
    let mut t = Table::new();
    t.put(&entry("a/b", b"1")).unwrap();
    let listed = t.list("a/b").unwrap();
    assert_eq!(listed, vec![String::new()]);
}

#[test]
fn describe_names_the_client_errors() {
    assert_eq!(RvError::ErrPhysicalBackendKeyInvalid.describe(), "invalid key");
    assert_eq!(RvError::ErrPhysicalBackendPrefixInvalid.describe(), "invalid prefix");
}

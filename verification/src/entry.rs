//! The unit of storage and its persisted row form.

use vstd::prelude::*;

verus! {

/// A logical storage entry: a non-empty `/`-delimited key that never begins
/// with `/`, and an opaque byte payload the store never interprets.
pub struct BackendEntry {
    pub key: String,
    pub value: Vec<u8>,
}

/// The persisted row: column-for-column the same data as [`BackendEntry`],
/// under the column names of the backing table. `vault_key` is the unique
/// key column, `vault_value` the byte column.
pub struct MysqlBackendEntry {
    pub vault_key: String,
    pub vault_value: Vec<u8>,
}

/// A verified byte-for-byte copy of a payload.
pub fn copy_bytes(v: &Vec<u8>) -> (r: Vec<u8>)
    ensures
        r@ == v@,
{
    let mut r: Vec<u8> = Vec::new();
    let mut i: usize = 0;
    while i < v.len()
        invariant
            i <= v@.len(),
            r@ == v@.take(i as int),
        decreases v@.len() - i,
    {
        r.push(v[i]);
        proof {
            assert(r@ =~= v@.take(i + 1));
        }
        i = i + 1;
    }
    proof {
        assert(v@.take(v@.len() as int) =~= v@);
    }
    r
}

impl MysqlBackendEntry {
    /// The row that persists `entry`.
    pub fn from_entry(entry: &BackendEntry) -> (r: MysqlBackendEntry)
        ensures
            r.vault_key@ == entry.key@,
            r.vault_value@ == entry.value@,
    {
        MysqlBackendEntry { vault_key: entry.key.clone(), vault_value: copy_bytes(&entry.value) }
    }

    /// The entry a fetched row reconstructs: the row's own key and value,
    /// exactly as stored.
    pub fn into_entry(self) -> (r: BackendEntry)
        ensures
            r.key@ == self.vault_key@,
            r.value@ == self.vault_value@,
    {
        BackendEntry { key: self.vault_key, value: self.vault_value }
    }
}

} // verus!

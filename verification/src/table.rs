//! An executable model of the backing table.
//!
//! The store keeps one live row per key: a row is created or fully replaced
//! by `put`, read by `get` and `list`, and removed by `delete`. [`Table`]
//! realises that contract in memory with the same four operations, the same
//! validation and the same listing algorithm as the storage-backed path, and
//! is the carrier of the store-level laws: round trip, idempotent delete,
//! overwrite.

use vstd::prelude::*;
use crate::entry::BackendEntry;
use crate::entry::MysqlBackendEntry;
use crate::entry::copy_bytes;
use crate::errors::RvError;
use crate::listing::filter_rows;
use crate::listing::list_keys;
use crate::listing::matching_keys;
use crate::listing::rows_keys;
use crate::listing::spec_segments;
use crate::path::begins_with_separator;
use crate::path::path_invalid;
use crate::path::str_eq;

verus! {

/// The table: a set of rows, at most one per key.
pub struct Table {
    rows: Vec<MysqlBackendEntry>,
}

impl Table {
    /// The rows' keys, in row order.
    pub closed spec fn keys(&self) -> Seq<Seq<char>> {
        rows_keys(self.rows@)
    }

    /// One live row per key: no two rows share a key.
    pub closed spec fn wf(&self) -> bool {
        forall|i: int, j: int|
            0 <= i < j < self.rows@.len() ==> self.rows@[i].vault_key@ != self.rows@[
                j
            ].vault_key@
    }

    /// The payload of the row that holds `k`.
    spec fn row_value(&self, k: Seq<char>) -> Seq<u8> {
        let i = choose|i: int|
            0 <= i < self.rows@.len() && self.rows@[i].vault_key@ == k;
        self.rows@[i].vault_value@
    }

    /// The store as a map from key to payload.
    pub closed spec fn as_map(&self) -> Map<Seq<char>, Seq<u8>> {
        Map::new(|k: Seq<char>| self.keys().contains(k), |k: Seq<char>| self.row_value(k))
    }

    /// An empty table.
    pub fn new() -> (r: Table)
        ensures
            r.wf(),
            r.as_map() == Map::<Seq<char>, Seq<u8>>::empty(),
            r.keys().len() == 0,
    {
        let r = Table { rows: Vec::new() };
        proof {
            assert(r.as_map() =~= Map::<Seq<char>, Seq<u8>>::empty());
        }
        r
    }

    /// The index of the row holding `key`, when the table has one.
    fn find_row(&self, key: &str) -> (r: Option<usize>)
        ensures
            match r {
                Some(i) => i < self.rows@.len() && self.rows@[i as int].vault_key@ == key@,
                None => !self.keys().contains(key@),
            },
    {
        let mut i: usize = 0;
        while i < self.rows.len()
            invariant
                i <= self.rows@.len(),
                forall|j: int| 0 <= j < i ==> self.rows@[j].vault_key@ != key@,
            decreases self.rows@.len() - i,
        {
            if str_eq(self.rows[i].vault_key.as_str(), key) {
                return Some(i);
            }
            i = i + 1;
        }
        proof {
            assert forall|j: int| 0 <= j < self.keys().len() implies self.keys()[j] != key@ by {
                assert(self.keys()[j] == self.rows@[j].vault_key@);
            }
        }
        None
    }

    /// The row at each index is what `as_map` holds at that row's key.
    proof fn lemma_rows_agree_with_map(&self)
        requires
            self.wf(),
        ensures
            forall|i: int|
                0 <= i < self.rows@.len() ==> self.as_map().contains_key(
                    #[trigger] self.rows@[i].vault_key@,
                ) && self.as_map()[self.rows@[i].vault_key@] == self.rows@[i].vault_value@,
    {
        assert forall|i: int| 0 <= i < self.rows@.len() implies self.as_map().contains_key(
            #[trigger] self.rows@[i].vault_key@,
        ) && self.as_map()[self.rows@[i].vault_key@] == self.rows@[i].vault_value@ by {
            let k = self.rows@[i].vault_key@;
            assert(self.keys()[i] == k);
            assert(self.keys().contains(k));
            let j = choose|j: int| 0 <= j < self.rows@.len() && self.rows@[j].vault_key@ == k;
            assert(j == i);
        }
    }

    /// A key is in the map exactly when some row holds it.
    proof fn lemma_map_domain(&self)
        ensures
            forall|k: Seq<char>|
                #[trigger] self.as_map().contains_key(k) <==> exists|i: int|
                    0 <= i < self.rows@.len() && self.rows@[i].vault_key@ == k,
    {
        assert forall|k: Seq<char>| #[trigger]
            self.as_map().contains_key(k) <==> exists|i: int|
                0 <= i < self.rows@.len() && self.rows@[i].vault_key@ == k by {
            if self.keys().contains(k) {
                let j = choose|j: int| 0 <= j < self.keys().len() && self.keys()[j] == k;
                assert(self.rows@[j].vault_key@ == k);
            }
            if exists|i: int| 0 <= i < self.rows@.len() && self.rows@[i].vault_key@ == k {
                let i = choose|i: int|
                    0 <= i < self.rows@.len() && self.rows@[i].vault_key@ == k;
                assert(self.keys()[i] == k);
                assert(self.keys().contains(k));
            }
        }
    }

    /// Remove the row holding `key`, if the table has one.
    fn remove_row(&mut self, key: &str)
        requires
            old(self).wf(),
        ensures
            final(self).wf(),
            final(self).as_map() == old(self).as_map().remove(key@),
            !final(self).as_map().contains_key(key@),
    {
        proof {
            old(self).lemma_rows_agree_with_map();
            old(self).lemma_map_domain();
        }
        let found = self.find_row(key);
        match found {
            Some(i) => {
                let ghost rows0 = self.rows@;
                self.rows.remove(i);
                proof {
                    let rows1 = self.rows@;
                    assert forall|a: int| 0 <= a < rows1.len() implies rows1[a] == (if a < i {
                        rows0[a]
                    } else {
                        rows0[a + 1]
                    }) by {}
                    assert(final(self).wf());
                    final(self).lemma_map_domain();
                    final(self).lemma_rows_agree_with_map();
                    assert forall|k: Seq<char>| #[trigger]
                        final(self).as_map().contains_key(k) implies old(self).as_map().remove(
                        key@,
                    ).contains_key(k) && final(self).as_map()[k] == old(self).as_map().remove(
                        key@,
                    )[k] by {
                        let a = choose|a: int| 0 <= a < rows1.len() && rows1[a].vault_key@ == k;
                        let b: int = if a < i { a } else { a + 1 };
                        assert(rows0[b].vault_key@ == k);
                        assert(b != i);
                        assert(k != key@);
                        assert(final(self).as_map()[k] == rows1[a].vault_value@);
                        assert(old(self).as_map()[k] == rows0[b].vault_value@);
                    }
                    assert forall|k: Seq<char>| #[trigger]
                        old(self).as_map().remove(key@).contains_key(k) implies final(self).as_map().contains_key(k) by {
                        let b = choose|b: int| 0 <= b < rows0.len() && rows0[b].vault_key@ == k;
                        assert(b != i);
                        let a: int = if b < i { b } else { b - 1 };
                        assert(rows1[a].vault_key@ == k);
                    }
                    assert(final(self).as_map() =~= old(self).as_map().remove(key@));
                }
            },
            None => {
                proof {
                    assert(!old(self).as_map().contains_key(key@));
                    assert(final(self).as_map() =~= old(self).as_map().remove(key@));
                }
            },
        }
    }

    /// Look up the row whose key equals `key` exactly. A missing row is not
    /// an error: the result is then `Ok(None)`.
    pub fn get(&self, key: &str) -> (r: Result<Option<BackendEntry>, RvError>)
        requires
            self.wf(),
        ensures
            path_invalid(key@) <==> (r matches Err(e) && e matches
                RvError::ErrPhysicalBackendKeyInvalid),
            !path_invalid(key@) ==> match r {
                Ok(Some(e)) => self.as_map().contains_key(key@) && e.key@ == key@ && e.value@
                    == self.as_map()[key@],
                Ok(None) => !self.as_map().contains_key(key@),
                Err(_) => false,
            },
    {
        if begins_with_separator(key) {
            return Err(RvError::ErrPhysicalBackendKeyInvalid);
        }
        proof {
            self.lemma_rows_agree_with_map();
            self.lemma_map_domain();
        }
        match self.find_row(key) {
            Some(i) => {
                let row = &self.rows[i];
                Ok(
                    Some(
                        BackendEntry {
                            key: row.vault_key.clone(),
                            value: copy_bytes(&row.vault_value),
                        },
                    ),
                )
            },
            None => Ok(None),
        }
    }

    /// Upsert: replace the row holding `entry.key`, or create it. A put of
    /// an existing key is a full overwrite, never a duplicate row.
    pub fn put(&mut self, entry: &BackendEntry) -> (r: Result<(), RvError>)
        requires
            old(self).wf(),
        ensures
            final(self).wf(),
            path_invalid(entry.key@) <==> (r matches Err(e) && e matches
                RvError::ErrPhysicalBackendKeyInvalid),
            path_invalid(entry.key@) ==> final(self).as_map() == old(self).as_map(),
            !path_invalid(entry.key@) ==> (r matches Ok(u)) && final(self).as_map() == old(
                self,
            ).as_map().insert(entry.key@, entry.value@),
    {
        if begins_with_separator(entry.key.as_str()) {
            return Err(RvError::ErrPhysicalBackendKeyInvalid);
        }
        self.remove_row(entry.key.as_str());
        let ghost mid = *self;
        let row = MysqlBackendEntry::from_entry(entry);
        self.rows.push(row);
        proof {
            let rows1 = self.rows@;
            let n: int = rows1.len() - 1;
            mid.lemma_map_domain();
            mid.lemma_rows_agree_with_map();
            assert forall|i: int, j: int|
                0 <= i < j < rows1.len() implies rows1[i].vault_key@ != rows1[j].vault_key@ by {
                if j == n {
                    assert(mid.rows@[i].vault_key@ == rows1[i].vault_key@);
                }
            }
            final(self).lemma_map_domain();
            final(self).lemma_rows_agree_with_map();
            assert forall|k: Seq<char>| #[trigger]
                final(self).as_map().contains_key(k) implies mid.as_map().insert(
                entry.key@,
                entry.value@,
            ).contains_key(k) && final(self).as_map()[k] == mid.as_map().insert(
                entry.key@,
                entry.value@,
            )[k] by {
                let a = choose|a: int| 0 <= a < rows1.len() && rows1[a].vault_key@ == k;
                if a == n {
                    assert(k == entry.key@);
                    assert(final(self).as_map()[k] == rows1[a].vault_value@);
                } else {
                    assert(mid.rows@[a].vault_key@ == k);
                    assert(k != entry.key@);
                    assert(final(self).as_map()[k] == rows1[a].vault_value@);
                    assert(rows1[a] == mid.rows@[a]);
                }
            }
            assert forall|k: Seq<char>| #[trigger]
                mid.as_map().insert(entry.key@, entry.value@).contains_key(k) implies final(self).as_map().contains_key(k) by {
                if k == entry.key@ {
                    assert(rows1[n].vault_key@ == k);
                } else {
                    let b = choose|b: int|
                        0 <= b < mid.rows@.len() && mid.rows@[b].vault_key@ == k;
                    assert(rows1[b].vault_key@ == k);
                }
            }
            assert(final(self).as_map() =~= mid.as_map().insert(entry.key@, entry.value@));
            assert(final(self).as_map() =~= old(self).as_map().insert(entry.key@, entry.value@));
        }
        Ok(())
    }

    /// Remove the row holding `key`, if present. Deleting an absent key is
    /// not an error: the operation succeeds either way.
    pub fn delete(&mut self, key: &str) -> (r: Result<(), RvError>)
        requires
            old(self).wf(),
        ensures
            final(self).wf(),
            path_invalid(key@) <==> (r matches Err(e) && e matches
                RvError::ErrPhysicalBackendKeyInvalid),
            path_invalid(key@) ==> final(self).as_map() == old(self).as_map(),
            !path_invalid(key@) ==> (r matches Ok(u)) && final(self).as_map() == old(
                self,
            ).as_map().remove(key@),
    {
        if begins_with_separator(key) {
            return Err(RvError::ErrPhysicalBackendKeyInvalid);
        }
        self.remove_row(key);
        Ok(())
    }

    /// List the distinct immediate child segments of every key that begins
    /// with `prefix`.
    pub fn list(&self, prefix: &str) -> (r: Result<Vec<String>, RvError>)
        requires
            self.wf(),
        ensures
            path_invalid(prefix@) <==> (r matches Err(e) && e matches
                RvError::ErrPhysicalBackendPrefixInvalid),
            !path_invalid(prefix@) ==> match r {
                Ok(segs) => segs.deep_view() == spec_segments(
                    prefix@,
                    matching_keys(prefix@, self.keys()),
                ),
                Err(_) => false,
            },
    {
        if begins_with_separator(prefix) {
            return Err(RvError::ErrPhysicalBackendPrefixInvalid);
        }
        let matching = filter_rows(prefix, &self.rows);
        Ok(list_keys(prefix, &matching))
    }
}

/// Round trip: after a put of `(k, v)`, a get of `k` finds exactly `v`.
pub proof fn lemma_put_then_get(m: Map<Seq<char>, Seq<u8>>, k: Seq<char>, v: Seq<u8>)
    ensures
        m.insert(k, v).contains_key(k),
        m.insert(k, v)[k] == v,
{
}

/// Idempotent delete: deleting an absent key changes nothing, and deleting
/// the same key twice in a row is the same as deleting it once.
pub proof fn lemma_delete_idempotent(m: Map<Seq<char>, Seq<u8>>, k: Seq<char>)
    ensures
        !m.contains_key(k) ==> m.remove(k) == m,
        m.remove(k).remove(k) == m.remove(k),
{
    if !m.contains_key(k) {
        assert(m.remove(k) =~= m);
    }
    assert(m.remove(k).remove(k) =~= m.remove(k));
}

/// Racing puts of one key: in whichever order the storage commits them,
/// the store keeps exactly one entry for the key, holding the value of
/// whichever put committed last.
pub proof fn lemma_racing_puts(m: Map<Seq<char>, Seq<u8>>, k: Seq<char>, v1: Seq<u8>, v2: Seq<u8>)
    ensures
        m.insert(k, v1).insert(k, v2).contains_key(k),
        m.insert(k, v1).insert(k, v2)[k] == v2,
        m.insert(k, v1).insert(k, v2).dom() == m.dom().insert(k),
        m.insert(k, v2).insert(k, v1)[k] == v1,
        m.insert(k, v2).insert(k, v1).dom() == m.dom().insert(k),
{
    assert(m.insert(k, v1).insert(k, v2).dom() =~= m.dom().insert(k));
    assert(m.insert(k, v2).insert(k, v1).dom() =~= m.dom().insert(k));
}

/// Overwrite: a second put of the same key replaces the first entirely; the
/// store ends as if only the second had happened.
pub proof fn lemma_put_overwrites(m: Map<Seq<char>, Seq<u8>>, k: Seq<char>, v1: Seq<u8>, v2: Seq<u8>)
    ensures
        m.insert(k, v1).insert(k, v2) == m.insert(k, v2),
{
    assert(m.insert(k, v1).insert(k, v2) =~= m.insert(k, v2));
}

} // verus!

//! The prefix-listing algorithm.
//!
//! The namespace is flat in storage but hierarchical via `/`. Listing a
//! prefix takes every key that begins with it, strips the prefix, and keeps
//! of the remainder either everything up to and including the first `/` (a
//! directory one level down) or the whole remainder (a leaf at this level).
//! Many deeper keys collapse to one directory segment, so the result is
//! deduplicated; it keeps the order of first production.

use vstd::prelude::*;
use vstd::string::StrSliceExecFns;
use vstd::string::StringExecFns;
use crate::entry::MysqlBackendEntry;
use crate::path::first_slash;
use crate::path::lemma_first_slash;
use crate::path::find_slash;
use crate::path::str_eq;
use crate::path::str_has_prefix;

verus! {

/// What remains of `key` once `prefix` is stripped from its start; a key
/// that does not begin with `prefix` is left whole.
pub open spec fn spec_suffix(prefix: Seq<char>, key: Seq<char>) -> Seq<char> {
    if prefix.is_prefix_of(key) {
        key.skip(prefix.len() as int)
    } else {
        key
    }
}

/// The listing entry a suffix produces: up to and including the first `/`
/// when the suffix holds one, the whole suffix when it does not.
pub open spec fn spec_segment(suffix: Seq<char>) -> Seq<char> {
    if first_slash(suffix) < suffix.len() {
        suffix.take(first_slash(suffix) + 1)
    } else {
        suffix
    }
}

/// The keys of a row sequence, in row order.
pub open spec fn rows_keys(rows: Seq<MysqlBackendEntry>) -> Seq<Seq<char>> {
    rows.map_values(|e: MysqlBackendEntry| e.vault_key@)
}

/// The distinct listing entries of `keys` under `prefix`, each at its first
/// production.
pub open spec fn spec_segments(prefix: Seq<char>, keys: Seq<Seq<char>>) -> Seq<Seq<char>>
    decreases keys.len(),
{
    if keys.len() == 0 {
        Seq::empty()
    } else {
        let rest = spec_segments(prefix, keys.drop_last());
        let seg = spec_segment(spec_suffix(prefix, keys.last()));
        if rest.contains(seg) {
            rest
        } else {
            rest.push(seg)
        }
    }
}

/// The keys that begin with `prefix`: what the storage-level fetch of a
/// listing returns.
pub open spec fn matching_keys(prefix: Seq<char>, keys: Seq<Seq<char>>) -> Seq<Seq<char>>
    decreases keys.len(),
{
    if keys.len() == 0 {
        Seq::empty()
    } else {
        let rest = matching_keys(prefix, keys.drop_last());
        if prefix.is_prefix_of(keys.last()) {
            rest.push(keys.last())
        } else {
            rest
        }
    }
}

/// A key stands in the fetch exactly when it is a stored key that begins
/// with the prefix: the fetch returns those rows and no others.
pub proof fn lemma_matching_keys_membership(prefix: Seq<char>, keys: Seq<Seq<char>>)
    ensures
        forall|x: Seq<char>|
            matching_keys(prefix, keys).contains(x) <==> keys.contains(x) && prefix.is_prefix_of(
                x,
            ),
    decreases keys.len(),
{
    if keys.len() > 0 {
        lemma_matching_keys_membership(prefix, keys.drop_last());
        let rest = matching_keys(prefix, keys.drop_last());
        assert forall|x: Seq<char>|
            matching_keys(prefix, keys).contains(x) implies keys.contains(x)
            && prefix.is_prefix_of(x) by {
            let m = matching_keys(prefix, keys);
            let j = choose|j: int| 0 <= j < m.len() && m[j] == x;
            if prefix.is_prefix_of(keys.last()) && j == rest.len() {
                assert(x == keys.last());
                assert(keys[keys.len() - 1] == x);
            } else {
                assert(rest[j] == x);
                assert(rest.contains(x));
                assert(keys.drop_last().contains(x) && prefix.is_prefix_of(x));
                let i = choose|i: int| 0 <= i < keys.drop_last().len() && keys.drop_last()[i] == x;
                assert(keys[i] == x);
                assert(keys.contains(x));
            }
        }
        assert forall|x: Seq<char>| keys.contains(x) && prefix.is_prefix_of(
            x,
        ) implies matching_keys(prefix, keys).contains(x) by {
            let i = choose|i: int| 0 <= i < keys.len() && keys[i] == x;
            if i < keys.len() - 1 {
                assert(keys.drop_last()[i] == x);
                assert(rest.contains(x));
                if prefix.is_prefix_of(keys.last()) {
                    let j = choose|j: int| 0 <= j < rest.len() && rest[j] == x;
                    assert(rest.push(keys.last())[j] == x);
                }
            } else {
                assert(x == keys.last());
                assert(rest.push(keys.last())[rest.len() as int] == x);
            }
        }
    }
}

/// The listing, characterised end to end: a segment is listed under
/// `prefix` exactly when some stored key that begins with `prefix`
/// produces it.
pub proof fn lemma_listing_characterisation(prefix: Seq<char>, keys: Seq<Seq<char>>)
    ensures
        forall|x: Seq<char>|
            spec_segments(prefix, matching_keys(prefix, keys)).contains(x) <==> exists|k: Seq<char>|
                #![auto]
                keys.contains(k) && prefix.is_prefix_of(k) && spec_segment(spec_suffix(prefix, k))
                    == x,
{
    let mk = matching_keys(prefix, keys);
    lemma_segments_membership(prefix, mk);
    lemma_matching_keys_membership(prefix, keys);
    assert forall|x: Seq<char>| spec_segments(prefix, mk).contains(x) implies exists|k: Seq<char>|
        #![auto]
        keys.contains(k) && prefix.is_prefix_of(k) && spec_segment(spec_suffix(prefix, k))
            == x by {
        let i = choose|i: int| 0 <= i < mk.len() && spec_segment(spec_suffix(prefix, mk[i])) == x;
        assert(mk.contains(mk[i]));
        assert(keys.contains(mk[i]) && prefix.is_prefix_of(mk[i]));
    }
    assert forall|x: Seq<char>|
        exists|k: Seq<char>|
            #![auto]
            keys.contains(k) && prefix.is_prefix_of(k) && spec_segment(spec_suffix(prefix, k))
                == x implies spec_segments(prefix, mk).contains(x) by {
        let k = choose|k: Seq<char>|
            #![auto]
            keys.contains(k) && prefix.is_prefix_of(k) && spec_segment(spec_suffix(prefix, k))
                == x;
        assert(mk.contains(k));
        let i = choose|i: int| 0 <= i < mk.len() && mk[i] == k;
        assert(spec_segment(spec_suffix(prefix, mk[i])) == x);
    }
}

/// The rows whose key begins with `prefix`: the in-memory form of the
/// storage-level fetch.
pub fn filter_rows(prefix: &str, rows: &Vec<MysqlBackendEntry>) -> (r: Vec<MysqlBackendEntry>)
    ensures
        rows_keys(r@) == matching_keys(prefix@, rows_keys(rows@)),
{
    let ghost all_keys: Seq<Seq<char>> = rows_keys(rows@);
    let mut out: Vec<MysqlBackendEntry> = Vec::new();
    let mut i: usize = 0;
    while i < rows.len()
        invariant
            i <= rows@.len(),
            all_keys == rows_keys(rows@),
            rows_keys(out@) == matching_keys(prefix@, all_keys.take(i as int)),
        decreases rows@.len() - i,
    {
        let ghost prev: Seq<Seq<char>> = rows_keys(out@);
        let row = &rows[i];
        let keep = str_has_prefix(row.vault_key.as_str(), prefix);
        if keep {
            out.push(
                MysqlBackendEntry {
                    vault_key: row.vault_key.clone(),
                    vault_value: crate::entry::copy_bytes(&row.vault_value),
                },
            );
        }
        proof {
            assert(all_keys.take(i + 1).drop_last() =~= all_keys.take(i as int));
            assert(all_keys.take(i + 1).last() == rows@[i as int].vault_key@);
            if keep {
                assert(rows_keys(out@) =~= prev.push(rows@[i as int].vault_key@));
            }
            assert(rows_keys(out@) =~= matching_keys(prefix@, all_keys.take(i + 1)));
        }
        i = i + 1;
    }
    proof {
        assert(all_keys.take(rows@.len() as int) =~= all_keys);
    }
    out
}

/// The exec form of one key's listing entry.
pub fn key_segment(prefix: &str, key: &str) -> (r: String)
    ensures
        r@ == spec_segment(spec_suffix(prefix@, key@)),
{
    let suffix: &str = if str_has_prefix(key, prefix) {
        let s = key.substring_char(prefix.unicode_len(), key.unicode_len());
        proof {
            assert(s@ =~= key@.skip(prefix@.len() as int));
        }
        s
    } else {
        key
    };
    let suffix_len = suffix.unicode_len();
    match find_slash(suffix) {
        Some(i) => {
            assert(i < suffix_len);
            let seg = suffix.substring_char(0, i + 1);
            proof {
                assert(seg@ =~= suffix@.take(first_slash(suffix@) + 1));
            }
            String::from_str(seg)
        },
        None => String::from_str(suffix),
    }
}

/// Is the view of `s` among the views of the strings of `v`?
pub fn contains_string(v: &Vec<String>, s: &str) -> (r: bool)
    ensures
        r == v.deep_view().contains(s@),
{
    let mut i: usize = 0;
    while i < v.len()
        invariant
            i <= v@.len(),
            forall|j: int| 0 <= j < i ==> v.deep_view()[j] != s@,
        decreases v@.len() - i,
    {
        if str_eq(v[i].as_str(), s) {
            proof {
                assert(v.deep_view()[i as int] == s@);
            }
            return true;
        }
        i = i + 1;
    }
    false
}

/// The listing entries of the fetched rows under `prefix`: one entry for
/// each distinct segment, in order of first production.
pub fn list_keys(prefix: &str, rows: &Vec<MysqlBackendEntry>) -> (r: Vec<String>)
    ensures
        r.deep_view() == spec_segments(prefix@, rows_keys(rows@)),
{
    let ghost all_keys: Seq<Seq<char>> = rows_keys(rows@);
    let mut out: Vec<String> = Vec::new();
    let mut i: usize = 0;
    while i < rows.len()
        invariant
            i <= rows@.len(),
            all_keys == rows_keys(rows@),
            out.deep_view() == spec_segments(prefix@, all_keys.take(i as int)),
        decreases rows@.len() - i,
    {
        let ghost old_out: Seq<Seq<char>> = out.deep_view();
        let seg = key_segment(prefix, rows[i].vault_key.as_str());
        let absent = !contains_string(&out, seg.as_str());
        if absent {
            out.push(seg);
        }
        proof {
            assert(all_keys.take(i + 1).drop_last() =~= all_keys.take(i as int));
            assert(all_keys.take(i + 1).last() == rows@[i as int].vault_key@);
            if absent {
                assert(out.deep_view() =~= old_out.push(seg@));
            }
        }
        i = i + 1;
    }
    proof {
        assert(all_keys.take(rows@.len() as int) =~= all_keys);
    }
    out
}

/// A listing never holds the same entry twice: each directory or leaf
/// segment appears exactly once, however many rows produce it.
pub proof fn lemma_segments_no_duplicates(prefix: Seq<char>, keys: Seq<Seq<char>>)
    ensures
        forall|i: int, j: int|
            0 <= i < j < spec_segments(prefix, keys).len() ==> spec_segments(prefix, keys)[i]
                != spec_segments(prefix, keys)[j],
    decreases keys.len(),
{
    if keys.len() > 0 {
        lemma_segments_no_duplicates(prefix, keys.drop_last());
        let rest = spec_segments(prefix, keys.drop_last());
        let seg = spec_segment(spec_suffix(prefix, keys.last()));
        if !rest.contains(seg) {
            assert forall|i: int, j: int|
                0 <= i < j < spec_segments(prefix, keys).len() implies spec_segments(
                prefix,
                keys,
            )[i] != spec_segments(prefix, keys)[j] by {
                if j == rest.len() {
                    assert(rest[i] == spec_segments(prefix, keys)[i]);
                }
            }
        }
    }
}

/// A segment stands in the listing exactly when some key produces it: the
/// listing is the set of entries of the keys, nothing more and nothing less.
pub proof fn lemma_segments_membership(prefix: Seq<char>, keys: Seq<Seq<char>>)
    ensures
        forall|x: Seq<char>|
            spec_segments(prefix, keys).contains(x) <==> exists|i: int|
                0 <= i < keys.len() && spec_segment(spec_suffix(prefix, keys[i])) == x,
    decreases keys.len(),
{
    if keys.len() > 0 {
        lemma_segments_membership(prefix, keys.drop_last());
        let rest = spec_segments(prefix, keys.drop_last());
        let seg = spec_segment(spec_suffix(prefix, keys.last()));
        assert forall|x: Seq<char>| spec_segments(prefix, keys).contains(x) implies exists|i: int|
            0 <= i < keys.len() && spec_segment(spec_suffix(prefix, keys[i])) == x by {
            if rest.contains(x) {
                let i = choose|i: int|
                    0 <= i < keys.drop_last().len() && spec_segment(
                        spec_suffix(prefix, keys.drop_last()[i]),
                    ) == x;
                assert(keys.drop_last()[i] == keys[i]);
            } else {
                assert(x == seg);
                assert(keys.last() == keys[keys.len() - 1]);
            }
        }
        assert forall|x: Seq<char>|
            exists|i: int| 0 <= i < keys.len() && spec_segment(spec_suffix(prefix, keys[i]))
                == x implies spec_segments(prefix, keys).contains(x) by {
            let i = choose|i: int|
                0 <= i < keys.len() && spec_segment(spec_suffix(prefix, keys[i])) == x;
            if i < keys.len() - 1 {
                assert(keys.drop_last()[i] == keys[i]);
                assert(rest.contains(x));
                if !rest.contains(seg) {
                    let j = choose|j: int| 0 <= j < rest.len() && rest[j] == x;
                    assert(rest.push(seg)[j] == x);
                }
            } else {
                assert(x == seg);
                if rest.contains(seg) {
                } else {
                    assert(rest.push(seg)[rest.len() as int] == seg);
                }
            }
        }
    }
}

} // verus!

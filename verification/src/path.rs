//! Keys and prefixes: the shape rule and the exec string helpers the
//! operations share.
//!
//! A key or prefix is a `/`-delimited path. The one shape rule of the store
//! is that a key or prefix must not begin with the separator; every operation
//! rejects such an argument before any storage access.

use vstd::prelude::*;
use vstd::string::StrSliceExecFns;

verus! {

/// A key or prefix is rejected when it begins with the path separator.
pub open spec fn path_invalid(s: Seq<char>) -> bool {
    s.len() > 0 && s[0] == '/'
}

/// The exec form of [`path_invalid`]: does `s` begin with `/`?
pub fn begins_with_separator(s: &str) -> (r: bool)
    ensures
        r == path_invalid(s@),
{
    !s.is_empty() && s.get_char(0) == '/'
}

/// Character-for-character equality of two string slices.
pub fn str_eq(a: &str, b: &str) -> (r: bool)
    ensures
        r == (a@ == b@),
{
    let a_len = a.unicode_len();
    let b_len = b.unicode_len();
    if a_len != b_len {
        return false;
    }
    let mut i: usize = 0;
    while i < a_len
        invariant
            i <= a_len,
            a_len == a@.len(),
            a_len == b@.len(),
            forall|j: int| 0 <= j < i ==> a@[j] == b@[j],
        decreases a_len - i,
    {
        if a.get_char(i) != b.get_char(i) {
            return false;
        }
        i = i + 1;
    }
    proof {
        assert(a@ =~= b@);
    }
    true
}

/// Does `s` begin with the characters of `p`?
pub fn str_has_prefix(s: &str, p: &str) -> (r: bool)
    ensures
        r == p@.is_prefix_of(s@),
{
    let s_len = s.unicode_len();
    let p_len = p.unicode_len();
    if p_len > s_len {
        return false;
    }
    let mut i: usize = 0;
    while i < p_len
        invariant
            i <= p_len,
            p_len == p@.len(),
            s_len == s@.len(),
            p_len <= s_len,
            forall|j: int| 0 <= j < i ==> s@[j] == p@[j],
        decreases p_len - i,
    {
        if s.get_char(i) != p.get_char(i) {
            return false;
        }
        i = i + 1;
    }
    proof {
        assert(p@ =~= s@.subrange(0, p@.len() as int));
    }
    true
}

/// The position of the first `/` in `s`, or `s.len()` when `s` has none.
pub open spec fn first_slash(s: Seq<char>) -> int
    decreases s.len(),
{
    if s.len() == 0 {
        0
    } else if s[0] == '/' {
        0
    } else {
        1 + first_slash(s.skip(1))
    }
}

/// `first_slash` points at the first `/` of `s`, and at `s.len()` when `s`
/// has none.
pub proof fn lemma_first_slash(s: Seq<char>)
    ensures
        0 <= first_slash(s) <= s.len(),
        first_slash(s) < s.len() ==> s[first_slash(s)] == '/',
        forall|j: int| 0 <= j < first_slash(s) ==> s[j] != '/',
    decreases s.len(),
{
    if s.len() == 0 {
    } else if s[0] == '/' {
    } else {
        lemma_first_slash(s.skip(1));
        assert forall|j: int| 0 <= j < first_slash(s) implies s[j] != '/' by {
            if j > 0 {
                assert(s.skip(1)[j - 1] == s[j]);
            }
        }
        if first_slash(s) < s.len() {
            assert(s.skip(1)[first_slash(s.skip(1))] == s[first_slash(s)]);
        }
    }
}

/// The exec search for the first `/`: `Some(i)` with `i == first_slash(s@)`
/// when `s` holds one, `None` when it does not.
pub fn find_slash(s: &str) -> (r: Option<usize>)
    ensures
        match r {
            Some(i) => i == first_slash(s@) && i < s@.len(),
            None => first_slash(s@) == s@.len(),
        },
{
    let s_len = s.unicode_len();
    let mut i: usize = 0;
    while i < s_len
        invariant
            i <= s_len,
            s_len == s@.len(),
            forall|j: int| 0 <= j < i ==> s@[j] != '/',
        decreases s_len - i,
    {
        if s.get_char(i) == '/' {
            proof {
                lemma_first_slash(s@);
                if first_slash(s@) < i {
                    assert(s@[first_slash(s@)] == '/');
                }
            }
            return Some(i);
        }
        i = i + 1;
    }
    proof {
        lemma_first_slash(s@);
        if first_slash(s@) < s@.len() {
            assert(s@[first_slash(s@)] == '/');
        }
    }
    None
}

} // verus!

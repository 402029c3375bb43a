//! Verified helpers over strings: equality, first occurrence of a
//! character, and prefix tests, each pinned to its view-level meaning.

use vstd::prelude::*;
use vstd::string::StrSliceExecFns;

verus! {

/// Character-wise string equality, pinned to view equality.
pub fn str_eq(a: &str, b: &str) -> (r: bool)
    ensures
        r == (a@ == b@),
{
    let alen = a.unicode_len();
    let blen = b.unicode_len();
    if alen != blen {
        return false;
    }
    let mut i: usize = 0;
    while i < alen
        invariant
            alen == a@.len(),
            alen == b@.len(),
            i <= alen,
            forall|j: int| 0 <= j < i ==> a@[j] == b@[j],
        decreases alen - i,
    {
        if a.get_char(i) != b.get_char(i) {
            return false;
        }
        i = i + 1;
    }
    proof {
        assert(a@ =~= b@);
    }
    true
}

/// Index of the first occurrence of `c` in `s`, as `Seq::index_of_first`.
pub fn find_char(s: &str, c: char) -> (r: Option<usize>)
    ensures
        match r {
            Some(i) => s@.index_of_first(c) == Some(i as int),
            None => s@.index_of_first(c) is None,
        },
{
    let len = s.unicode_len();
    let mut i: usize = 0;
    while i < len
        invariant
            len == s@.len(),
            i <= len,
            forall|j: int| 0 <= j < i ==> s@[j] != c,
        decreases len - i,
    {
        if s.get_char(i) == c {
            proof {
                s@.index_of_first_ensures(c);
            }
            return Some(i);
        }
        i = i + 1;
    }
    proof {
        s@.index_of_first_ensures(c);
    }
    None
}

/// True iff `s` begins with the character `c`.
pub fn starts_with_char(s: &str, c: char) -> (r: bool)
    ensures
        r == (s@.len() > 0 && s@[0] == c),
{
    let len = s.unicode_len();
    if len == 0 {
        false
    } else {
        s.get_char(0) == c
    }
}

/// True iff `s` begins with the two characters `c0`, `c1`.
pub fn starts_with_two(s: &str, c0: char, c1: char) -> (r: bool)
    ensures
        r == (s@.len() >= 2 && s@[0] == c0 && s@[1] == c1),
{
    let len = s.unicode_len();
    if len < 2 {
        false
    } else {
        s.get_char(0) == c0 && s.get_char(1) == c1
    }
}

/// True iff some index of `s` holds `c`.
pub open spec fn spec_has_char(s: Seq<char>, c: char) -> bool {
    exists|i: int| 0 <= i < s.len() && s[i] == c
}

/// True iff `c` occurs in `s`.
pub fn has_char(s: &str, c: char) -> (r: bool)
    ensures
        r == spec_has_char(s@, c),
{
    let r = find_char(s, c);
    proof {
        s@.index_of_first_ensures(c);
    }
    match r {
        Some(_) => true,
        None => false,
    }
}

/// True iff `pat` occurs in `s` starting at index `i`.
pub open spec fn spec_matches_at(s: Seq<char>, pat: Seq<char>, i: int) -> bool {
    0 <= i && i + pat.len() <= s.len() && s.subrange(i, i + pat.len()) == pat
}

/// True iff `pat` occurs somewhere in `s`.
pub open spec fn spec_has_substring(s: Seq<char>, pat: Seq<char>) -> bool {
    exists|i: int| spec_matches_at(s, pat, i)
}

/// True iff `pat` occurs somewhere in `s`.
pub fn has_substring(s: &str, pat: &str) -> (r: bool)
    ensures
        r == spec_has_substring(s@, pat@),
{
    let slen = s.unicode_len();
    let plen = pat.unicode_len();
    if plen > slen {
        proof {
            assert forall|i: int| !spec_matches_at(s@, pat@, i) by {}
        }
        return false;
    }
    if plen == 0 {
        proof {
            assert(s@.subrange(0, 0) =~= pat@);
            assert(spec_matches_at(s@, pat@, 0));
        }
        return true;
    }
    let mut i: usize = 0;
    while i <= slen - plen
        invariant
            slen == s@.len(),
            plen == pat@.len(),
            0 < plen <= slen,
            i <= slen - plen + 1,
            forall|j: int| 0 <= j < i ==> !spec_matches_at(s@, pat@, j),
        decreases slen - i,
    {
        let cand = s.substring_char(i, i + plen);
        if str_eq(cand, pat) {
            proof {
                assert(spec_matches_at(s@, pat@, i as int));
            }
            return true;
        }
        proof {
            assert(!spec_matches_at(s@, pat@, i as int));
        }
        i = i + 1;
    }
    proof {
        assert forall|j: int| !spec_matches_at(s@, pat@, j) by {
            if 0 <= j && j + pat@.len() <= s@.len() {
                assert(j < i as int);
            }
        }
    }
    false
}

} // verus!

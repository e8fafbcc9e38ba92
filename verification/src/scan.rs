//! Substring scanning over the character sequences of string slices.
//!
//! Every extraction rule of the classifier is phrased in terms of the first
//! occurrence of a pattern inside a line, so this module provides a verified
//! first-occurrence search together with the spec functions that the rest of
//! the crate states its contracts over.

use vstd::prelude::*;
use vstd::string::StrSliceExecFns;

verus! {

/// `pat` occurs in `text` starting exactly at position `i`.
pub open spec fn match_at(text: Seq<char>, pat: Seq<char>, i: int) -> bool {
    0 <= i && i + pat.len() <= text.len() && text.subrange(i, i + pat.len()) == pat
}

/// `pat` occurs somewhere in `text`.
pub open spec fn contains_pat(text: Seq<char>, pat: Seq<char>) -> bool {
    exists|i: int| match_at(text, pat, i)
}

/// `i` is the position of the first occurrence of `pat` in `text`.
pub open spec fn first_at(text: Seq<char>, pat: Seq<char>, i: int) -> bool {
    match_at(text, pat, i) && (forall|j: int| 0 <= j < i ==> !match_at(text, pat, j))
}

/// The position of the first occurrence of `pat` in `text`, if any.
pub open spec fn spec_find(text: Seq<char>, pat: Seq<char>) -> Option<int> {
    if contains_pat(text, pat) {
        Some(choose|i: int| first_at(text, pat, i))
    } else {
        None
    }
}

pub proof fn lemma_first_at_unique(text: Seq<char>, pat: Seq<char>, i: int, j: int)
    requires
        first_at(text, pat, i),
        first_at(text, pat, j),
    ensures
        i == j,
{
}

proof fn lemma_first_at_or_below(text: Seq<char>, pat: Seq<char>, w: int)
    requires
        match_at(text, pat, w),
    ensures
        exists|i: int| first_at(text, pat, i),
    decreases w,
{
    if forall|j: int| 0 <= j < w ==> !match_at(text, pat, j) {
        assert(first_at(text, pat, w));
    } else {
        let j = choose|j: int| 0 <= j < w && match_at(text, pat, j);
        lemma_first_at_or_below(text, pat, j);
    }
}

/// Every occurring pattern has a first occurrence.
pub proof fn lemma_contains_has_first(text: Seq<char>, pat: Seq<char>)
    requires
        contains_pat(text, pat),
    ensures
        exists|i: int| first_at(text, pat, i),
{
    let w = choose|i: int| match_at(text, pat, i);
    lemma_first_at_or_below(text, pat, w);
}

/// What `spec_find` returns is a first occurrence, and it returns nothing
/// only when the pattern is absent.
pub proof fn lemma_spec_find_characterizes(text: Seq<char>, pat: Seq<char>)
    ensures
        spec_find(text, pat) matches Some(i) ==> first_at(text, pat, i),
        spec_find(text, pat) is None ==> !contains_pat(text, pat),
{
    if contains_pat(text, pat) {
        lemma_contains_has_first(text, pat);
    }
}

/// A first occurrence pins `spec_find` down.
pub proof fn lemma_spec_find_some(text: Seq<char>, pat: Seq<char>, i: int)
    requires
        first_at(text, pat, i),
    ensures
        spec_find(text, pat) == Some(i),
{
    assert(contains_pat(text, pat));
    let j = choose|k: int| first_at(text, pat, k);
    assert(first_at(text, pat, j));
    lemma_first_at_unique(text, pat, i, j);
}

/// Whether `pat` occurs in `text` starting at position `i`.
fn matches_at(text: &str, pat: &str, i: usize, n: usize, m: usize) -> (b: bool)
    requires
        n == text@.len(),
        m == pat@.len(),
        i + m <= n,
    ensures
        b == match_at(text@, pat@, i as int),
{
    let mut k: usize = 0;
    while k < m
        invariant
            n == text@.len(),
            m == pat@.len(),
            i + m <= n,
            k <= m,
            forall|l: int| 0 <= l < k ==> text@[i + l] == pat@[l],
        decreases m - k,
    {
        if text.get_char(i + k) != pat.get_char(k) {
            proof {
                if match_at(text@, pat@, i as int) {
                    assert(text@.subrange(i as int, i + m)[k as int] == text@[i + k]);
                }
            }
            return false;
        }
        k += 1;
    }
    proof {
        assert(text@.subrange(i as int, i + m) =~= pat@);
    }
    true
}

/// The index of the first occurrence of `pat` in `text`, or `None` when
/// `pat` does not occur in `text`.
pub fn find_sub(text: &str, pat: &str) -> (r: Option<usize>)
    ensures
        r matches Some(i) ==> first_at(text@, pat@, i as int) && spec_find(text@, pat@)
            == Some(i as int),
        r is None ==> !contains_pat(text@, pat@) && spec_find(text@, pat@) is None,
{
    let n: usize = text.unicode_len();
    let m: usize = pat.unicode_len();
    if m > n {
        proof {
            assert forall|j: int| !match_at(text@, pat@, j) by {}
        }
        return None;
    }
    if m == 0 {
        proof {
            assert(text@.subrange(0, 0) =~= pat@);
            lemma_spec_find_some(text@, pat@, 0);
        }
        return Some(0);
    }
    let mut i: usize = 0;
    while i <= n - m
        invariant
            n == text@.len(),
            m == pat@.len(),
            0 < m <= n,
            i <= n - m + 1,
            forall|j: int| 0 <= j < i ==> !match_at(text@, pat@, j),
        decreases n - m + 1 - i,
    {
        if matches_at(text, pat, i, n, m) {
            proof {
                lemma_spec_find_some(text@, pat@, i as int);
            }
            return Some(i);
        }
        i += 1;
    }
    proof {
        assert forall|j: int| !match_at(text@, pat@, j) by {
            if j >= i {
                assert(j + pat@.len() > text@.len());
            }
        }
    }
    None
}

/// Whether `pat` occurs anywhere in `text`.
pub fn contains_sub(text: &str, pat: &str) -> (b: bool)
    ensures
        b == contains_pat(text@, pat@),
{
    match find_sub(text, pat) {
        Some(_) => true,
        None => false,
    }
}

/// Character-wise string equality.
pub fn str_eq(a: &str, b: &str) -> (r: bool)
    ensures
        r == (a@ == b@),
{
    let n: usize = a.unicode_len();
    let m: usize = b.unicode_len();
    if n != m {
        return false;
    }
    let mut i: usize = 0;
    while i < n
        invariant
            n == a@.len(),
            n == b@.len(),
            i <= n,
            forall|j: int| 0 <= j < i ==> a@[j] == b@[j],
        decreases n - i,
    {
        if a.get_char(i) != b.get_char(i) {
            return false;
        }
        i += 1;
    }
    proof {
        assert(a@ =~= b@);
    }
    true
}

} // verus!

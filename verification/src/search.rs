//! Character search: the character index (never the byte index) of the
//! first or last occurrence of a literal pattern inside a text.

use vstd::prelude::*;
use vstd::string::StrSliceExecFns;

verus! {

/// `pat` occurs in `s` beginning at character index `i`.
pub open spec fn is_match_at(s: Seq<char>, pat: Seq<char>, i: int) -> bool {
    &&& 0 <= i
    &&& i + pat.len() <= s.len()
    &&& s.subrange(i, i + pat.len()) == pat
}

/// Some occurrence of `pat` begins somewhere in `s`.
pub open spec fn has_match(s: Seq<char>, pat: Seq<char>) -> bool {
    exists|i: int| is_match_at(s, pat, i)
}

/// `i` is the index of the leftmost occurrence of `pat` in `s`.
pub open spec fn is_first_match(s: Seq<char>, pat: Seq<char>, i: int) -> bool {
    &&& is_match_at(s, pat, i)
    &&& forall|j: int| 0 <= j < i ==> !is_match_at(s, pat, j)
}

/// `i` is the index of the rightmost occurrence of `pat` in `s`; the index
/// still names the first character of that occurrence.
pub open spec fn is_last_match(s: Seq<char>, pat: Seq<char>, i: int) -> bool {
    &&& is_match_at(s, pat, i)
    &&& forall|j: int| j > i ==> !is_match_at(s, pat, j)
}

/// The index of the leftmost occurrence of `pat` in `s`; meaningful only
/// when such an occurrence exists.
pub open spec fn first_match_index(s: Seq<char>, pat: Seq<char>) -> int {
    choose|i: int| is_first_match(s, pat, i)
}

/// The index of the rightmost occurrence of `pat` in `s`; meaningful only
/// when such an occurrence exists.
pub open spec fn last_match_index(s: Seq<char>, pat: Seq<char>) -> int {
    choose|i: int| is_last_match(s, pat, i)
}

/// The leftmost occurrence is unique, so any index shown to be a first
/// match is the first-match index.
pub proof fn lemma_first_match_index(s: Seq<char>, pat: Seq<char>, i: int)
    requires
        is_first_match(s, pat, i),
    ensures
        first_match_index(s, pat) == i,
{
    let w = first_match_index(s, pat);
    assert(is_first_match(s, pat, w));
    if w < i {
        assert(!is_match_at(s, pat, w));
    } else if i < w {
        assert(!is_match_at(s, pat, i));
    }
}

/// The rightmost occurrence is unique, so any index shown to be a last
/// match is the last-match index.
pub proof fn lemma_last_match_index(s: Seq<char>, pat: Seq<char>, i: int)
    requires
        is_last_match(s, pat, i),
    ensures
        last_match_index(s, pat) == i,
{
    let w = last_match_index(s, pat);
    assert(is_last_match(s, pat, w));
    if w < i {
        assert(!is_match_at(s, pat, i));
    } else if i < w {
        assert(!is_match_at(s, pat, w));
    }
}

/// Whether `pat` occurs in `text` beginning at character index `i`,
/// compared character by character.
fn matches_at(text: &str, pat: &str, i: usize, n: usize, m: usize) -> (r: bool)
    requires
        n == text@.len(),
        m == pat@.len(),
        i + m <= n,
    ensures
        r == is_match_at(text@, pat@, i as int),
{
    let mut k: usize = 0;
    while k < m
        invariant
            k <= m,
            i + m <= n,
            n == text@.len(),
            m == pat@.len(),
            forall|l: int| 0 <= l < k ==> text@[i + l] == pat@[l],
        decreases m - k,
    {
        let tc = text.get_char(i + k);
        let pc = pat.get_char(k);
        if tc != pc {
            proof {
                assert(text@.subrange(i as int, i + m as int)[k as int] == text@[i + k]);
            }
            return false;
        }
        k = k + 1;
    }
    proof {
        assert(text@.subrange(i as int, i + m as int) =~= pat@);
    }
    true
}

/// The character index of the first character of the leftmost occurrence
/// of `pat` in `text`. An empty pattern and a pattern that does not occur
/// both yield no match.
pub fn char_find(text: &str, pat: &str) -> (r: Option<usize>)
    ensures
        match r {
            Some(i) => pat@.len() > 0 && is_first_match(text@, pat@, i as int),
            None => pat@.len() == 0 || !has_match(text@, pat@),
        },
{
    let n = text.unicode_len();
    let m = pat.unicode_len();
    if m == 0 || m > n {
        return None;
    }
    let mut i: usize = 0;
    while i <= n - m
        invariant
            n == text@.len(),
            m == pat@.len(),
            0 < m <= n,
            i <= n - m + 1,
            forall|j: int| 0 <= j < i ==> !is_match_at(text@, pat@, j),
        decreases n - m + 1 - i,
    {
        if matches_at(text, pat, i, n, m) {
            return Some(i);
        }
        i = i + 1;
    }
    proof {
        if has_match(text@, pat@) {
            let j = choose|j: int| is_match_at(text@, pat@, j);
            assert(!is_match_at(text@, pat@, j));
        }
    }
    None
}

/// The character index of the first character of the rightmost occurrence
/// of `pat` in `text`. An empty pattern and a pattern that does not occur
/// both yield no match.
pub fn char_rfind(text: &str, pat: &str) -> (r: Option<usize>)
    ensures
        match r {
            Some(i) => pat@.len() > 0 && is_last_match(text@, pat@, i as int),
            None => pat@.len() == 0 || !has_match(text@, pat@),
        },
{
    let n = text.unicode_len();
    let m = pat.unicode_len();
    if m == 0 || m > n {
        return None;
    }
    let mut i: usize = n - m + 1;
    while i > 0
        invariant
            n == text@.len(),
            m == pat@.len(),
            0 < m <= n,
            i <= n - m + 1,
            forall|j: int| j >= i ==> !is_match_at(text@, pat@, j),
        decreases i,
    {
        i = i - 1;
        if matches_at(text, pat, i, n, m) {
            return Some(i);
        }
    }
    proof {
        if has_match(text@, pat@) {
            let j = choose|j: int| is_match_at(text@, pat@, j);
            assert(!is_match_at(text@, pat@, j));
        }
    }
    None
}

} // verus!

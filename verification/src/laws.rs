//! Laws relating the engine's operations to one another, stated over the
//! same spec functions that the executable functions' contracts use.

use vstd::prelude::*;
use crate::engine::insert_seq;
use crate::engine::replace_seq;
use crate::engine::substring_seq;
use crate::resolve::clamp_index;
use crate::resolve::resolved_index;

verus! {

/// Replacing the characters `[a, b)` of a text with the very substring
/// those indices extract reproduces the text, for any valid range.
pub proof fn lemma_round_trip(s: Seq<char>, a: int, b: int)
    requires
        0 <= a <= b <= s.len(),
    ensures
        replace_seq(s, substring_seq(s, a, b), a, b) == s,
{
    assert(replace_seq(s, substring_seq(s, a, b), a, b) =~= s);
}

/// An extraction whose resolved end does not exceed its start is empty,
/// whatever the raw indices were.
pub proof fn lemma_empty_range(s: Seq<char>, a: int, b: int)
    requires
        0 <= a,
        resolved_index(s.len() as int, b) <= a,
    ensures
        substring_seq(s, a, resolved_index(s.len() as int, b)) == Seq::<char>::empty(),
{
}

/// Inserting `ins` at index `at` yields a text whose character length is
/// the sum of the two lengths, and which is the prefix of the text before
/// `at`, then `ins`, then the suffix of the text from `at`.
pub proof fn lemma_insert(s: Seq<char>, ins: Seq<char>, at: int)
    requires
        0 <= at,
    ensures
        insert_seq(s, ins, at).len() == s.len() + ins.len(),
        insert_seq(s, ins, at) == substring_seq(s, 0, at) + ins + substring_seq(
            s,
            at,
            s.len() as int,
        ),
{
    let n = s.len() as int;
    let a0 = clamp_index(n, at);
    assert(substring_seq(s, 0, at) =~= s.take(a0));
    assert(substring_seq(s, at, n) =~= s.skip(a0));
}

/// Removing the characters `[a, b)` and inserting the removed substring
/// back at `a` reproduces the text.
pub proof fn lemma_remove_insert(s: Seq<char>, a: int, b: int)
    requires
        0 <= a <= b <= s.len(),
    ensures
        insert_seq(
            replace_seq(s, Seq::<char>::empty(), a, b),
            substring_seq(s, a, b),
            a,
        ) == s,
{
    let removed = replace_seq(s, Seq::<char>::empty(), a, b);
    assert(removed.take(a) =~= s.take(a));
    assert(removed.skip(a) =~= s.skip(b));
    assert(insert_seq(removed, substring_seq(s, a, b), a) =~= s);
}

/// A negative end offset `-k` addresses the same substring as the absolute
/// end `len - k`, whenever the text holds at least `k` characters.
pub proof fn lemma_negative_offset(s: Seq<char>, start: int, k: int)
    requires
        0 < k <= s.len(),
    ensures
        substring_seq(s, start, resolved_index(s.len() as int, -k)) == substring_seq(
            s,
            start,
            resolved_index(s.len() as int, s.len() - k),
        ),
{
}

} // verus!

//! The substring and replacement engine: extraction of a character range,
//! splicing of a replacement over a character range, and the derived
//! operations (trimming, removal, insertion, insertion next to or between
//! pattern occurrences) built on the same core.

use vstd::prelude::*;
use vstd::string::StrSliceExecFns;
use vstd::string::StringExecFns;
use crate::resolve::clamp_index;
use crate::resolve::position_and_offset_to_start_end;
use crate::resolve::resolve_index;
use crate::resolve::resolved_index;
use crate::resolve::resolved_span_end;
use crate::resolve::resolved_span_start;
use crate::search::char_find;
use crate::search::char_rfind;
use crate::search::first_match_index;
use crate::search::has_match;
use crate::search::last_match_index;
use crate::search::lemma_first_match_index;
use crate::search::lemma_last_match_index;

verus! {

/// The character subsequence of `s` covering `[start, end)` after both
/// bounds are clamped to `[0, len]`: empty whenever the clamped end does
/// not exceed the clamped start.
pub open spec fn substring_seq(s: Seq<char>, start: int, end: int) -> Seq<char> {
    let n = s.len() as int;
    let s0 = clamp_index(n, start);
    let e0 = clamp_index(n, end);
    if e0 <= s0 {
        Seq::empty()
    } else {
        s.subrange(s0, e0)
    }
}

/// `s` with the span `[start, end)` (both bounds clamped to `[0, len]`)
/// replaced by `repl`. A degenerate span, whose clamped end does not
/// exceed its clamped start, keeps the whole text and inserts `repl` at
/// the clamped start.
pub open spec fn replace_seq(s: Seq<char>, repl: Seq<char>, start: int, end: int) -> Seq<char> {
    let n = s.len() as int;
    let s0 = clamp_index(n, start);
    let e0 = clamp_index(n, end);
    let e1 = if e0 < s0 {
        s0
    } else {
        e0
    };
    s.take(s0) + repl + s.skip(e1)
}

/// `s` with `ins` inserted before the character at index `at`; an `at` past
/// the end of the text appends.
pub open spec fn insert_seq(s: Seq<char>, ins: Seq<char>, at: int) -> Seq<char> {
    replace_seq(s, ins, at, at)
}

/// Extraction by absolute character indices.
fn substring_core<'a>(text: &'a str, start: usize, end: usize) -> (r: &'a str)
    ensures
        r@ == substring_seq(text@, start as int, end as int),
{
    let n = text.unicode_len();
    let e = if end > n {
        n
    } else {
        end
    };
    if e <= start {
        proof {
            reveal_strlit("");
            assert(""@ =~= Seq::<char>::empty());
        }
        ""
    } else {
        text.substring_char(start, e)
    }
}

/// Splicing by absolute character indices.
fn replace_core(text: &str, repl: &str, start: usize, end: usize) -> (r: String)
    ensures
        r@ == replace_seq(text@, repl@, start as int, end as int),
{
    let n = text.unicode_len();
    let s0 = if start > n {
        n
    } else {
        start
    };
    let e0 = if end > n {
        n
    } else {
        end
    };
    let e1 = if e0 < s0 {
        s0
    } else {
        e0
    };
    let prefix = text.substring_char(0, s0);
    let suffix = text.substring_char(e1, n);
    let mut out = prefix.to_owned();
    out.append(repl);
    out.append(suffix);
    proof {
        assert(text@.subrange(0, s0 as int) =~= text@.take(s0 as int));
        assert(text@.subrange(e1 as int, n as int) =~= text@.skip(e1 as int));
    }
    out
}

/// The substring of `text` from character index `start` to character index
/// `end`, where a negative `end` counts back from the end of the text.
/// Out-of-range indices clamp, and a resolved end that does not exceed the
/// start yields the empty string.
pub fn substring<'a>(text: &'a str, start: usize, end: i64) -> (r: &'a str)
    ensures
        r@ == substring_seq(
            text@,
            start as int,
            resolved_index(text@.len() as int, end as int),
        ),
        resolved_index(text@.len() as int, end as int) <= start ==> r@ == Seq::<char>::empty(),
{
    let n = text.unicode_len();
    let e = resolve_index(n, end);
    substring_core(text, start, e)
}

/// The substring of `text` from its start to character index `end`; a
/// negative `end` counts back from the end of the text.
pub fn substring_start<'a>(text: &'a str, end: i64) -> (r: &'a str)
    ensures
        r@ == substring_seq(text@, 0, resolved_index(text@.len() as int, end as int)),
{
    substring(text, 0, end)
}

/// The substring of `text` from character index `start` through the end of
/// the text; a negative `start` counts back from the end. A start at or
/// past the end of the text yields the empty string.
pub fn substring_end<'a>(text: &'a str, start: i64) -> (r: &'a str)
    ensures
        r@ == substring_seq(
            text@,
            resolved_index(text@.len() as int, start as int),
            text@.len() as int,
        ),
{
    let n = text.unicode_len();
    let s = resolve_index(n, start);
    substring_core(text, s, n)
}

/// The substring of `text` described by a position and a signed length: a
/// non-negative `length` extends right from `position`, a negative one
/// extends left, ending at `position`.
pub fn substring_offset<'a>(text: &'a str, position: usize, length: i32) -> (r: &'a str)
    ensures
        r@ == substring_seq(
            text@,
            resolved_span_start(position as int, length as int),
            resolved_span_end(position as int, length as int),
        ),
{
    let (start, end) = position_and_offset_to_start_end(position, length);
    substring_core(text, start, end)
}

/// A new string equal to `text` with the characters from index `start` to
/// index `end` replaced by `replacement`; a negative `end` counts back from
/// the end of the text. A degenerate range inserts `replacement` at the
/// (clamped) start.
pub fn substring_replace(text: &str, replacement: &str, start: usize, end: i64) -> (r: String)
    ensures
        r@ == replace_seq(
            text@,
            replacement@,
            start as int,
            resolved_index(text@.len() as int, end as int),
        ),
{
    let n = text.unicode_len();
    let e = resolve_index(n, end);
    replace_core(text, replacement, start, e)
}

/// `text` with its first `end` characters replaced by `replacement`; a
/// negative `end` counts back from the end of the text.
pub fn substring_replace_start(text: &str, replacement: &str, end: i64) -> (r: String)
    ensures
        r@ == replace_seq(
            text@,
            replacement@,
            0,
            resolved_index(text@.len() as int, end as int),
        ),
{
    substring_replace(text, replacement, 0, end)
}

/// `text` with everything from character index `start` through the end
/// replaced by `replacement`; a negative `start` counts back from the end
/// of the text.
pub fn substring_replace_end(text: &str, replacement: &str, start: i64) -> (r: String)
    ensures
        r@ == replace_seq(
            text@,
            replacement@,
            resolved_index(text@.len() as int, start as int),
            text@.len() as int,
        ),
{
    let n = text.unicode_len();
    let s = resolve_index(n, start);
    replace_core(text, replacement, s, n)
}

/// `text` with the characters from index `start` to index `end` removed:
/// the opposite of `substring` over the same range.
pub fn substring_remove(text: &str, start: usize, end: usize) -> (r: String)
    ensures
        r@ == replace_seq(text@, Seq::<char>::empty(), start as int, end as int),
{
    proof {
        reveal_strlit("");
        assert(""@ =~= Seq::<char>::empty());
    }
    replace_core(text, "", start, end)
}

/// `text` with the span described by a position and a signed length
/// removed: the opposite of `substring_offset` over the same span.
pub fn substring_pull(text: &str, position: usize, length: i32) -> (r: String)
    ensures
        r@ == replace_seq(
            text@,
            Seq::<char>::empty(),
            resolved_span_start(position as int, length as int),
            resolved_span_end(position as int, length as int),
        ),
{
    proof {
        reveal_strlit("");
        assert(""@ =~= Seq::<char>::empty());
    }
    let (start, end) = position_and_offset_to_start_end(position, length);
    replace_core(text, "", start, end)
}

/// A new string with `replacement` inserted before the character of `text`
/// at index `start`, counted in characters, never bytes; a `start` at or
/// past the end of the text appends.
pub fn substring_insert(text: &str, replacement: &str, start: usize) -> (r: String)
    ensures
        r@ == insert_seq(text@, replacement@, start as int),
{
    replace_core(text, replacement, start, start)
}

/// `text` with `insert` inserted next to an occurrence of `pat`: before or
/// after its first character per `before`, at the first or last occurrence
/// per `first`. Without an occurrence (in particular for an empty `pat`)
/// the text is returned unchanged.
pub fn insert_adjacent(text: &str, insert: &str, pat: &str, before: bool, first: bool) -> (r:
    String)
    ensures
        pat@.len() == 0 || !has_match(text@, pat@) ==> r@ == text@,
        pat@.len() > 0 && has_match(text@, pat@) ==> ({
            let occ = if first {
                first_match_index(text@, pat@)
            } else {
                last_match_index(text@, pat@)
            };
            let at = if before {
                occ
            } else {
                occ + 1
            };
            r@ == insert_seq(text@, insert@, at)
        }),
{
    let n = text.unicode_len();
    let found = if first {
        char_find(text, pat)
    } else {
        char_rfind(text, pat)
    };
    match found {
        Some(idx) => {
            proof {
                if first {
                    lemma_first_match_index(text@, pat@, idx as int);
                } else {
                    lemma_last_match_index(text@, pat@, idx as int);
                }
                assert(idx < n);
            }
            let at = if before {
                idx
            } else {
                idx + 1
            };
            substring_insert(text, insert, at)
        },
        None => text.to_owned(),
    }
}

/// `text` with `insert` inserted before the first occurrence of `pat`, or
/// unchanged when `pat` does not occur.
pub fn insert_before_first(text: &str, insert: &str, pat: &str) -> (r: String)
    ensures
        pat@.len() == 0 || !has_match(text@, pat@) ==> r@ == text@,
        pat@.len() > 0 && has_match(text@, pat@) ==> r@ == insert_seq(
            text@,
            insert@,
            first_match_index(text@, pat@),
        ),
{
    insert_adjacent(text, insert, pat, true, true)
}

/// `text` with `insert` inserted before the last occurrence of `pat`, or
/// unchanged when `pat` does not occur.
pub fn insert_before_last(text: &str, insert: &str, pat: &str) -> (r: String)
    ensures
        pat@.len() == 0 || !has_match(text@, pat@) ==> r@ == text@,
        pat@.len() > 0 && has_match(text@, pat@) ==> r@ == insert_seq(
            text@,
            insert@,
            last_match_index(text@, pat@),
        ),
{
    insert_adjacent(text, insert, pat, true, false)
}

/// `text` with `insert` inserted after the first character of the first
/// occurrence of `pat`, or unchanged when `pat` does not occur.
pub fn insert_after_first(text: &str, insert: &str, pat: &str) -> (r: String)
    ensures
        pat@.len() == 0 || !has_match(text@, pat@) ==> r@ == text@,
        pat@.len() > 0 && has_match(text@, pat@) ==> r@ == insert_seq(
            text@,
            insert@,
            first_match_index(text@, pat@) + 1,
        ),
{
    insert_adjacent(text, insert, pat, false, true)
}

/// `text` with `insert` inserted after the first character of the last
/// occurrence of `pat`, or unchanged when `pat` does not occur.
pub fn insert_after_last(text: &str, insert: &str, pat: &str) -> (r: String)
    ensures
        pat@.len() == 0 || !has_match(text@, pat@) ==> r@ == text@,
        pat@.len() > 0 && has_match(text@, pat@) ==> r@ == insert_seq(
            text@,
            insert@,
            last_match_index(text@, pat@) + 1,
        ),
{
    insert_adjacent(text, insert, pat, false, false)
}

/// `text` with the span between the first occurrence of `start_pat`
/// (exclusive of its first character) and the last occurrence of `end_pat`
/// replaced by `insert`. Unless both patterns occur, the text is returned
/// unchanged.
pub fn insert_between(text: &str, insert: &str, start_pat: &str, end_pat: &str) -> (r: String)
    ensures
        ({
            let found = start_pat@.len() > 0 && has_match(text@, start_pat@) && end_pat@.len() > 0
                && has_match(text@, end_pat@);
            &&& !found ==> r@ == text@
            &&& found ==> r@ == replace_seq(
                text@,
                insert@,
                first_match_index(text@, start_pat@) + 1,
                last_match_index(text@, end_pat@),
            )
        }),
{
    let n = text.unicode_len();
    match char_find(text, start_pat) {
        Some(si) => match char_rfind(text, end_pat) {
            Some(ei) => {
                proof {
                    lemma_first_match_index(text@, start_pat@, si as int);
                    lemma_last_match_index(text@, end_pat@, ei as int);
                    assert(si < n);
                }
                replace_core(text, insert, si + 1, ei)
            },
            None => text.to_owned(),
        },
        None => text.to_owned(),
    }
}

/// `insert` concatenated before `text`.
pub fn prepend(text: &str, insert: &str) -> (r: String)
    ensures
        r@ == insert@ + text@,
{
    let mut out = insert.to_owned();
    out.append(text);
    out
}

/// `insert` concatenated after `text`.
pub fn append(text: &str, insert: &str) -> (r: String)
    ensures
        r@ == text@ + insert@,
{
    let mut out = text.to_owned();
    out.append(insert);
    out
}

} // verus!

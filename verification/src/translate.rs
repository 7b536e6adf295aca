//! Index translation: character positions mapped to byte offsets in the
//! UTF-8 encoding of a text, together with the lemmas that relate a text's
//! character length to its byte length.

use vstd::prelude::*;
use vstd::string::StrSliceExecFns;
use vstd::utf8::char_is_scalar;
use vstd::utf8::decode_utf8;
use vstd::utf8::encode_scalar;
use vstd::utf8::encode_utf8;
use vstd::utf8::encode_utf8_decode_utf8;
use crate::resolve::clamp_index;

verus! {

/// The byte offset at which the character at index `i` begins inside the
/// UTF-8 encoding of `s`; for `i == s.len()` this is the byte length of the
/// whole encoding.
pub open spec fn byte_index_of(s: Seq<char>, i: int) -> int
    recommends
        0 <= i <= s.len(),
{
    encode_utf8(s.take(i)).len() as int
}

/// Encoding a concatenation encodes the two parts one after the other.
pub proof fn lemma_encode_utf8_concat(a: Seq<char>, b: Seq<char>)
    ensures
        encode_utf8(a + b) == encode_utf8(a) + encode_utf8(b),
    decreases a.len(),
{
    if a.len() == 0 {
        assert(a + b =~= b);
        assert(encode_utf8(a) + encode_utf8(b) =~= encode_utf8(b));
    } else {
        assert((a + b).drop_first() =~= a.drop_first() + b);
        lemma_encode_utf8_concat(a.drop_first(), b);
        assert((a + b)[0] == a[0]);
        assert(encode_utf8(a + b) =~= encode_utf8(a) + encode_utf8(b));
    }
}

/// Extending a prefix by one character extends its encoding by that
/// character's encoding.
pub proof fn lemma_encode_utf8_take_succ(s: Seq<char>, j: int)
    requires
        0 <= j < s.len(),
    ensures
        encode_utf8(s.take(j + 1)).len() == encode_utf8(s.take(j)).len() + encode_scalar(
            s[j] as u32,
        ).len(),
{
    let one = seq![s[j]];
    assert(s.take(j + 1) =~= s.take(j) + one);
    lemma_encode_utf8_concat(s.take(j), one);
    assert(one.drop_first() =~= Seq::<char>::empty());
    assert(encode_utf8(Seq::<char>::empty()) =~= Seq::<u8>::empty());
    assert(encode_utf8(one) =~= encode_scalar(s[j] as u32));
}

/// The encoding of a prefix is never longer than the encoding of the whole
/// text.
pub proof fn lemma_encode_utf8_take_le(s: Seq<char>, j: int)
    requires
        0 <= j <= s.len(),
    ensures
        encode_utf8(s.take(j)).len() <= encode_utf8(s).len(),
{
    assert(s =~= s.take(j) + s.skip(j));
    lemma_encode_utf8_concat(s.take(j), s.skip(j));
}

/// The width in bytes of one character's UTF-8 encoding.
pub fn char_utf8_len(c: char) -> (r: usize)
    ensures
        r == encode_scalar(c as u32).len(),
        1 <= r <= 4,
{
    proof {
        char_is_scalar(c);
    }
    let u = c as u32;
    if u < 0x80 {
        1
    } else if u < 0x800 {
        2
    } else if u < 0x10000 {
        3
    } else {
        4
    }
}

/// The character length of a text: the count of Unicode scalar values,
/// which differs from the byte length whenever a character occupies more
/// than one byte.
pub fn char_len(text: &str) -> (r: usize)
    ensures
        r == text@.len(),
{
    text.unicode_len()
}

/// The byte length of the UTF-8 encoding of the text.
fn utf8_len(text: &str) -> (r: usize)
    ensures
        r == encode_utf8(text@).len(),
{
    text.as_bytes().len()
}

/// The byte offset of the character at index `i`, summed character by
/// character over the prefix before it.
fn byte_prefix_len(text: &str, i: usize) -> (r: usize)
    requires
        i <= text@.len(),
    ensures
        r == byte_index_of(text@, i as int),
{
    let total = utf8_len(text);
    proof {
        assert(text@.take(0) =~= Seq::<char>::empty());
    }
    let mut b: usize = 0;
    let mut j: usize = 0;
    while j < i
        invariant
            j <= i <= text@.len(),
            b == encode_utf8(text@.take(j as int)).len(),
            total == encode_utf8(text@).len(),
        decreases i - j,
    {
        let c = text.get_char(j);
        proof {
            lemma_encode_utf8_take_succ(text@, j as int);
            lemma_encode_utf8_take_le(text@, j as int + 1);
        }
        b = b + char_utf8_len(c);
        j = j + 1;
    }
    b
}

/// The byte offset at which the character at index `start` begins. A
/// `start` at or past the end of the text yields `0`: the start of a range
/// that is already degenerate, never a boundary of a well-formed range.
pub fn to_start_byte_index(text: &str, start: usize) -> (r: usize)
    ensures
        start < text@.len() ==> r == byte_index_of(text@, start as int),
        start >= text@.len() ==> r == 0,
{
    let n = text.unicode_len();
    if start < n {
        byte_prefix_len(text, start)
    } else {
        0
    }
}

/// The byte offset at which the character at index `end` begins, or the
/// byte length of the whole text when `end` is at or past the last
/// character: an end index past the end means "through the end of the
/// text".
pub fn to_end_byte_index(text: &str, end: usize) -> (r: usize)
    ensures
        r == byte_index_of(text@, clamp_index(text@.len() as int, end as int)),
{
    let n = text.unicode_len();
    if end < n {
        byte_prefix_len(text, end)
    } else {
        proof {
            assert(text@.take(text@.len() as int) =~= text@);
        }
        utf8_len(text)
    }
}

/// The bytes before the byte index of character `i` decode to exactly the
/// first `i` characters: a byte offset derived through the translator
/// always falls on a scalar-value boundary, so slicing at it can never
/// split a multibyte encoding unit.
pub proof fn lemma_byte_index_is_boundary(s: Seq<char>, i: int)
    requires
        0 <= i <= s.len(),
    ensures
        decode_utf8(encode_utf8(s).take(byte_index_of(s, i))) == s.take(i),
{
    lemma_encode_utf8_concat(s.take(i), s.skip(i));
    assert(s.take(i) + s.skip(i) =~= s);
    assert(encode_utf8(s).take(byte_index_of(s, i)) =~= encode_utf8(s.take(i)));
    encode_utf8_decode_utf8(s.take(i));
}

/// For a text whose characters each encode to `k` bytes, the byte length of
/// the text is `k` times its character length, so the character length is
/// the byte length divided by `k`.
pub proof fn lemma_char_len_uniform_width(s: Seq<char>, k: int)
    requires
        1 <= k,
        forall|i: int| 0 <= i < s.len() ==> #[trigger] encode_scalar(s[i] as u32).len() == k,
    ensures
        encode_utf8(s).len() == k * s.len(),
        s.len() == encode_utf8(s).len() as int / k,
    decreases s.len(),
{
    if s.len() == 0 {
    } else {
        assert forall|i: int|
            0 <= i < s.drop_first().len() implies #[trigger] encode_scalar(
            s.drop_first()[i] as u32,
        ).len() == k by {
            assert(s.drop_first()[i] == s[i + 1]);
        }
        lemma_char_len_uniform_width(s.drop_first(), k);
        assert(encode_scalar(s[0] as u32).len() == k);
        assert(k + k * (s.len() - 1) == k * s.len()) by (nonlinear_arith);
    }
    assert((k * s.len()) / k == s.len()) by (nonlinear_arith)
        requires
            1 <= k,
    ;
}

} // verus!

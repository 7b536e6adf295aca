//! Offset resolution: normalises the addressing conventions of the public
//! surface (absolute character indices, signed indices that count back from
//! the end, and position plus signed length) into plain character indices.

use vstd::prelude::*;

verus! {

/// A character index clamped to the valid range `[0, n]` for a text of
/// character length `n`.
pub open spec fn clamp_index(n: int, v: int) -> int {
    if v < 0 {
        0
    } else if v > n {
        n
    } else {
        v
    }
}

/// A signed index resolved against a text of character length `n`: a
/// negative value counts back from the end of the text, and the result is
/// clamped to `[0, n]`.
pub open spec fn resolved_index(n: int, v: int) -> int {
    clamp_index(n, if v < 0 { n + v } else { v })
}

/// Resolve a signed character index against a text of `n` characters.
///
/// A negative `v` addresses `n - |v|`, so `-1` names the last character;
/// the result is clamped to `[0, n]`.
pub fn resolve_index(n: usize, v: i64) -> (r: usize)
    ensures
        r == resolved_index(n as int, v as int),
{
    if v < 0 {
        let t: i128 = n as i128 + v as i128;
        if t < 0 {
            0
        } else {
            t as usize
        }
    } else {
        if (v as u128) > (n as u128) {
            n
        } else {
            v as usize
        }
    }
}

/// The start of the character span described by a position and a signed
/// length: a non-negative length starts at `position` itself, a negative
/// one starts `|length|` characters to its left, stopping at `0`.
pub open spec fn resolved_span_start(position: int, length: int) -> int {
    if length < 0 {
        if position + length < 0 {
            0
        } else {
            position + length
        }
    } else {
        position
    }
}

/// The end of the character span described by a position and a signed
/// length: `|length|` characters to the right of the resolved start,
/// saturating at the largest representable index.
pub open spec fn resolved_span_end(position: int, length: int) -> int {
    let start = resolved_span_start(position, length);
    let magnitude = if length < 0 {
        -length
    } else {
        length
    };
    if start + magnitude > usize::MAX as int {
        usize::MAX as int
    } else {
        start + magnitude
    }
}

/// Resolve a position and a signed length into a `(start, end)` character
/// span.
///
/// A non-negative `length` extends `length` characters to the right of
/// `position`; a negative one extends `|length|` characters to its left,
/// ending at `position` and stopping at the start of the text. The end
/// saturates instead of overflowing.
pub fn position_and_offset_to_start_end(position: usize, length: i32) -> (r: (usize, usize))
    ensures
        r.0 == resolved_span_start(position as int, length as int),
        r.1 == resolved_span_end(position as int, length as int),
{
    let magnitude: usize = if length >= 0 {
        length as usize
    } else {
        (-(length as i64)) as usize
    };
    let start: usize = if length < 0 {
        if position >= magnitude {
            position - magnitude
        } else {
            0
        }
    } else {
        position
    };
    let end: usize = if start <= usize::MAX - magnitude {
        start + magnitude
    } else {
        usize::MAX
    };
    (start, end)
}

} // verus!

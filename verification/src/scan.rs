//! Scans for white space and comments backwards from a position of the text.
//!
//! Reading `bytes[..end]` backwards, one byte at a time, gives the same answers as
//! lexing its characters in reverse order: the scan only looks for ASCII
//! characters, and a character outside ASCII is made of bytes outside ASCII.
use vstd::prelude::*;

use crate::text::is_white_space_byte;

verus! {

fn white_space_byte(b: u8) -> (r: bool)
    ensures
        r == is_white_space_byte(b),
{
    b == 9 || b == 10 || b == 12 || b == 13 || b == 32
}

/// The `k`-th byte of `bytes[..end]` counted from its end.
pub open spec fn spec_back_at(bytes: Seq<u8>, end: int, k: int) -> Option<u8> {
    if 0 <= k < end {
        Some(bytes[end - 1 - k])
    } else {
        None
    }
}

fn back_at(bytes: &[u8], end: usize, k: usize) -> (r: Option<u8>)
    requires
        end <= bytes@.len(),
    ensures
        r == spec_back_at(bytes@, end as int, k as int),
{
    if k < end {
        Some(bytes[end - 1 - k])
    } else {
        None
    }
}

/// Skips, backwards, a comment that starts (reading backwards) at `k`; `None`
/// when the text runs out where a lexer would have stopped.
fn back_skip_comment(bytes: &[u8], end: usize, k: usize) -> (r: Option<usize>)
    requires
        end <= bytes@.len(),
        k <= end,
    ensures
        r matches Some(k2) ==> k <= k2 <= end,
        k >= end ==> r is None,
        k < end && bytes@[end - 1 - k] != 47 ==> r == Some(k),
        k < end && bytes@[end - 1 - k] == 47 && k + 1 >= end ==> r is None,
        k + 1 < end && bytes@[end - 1 - k] == 47 && bytes@[end - 2 - k] != 42 ==> r == Some(k),
{
    let c = back_at(bytes, end, k)?;
    if c == 47 {
        let p = back_at(bytes, end, k + 1)?;
        if p == 42 {
            let mut i = k;
            loop
                invariant
                    end <= bytes@.len(),
                    k <= i <= end,
                    k + 1 < end,
                    bytes@[end - 1 - k] == 47,
                    bytes@[end - 2 - k] == 42,
                decreases end - i,
            {
                if i == end {
                    return Some(i);
                }
                i = i + 1;
                match back_at(bytes, end, i) {
                    Some(c) => {
                        if c == 42 {
                            let p = back_at(bytes, end, i + 1)?;
                            if p == 47 {
                                i = i + 1;
                                if i + 1 > end - 1 {
                                    return None;
                                }
                                return Some(i + 1);
                            }
                        }
                    },
                    None => return Some(i),
                }
            }
        }
    }
    Some(k)
}

/// Skips, backwards, the white space at `k`; `None` when the text runs out.
fn back_skip_space(bytes: &[u8], end: usize, k: usize) -> (r: Option<usize>)
    requires
        end <= bytes@.len(),
        k <= end,
    ensures
        r matches Some(k2) ==> k < k2 < end && !is_white_space_byte(bytes@[end - 1 - k2])
            && forall|j: int| k < j < k2 ==> is_white_space_byte(#[trigger] bytes@[end - 1 - j]),
        r is None ==> forall|j: int| k < j < end ==> is_white_space_byte(#[trigger] bytes@[end - 1 - j]),
{
    let mut i = k;
    loop
        invariant
            end <= bytes@.len(),
            k <= i <= end,
            forall|j: int| k < j <= i && j < end ==> is_white_space_byte(#[trigger] bytes@[end - 1 - j]),
        decreases end - i,
    {
        if i >= end {
            return None;
        }
        i = i + 1;
        let c = back_at(bytes, end, i)?;
        if !white_space_byte(c) {
            return Some(i);
        }
    }
}

/// The number of bytes of white space and comments just before `end`, or
/// `None` when they reach the start of the text.
pub fn back_white_space_and_comments_distance(bytes: &[u8], end: usize) -> (r: Option<usize>)
    requires
        end <= bytes@.len(),
    ensures
        r matches Some(d) ==> d < end && !is_white_space_byte(bytes@[end - 1 - d]),
        end == 0 ==> r is None,
        end > 0 && !is_white_space_byte(bytes@[end - 1]) && bytes@[end - 1] != 47 ==> r == Some(0usize),
{
    let mut k: usize = 0;
    loop
        invariant
            end <= bytes@.len(),
            k <= end,
            end > 0 && !is_white_space_byte(bytes@[end - 1]) && bytes@[end - 1] != 47 ==> k == 0,
        decreases end - k,
    {
        k = back_skip_comment(bytes, end, k)?;
        let c = back_at(bytes, end, k)?;
        if white_space_byte(c) {
            k = back_skip_space(bytes, end, k)?;
        } else {
            return Some(k);
        }
    }
}

/// A `(`, `,`, `;` or `}`: a byte after which a selector starts afresh.
pub open spec fn is_opening_byte(b: u8) -> bool {
    b == 40 || b == 44 || b == 59 || b == 125
}

/// Whether a `:global`/`:local` that starts at `end` should be followed by white
/// space: it is preceded by white space, by a `(`, `,`, `;` or `}`, or by nothing.
pub fn should_have_after_white_space(bytes: &[u8], end: usize) -> (r: bool)
    requires
        end <= bytes@.len(),
    ensures
        end == 0 ==> r,
        end > 0 && is_opening_byte(bytes@[end - 1]) ==> r,
        end > 0 && !is_white_space_byte(bytes@[end - 1]) && bytes@[end - 1] != 47 && !is_opening_byte(
            bytes@[end - 1],
        ) ==> !r,
{
    let mut has_white_space = false;
    let mut k: usize = 0;
    loop
        invariant
            end <= bytes@.len(),
            k <= end,
            end > 0 && !is_white_space_byte(bytes@[end - 1]) && bytes@[end - 1] != 47 ==> k == 0
                && !has_white_space,
        decreases end - k,
    {
        match back_skip_comment(bytes, end, k) {
            Some(k2) => k = k2,
            None => return true,
        }
        let c = match back_at(bytes, end, k) {
            Some(c) => c,
            None => return true,
        };
        if white_space_byte(c) {
            has_white_space = true;
            match back_skip_space(bytes, end, k) {
                Some(k2) => k = k2,
                None => return true,
            }
        } else {
            if c == 40 || c == 44 || c == 59 || c == 125 {
                return true;
            }
            return has_white_space;
        }
    }
}

} // verus!

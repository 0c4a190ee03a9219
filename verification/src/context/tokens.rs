//! Approximate token estimation: about four characters per token, with a
//! floor of one token.

use vstd::prelude::*;
use crate::text::chars_of;

verus! {

/// `ceil(n / 4)`, and at least one.
pub open spec fn tokens_for(n: int) -> int {
    if n <= 0 {
        1
    } else {
        (n + 3) / 4
    }
}

/// Approximate tokens from a character count.
pub fn estimate_tokens_from_chars(chars: usize) -> (r: usize)
    ensures
        r == tokens_for(chars as int),
{
    if chars == 0 {
        1
    } else {
        chars / 4 + if chars % 4 != 0 { 1 } else { 0 }
    }
}

/// Approximate the number of tokens in `text`.
pub fn estimate_tokens(text: &str) -> (r: usize)
    ensures
        r == tokens_for(text@.len() as int),
{
    let chars = chars_of(text);
    estimate_tokens_from_chars(chars.len())
}

/// Approximate tokens for a byte count, assuming roughly one character per
/// byte (a count beyond `usize::MAX` is read as `usize::MAX`).
pub fn estimate_tokens_from_bytes(bytes: u64) -> (r: usize)
    ensures
        bytes <= usize::MAX ==> r == tokens_for(bytes as int),
        bytes > usize::MAX ==> r == tokens_for(usize::MAX as int),
{
    let chars: usize = if bytes <= usize::MAX as u64 {
        bytes as usize
    } else {
        usize::MAX
    };
    estimate_tokens_from_chars(chars)
}

} // verus!

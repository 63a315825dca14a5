//! Byte classes, as the two validators of each name read them: through
//! winnow's `AsChar` for the parser and through std's ASCII tests for the
//! byte-by-byte check.
use vstd::prelude::*;

use winnow::stream::AsChar;

use crate::rules::{is_ascii_digit, is_ascii_letter};

verus! {

/// Calls winnow's `<u8 as AsChar>::is_alpha`, which its source defines as
/// `matches!(self, 0x41..=0x5A | 0x61..=0x7A)`: trusted to return whether `b`
/// is an ASCII letter.
#[verifier::external_body]
pub(crate) fn winnow_is_alpha(b: u8) -> (r: bool)
    ensures
        r == is_ascii_letter(b),
{
    AsChar::is_alpha(b)
}

/// Calls winnow's `<u8 as AsChar>::is_alphanum`, which its source defines as
/// `is_alpha() || is_dec_digit()`, the latter `matches!(self, 0x30..=0x39)`:
/// trusted to return whether `b` is an ASCII letter or decimal digit.
#[verifier::external_body]
pub(crate) fn winnow_is_alphanum(b: u8) -> (r: bool)
    ensures
        r == (is_ascii_letter(b) || is_ascii_digit(b)),
{
    AsChar::is_alphanum(b)
}

/// Calls std's `u8::is_ascii_alphanumeric`, documented to hold of
/// `A..=Z`, `a..=z` and `0..=9`: trusted to return exactly that.
#[verifier::external_body]
pub(crate) fn ascii_alphanumeric(b: u8) -> (r: bool)
    ensures
        r == (is_ascii_letter(b) || is_ascii_digit(b)),
{
    b.is_ascii_alphanumeric()
}

/// Calls std's `u8::is_ascii_alphabetic`, documented to hold of `A..=Z` and
/// `a..=z`: trusted to return exactly that.
#[verifier::external_body]
pub(crate) fn ascii_alphabetic(b: u8) -> (r: bool)
    ensures
        r == is_ascii_letter(b),
{
    b.is_ascii_alphabetic()
}

} // verus!

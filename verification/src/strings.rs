//! Text helpers over `str` and `String` that the standard library provides.

use vstd::prelude::*;
use vstd::utf8::decode_utf8;
use vstd::utf8::is_scalar;
use vstd::utf8::valid_utf8;

verus! {

/// Calls `str::eq`: two string slices are equal exactly when they hold the same characters.
#[verifier::external_body]
pub(crate) fn same_text(a: &str, b: &str) -> (same: bool)
    ensures
        same == (a@ == b@),
{
    a == b
}

/// Calls `String::from_utf8`: the text that `bytes` encode, where they are well-formed
/// UTF-8, and nothing where they are not.
#[verifier::external_body]
pub(crate) fn text_from_utf8(bytes: Vec<u8>) -> (text: Option<String>)
    ensures
        match text {
            Some(s) => valid_utf8(bytes@) && s@ == decode_utf8(bytes@),
            None => !valid_utf8(bytes@),
        },
{
    String::from_utf8(bytes).ok()
}

/// Calls `String::push`, which appends one character.
#[verifier::external_body]
pub(crate) fn push_char(text: &mut String, c: char)
    ensures
        final(text)@ == old(text)@.push(c),
{
    text.push(c);
}

/// Calls `char::from_u32`: the character with this scalar value, where there is one.
#[verifier::external_body]
pub(crate) fn char_of_scalar(scalar: u32) -> (c: Option<char>)
    ensures
        match c {
            Some(c) => is_scalar(scalar) && c as u32 == scalar,
            None => !is_scalar(scalar),
        },
{
    char::from_u32(scalar)
}

} // verus!

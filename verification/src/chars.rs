//! Character classes of the grammar.
//!
//! The grammar is Unicode-aware: identifiers may use any alphabetic or
//! numeric character, not only ASCII. For ASCII the classes are spelled out
//! below; beyond ASCII they are named after the Unicode properties that the
//! standard library's `char` methods decide.

use vstd::prelude::*;

verus! {

/// The abstraction token: the lowercase Greek letter lambda.
pub const LAMBDA: char = '\u{03bb}';

/// Whether a non-ASCII character has the Unicode `Alphabetic` property,
/// as `char::is_alphabetic` decides it.
pub uninterp spec fn unicode_alphabetic(c: char) -> bool;

/// Whether a non-ASCII character is numeric in the Unicode sense,
/// as `char::is_numeric` decides it.
pub uninterp spec fn unicode_numeric(c: char) -> bool;

/// Whether a non-ASCII character has the Unicode `White_Space` property,
/// as `char::is_whitespace` decides it.
pub uninterp spec fn unicode_whitespace(c: char) -> bool;

/// An alphabetic character: an ASCII letter, or a non-ASCII character with
/// the Unicode `Alphabetic` property.
pub open spec fn is_alpha(c: char) -> bool {
    if (c as u32) < 128 {
        (97 <= c as u32 && c as u32 <= 122) || (65 <= c as u32 && c as u32 <= 90)
    } else {
        unicode_alphabetic(c)
    }
}

/// A numeric character: an ASCII digit, or a non-ASCII character that is
/// numeric in the Unicode sense. The lambda symbol, a Greek letter, is not
/// numeric.
pub open spec fn is_numeric(c: char) -> bool {
    if c == LAMBDA {
        false
    } else if (c as u32) < 128 {
        48 <= c as u32 && c as u32 <= 57
    } else {
        unicode_numeric(c)
    }
}

/// A whitespace character: one of the six ASCII whitespace characters, or a
/// non-ASCII character with the Unicode `White_Space` property. The lambda
/// symbol, a Greek letter, is not whitespace: the grammar depends on that,
/// since whitespace is skipped before the abstraction token is looked for.
pub open spec fn is_ws(c: char) -> bool {
    if c == LAMBDA {
        false
    } else if (c as u32) < 128 {
        c == ' ' || (9 <= c as u32 && c as u32 <= 13)
    } else {
        unicode_whitespace(c)
    }
}

/// A character that may begin an identifier: alphabetic, except the lambda
/// symbol itself, which is always read as the abstraction token.
pub open spec fn is_ident_start(c: char) -> bool {
    c != LAMBDA && is_alpha(c)
}

/// A character that may continue an identifier: alphabetic, numeric or an
/// underscore, except the lambda symbol.
pub open spec fn is_ident_char(c: char) -> bool {
    c != LAMBDA && (is_alpha(c) || is_numeric(c) || c == '_')
}

/// Relies on `char::is_alphabetic`: it decides the Unicode `Alphabetic`
/// property, which among ASCII characters holds of exactly the letters.
#[verifier::external_body]
pub(crate) fn char_is_alphabetic(c: char) -> (r: bool)
    ensures
        r == is_alpha(c),
        (c as u32) >= 128 ==> r == unicode_alphabetic(c),
{
    c.is_alphabetic()
}

/// Relies on `char::is_numeric`: it decides whether a character is numeric
/// in the Unicode sense, which among ASCII characters holds of exactly the
/// digits, and does not hold of the lambda symbol, a Greek letter.
#[verifier::external_body]
pub(crate) fn char_is_numeric(c: char) -> (r: bool)
    ensures
        r == is_numeric(c),
        (c as u32) >= 128 ==> r == unicode_numeric(c),
{
    c.is_numeric()
}

/// Relies on `char::is_whitespace`: it decides the Unicode `White_Space`
/// property, which among ASCII characters holds of exactly the space and the
/// five control characters from tab to carriage return, and does not hold of
/// the lambda symbol, a Greek letter.
#[verifier::external_body]
pub(crate) fn char_is_whitespace(c: char) -> (r: bool)
    ensures
        r == is_ws(c),
        (c as u32) >= 128 ==> r == unicode_whitespace(c),
{
    c.is_whitespace()
}

/// Whether `c` may begin an identifier.
pub(crate) fn ident_start(c: char) -> (r: bool)
    ensures
        r == is_ident_start(c),
{
    c != LAMBDA && char_is_alphabetic(c)
}

/// Whether `c` may continue an identifier.
pub(crate) fn ident_char(c: char) -> (r: bool)
    ensures
        r == is_ident_char(c),
{
    c != LAMBDA && (char_is_alphabetic(c) || char_is_numeric(c) || c == '_')
}

/// Relies on `str::chars`: it yields exactly the characters of the string,
/// in order.
#[verifier::external_body]
pub(crate) fn chars_of(s: &str) -> (r: Vec<char>)
    ensures
        r@ == s@,
{
    s.chars().collect()
}

/// Relies on `String::push`: it appends the one character to the string.
#[verifier::external_body]
pub(crate) fn push_char(s: &mut String, c: char)
    ensures
        final(s)@ == old(s)@.push(c),
{
    s.push(c)
}

} // verus!

//! The character classes that the scanner tells apart.

use vstd::prelude::*;

verus! {

/// Whether `c`, a character beyond ASCII, has the Unicode property
/// `Alphabetic`, as the standard library's tables hold it.
pub uninterp spec fn unicode_alphabetic(c: char) -> bool;

/// Whether `c`, a character beyond ASCII, is in one of the Unicode general
/// categories for numbers (`Nd`, `Nl`, `No`), as the standard library's
/// tables hold it.
pub uninterp spec fn unicode_numeric(c: char) -> bool;

/// A Latin letter of ASCII.
pub open spec fn is_ascii_letter(c: char) -> bool {
    ('a' <= c && c <= 'z') || ('A' <= c && c <= 'Z')
}

/// One of the digits `0` to `9`.
pub open spec fn is_decimal_digit(c: char) -> bool {
    '0' <= c && c <= '9'
}

/// A space, a tab, a carriage return or a line feed.
pub open spec fn is_blank(c: char) -> bool {
    c == ' ' || c == '\t' || c == '\r' || c == '\n'
}

/// Alphabetic in the sense of Unicode: within ASCII the Latin letters, beyond
/// it whatever has the property `Alphabetic`.
pub open spec fn is_alphabetic(c: char) -> bool {
    if c <= '\u{7f}' {
        is_ascii_letter(c)
    } else {
        unicode_alphabetic(c)
    }
}

/// Numeric in the sense of Unicode: within ASCII the decimal digits, beyond
/// it whatever is in a general category for numbers.
pub open spec fn is_numeric(c: char) -> bool {
    if c <= '\u{7f}' {
        is_decimal_digit(c)
    } else {
        unicode_numeric(c)
    }
}

/// An identifier starts with an alphabetic character.
pub open spec fn starts_identifier(c: char) -> bool {
    is_alphabetic(c)
}

/// An identifier goes on with alphabetic and numeric characters.
pub open spec fn continues_identifier(c: char) -> bool {
    is_alphabetic(c) || is_numeric(c)
}

/// `char::is_alphabetic` of the standard library. Not proved: that it
/// answers by the Unicode property `Alphabetic`, which within ASCII holds of
/// the letters `a` to `z` and `A` to `Z` and of nothing else, and beyond ASCII
/// is a fixed property of the character.
pub assume_specification[ char::is_alphabetic ](c: char) -> (b: bool)
    ensures
        b == if c <= '\u{7f}' {
            is_ascii_letter(c)
        } else {
            unicode_alphabetic(c)
        },
;

/// `char::is_numeric` of the standard library. Not proved: that it answers
/// by the Unicode general categories for numbers, which within ASCII hold the
/// digits `0` to `9` and nothing else, and beyond ASCII are a fixed property
/// of the character.
pub assume_specification[ char::is_numeric ](c: char) -> (b: bool)
    ensures
        b == if c <= '\u{7f}' {
            is_decimal_digit(c)
        } else {
            unicode_numeric(c)
        },
;

/// Whether an identifier can start with `c`.
pub(crate) fn can_start_identifier(c: char) -> (b: bool)
    ensures
        b == starts_identifier(c),
{
    c.is_alphabetic()
}

/// Whether an identifier can go on with `c`.
pub(crate) fn can_continue_identifier(c: char) -> (b: bool)
    ensures
        b == continues_identifier(c),
{
    c.is_alphabetic() || c.is_numeric()
}

/// Whether `c` is one of the digits `0` to `9`.
pub(crate) fn is_digit(c: char) -> (b: bool)
    ensures
        b == is_decimal_digit(c),
{
    '0' <= c && c <= '9'
}

/// Whether `c` is a space, a tab, a carriage return or a line feed.
pub(crate) fn is_space(c: char) -> (b: bool)
    ensures
        b == is_blank(c),
{
    c == ' ' || c == '\t' || c == '\r' || c == '\n'
}

} // verus!

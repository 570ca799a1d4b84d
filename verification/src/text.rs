//! Characters and strings: the classes of characters that the scanner tells
//! apart, and the one string operation the library adds to those of `vstd`.

use vstd::prelude::*;

verus! {

/// Whether a character has the Unicode property White_Space.
pub uninterp spec fn char_is_whitespace(c: char) -> bool;

/// Whether a character has the Unicode property Alphabetic.
pub uninterp spec fn char_is_alphabetic(c: char) -> bool;

/// Whether a character is in one of the Unicode number categories Nd, Nl, No.
pub uninterp spec fn char_is_numeric(c: char) -> bool;

/// `char::is_whitespace` of the standard library. It tells whether the
/// character has the property White_Space; among the ASCII characters those
/// are the space and the five controls from tab to carriage return.
pub assume_specification[ char::is_whitespace ](c: char) -> (r: bool)
    ensures
        r == char_is_whitespace(c),
        c <= '\x7f' ==> r == (c == ' ' || ('\x09' <= c && c <= '\x0d')),
;

/// `char::is_alphabetic` of the standard library. It tells whether the
/// character has the property Alphabetic; among the ASCII characters those
/// are the fifty-two letters.
pub assume_specification[ char::is_alphabetic ](c: char) -> (r: bool)
    ensures
        r == char_is_alphabetic(c),
        c <= '\x7f' ==> r == (('a' <= c && c <= 'z') || ('A' <= c && c <= 'Z')),
;

/// `char::is_alphanumeric` of the standard library: true of the characters
/// that are alphabetic or numeric; among the ASCII characters those are the
/// letters and the ten digits.
pub assume_specification[ char::is_alphanumeric ](c: char) -> (r: bool)
    ensures
        r == (char_is_alphabetic(c) || char_is_numeric(c)),
        c <= '\x7f' ==> r == (('a' <= c && c <= 'z') || ('A' <= c && c <= 'Z') || ('0' <= c && c
            <= '9')),
;

/// `String::push` of the standard library: appends one character.
pub assume_specification[ std::string::String::push ](s: &mut std::string::String, c: char)
    ensures
        final(s)@ == old(s)@.push(c),
;

/// `c` is a blank: white space in the sense of Unicode.
pub open spec fn is_blank(c: char) -> bool {
    if c <= '\x7f' {
        c == ' ' || ('\x09' <= c && c <= '\x0d')
    } else {
        char_is_whitespace(c)
    }
}

/// `c` is a letter: alphabetic in the sense of Unicode.
pub open spec fn is_letter(c: char) -> bool {
    if c <= '\x7f' {
        ('a' <= c && c <= 'z') || ('A' <= c && c <= 'Z')
    } else {
        char_is_alphabetic(c)
    }
}

/// `c` is a letter or a numeral, in the sense of Unicode.
pub open spec fn is_letter_or_numeral(c: char) -> bool {
    if c <= '\x7f' {
        ('a' <= c && c <= 'z') || ('A' <= c && c <= 'Z') || ('0' <= c && c <= '9')
    } else {
        char_is_alphabetic(c) || char_is_numeric(c)
    }
}

/// Whether `c` is a blank.
pub fn blank(c: char) -> (r: bool)
    ensures
        r == is_blank(c),
{
    c.is_whitespace()
}

/// Whether `c` is a letter.
pub fn letter(c: char) -> (r: bool)
    ensures
        r == is_letter(c),
{
    c.is_alphabetic()
}

/// Whether `c` is a letter or a numeral.
pub fn letter_or_numeral(c: char) -> (r: bool)
    ensures
        r == is_letter_or_numeral(c),
{
    c.is_alphanumeric()
}

} // verus!

//! Character and case facts taken from the standard library.

use vstd::prelude::*;
use vstd::utf8::is_ascii_chars;

verus! {

/// The lowercase form that `str::to_lowercase` gives a text.
pub uninterp spec fn lowercase(text: Seq<char>) -> Seq<char>;

/// The uppercase form that `str::to_uppercase` gives a text.
pub uninterp spec fn uppercase(text: Seq<char>) -> Seq<char>;

/// Whether `char::is_numeric` counts a character as a number.
pub uninterp spec fn unicode_numeric(c: char) -> bool;

/// The lowercase form of an ASCII letter; any other character as it is.
pub open spec fn ascii_lower(c: char) -> char {
    if 'A' <= c <= 'Z' {
        (c as u32 + 32) as char
    } else {
        c
    }
}

/// The uppercase form of an ASCII letter; any other character as it is.
pub open spec fn ascii_upper(c: char) -> char {
    if 'a' <= c <= 'z' {
        (c as u32 - 32) as char
    } else {
        c
    }
}

/// The lowercase form of a text, letter by letter where the text is ASCII.
pub open spec fn lower(text: Seq<char>) -> Seq<char> {
    if is_ascii_chars(text) {
        text.map_values(|c: char| ascii_lower(c))
    } else {
        lowercase(text)
    }
}

/// The uppercase form of a text, letter by letter where the text is ASCII.
pub open spec fn upper(text: Seq<char>) -> Seq<char> {
    if is_ascii_chars(text) {
        text.map_values(|c: char| ascii_upper(c))
    } else {
        uppercase(text)
    }
}

/// Whether a character is an ASCII digit.
pub open spec fn is_digit(c: char) -> bool {
    '0' <= c <= '9'
}

/// Whether a character counts as a number: among the ASCII characters, the digits.
pub open spec fn numeric_char(c: char) -> bool {
    if (c as u32) < 128 {
        is_digit(c)
    } else {
        unicode_numeric(c)
    }
}

/// `str::to_lowercase` is a function of the text alone, and on ASCII text it
/// maps `A` to `Z` onto `a` to `z` and keeps every other character.
pub assume_specification[ str::to_lowercase ](text: &str) -> (result: String)
    ensures
        result@ == lowercase(text@),
        is_ascii_chars(text@) ==> result@ == text@.map_values(|c: char| ascii_lower(c)),
;

/// `str::to_uppercase` is a function of the text alone, and on ASCII text it
/// maps `a` to `z` onto `A` to `Z` and keeps every other character.
pub assume_specification[ str::to_uppercase ](text: &str) -> (result: String)
    ensures
        result@ == uppercase(text@),
        is_ascii_chars(text@) ==> result@ == text@.map_values(|c: char| ascii_upper(c)),
;

/// `char::is_numeric` is a function of the character alone, and among the ASCII
/// characters it holds of the ten digits only.
pub assume_specification[ char::is_numeric ](c: char) -> (result: bool)
    ensures
        result == unicode_numeric(c),
        (c as u32) < 128 ==> result == is_digit(c),
;

/// `String::push` appends one character.
pub assume_specification[ String::push ](text: &mut String, c: char)
    ensures
        final(text)@ == old(text)@.push(c),
;

/// The lowercase form of a text.
pub fn to_lower(text: &str) -> (result: String)
    ensures
        result@ == lower(text@),
{
    text.to_lowercase()
}

/// The uppercase form of a text.
pub fn to_upper(text: &str) -> (result: String)
    ensures
        result@ == upper(text@),
{
    text.to_uppercase()
}

/// Whether a character counts as a number.
pub fn numeric(c: char) -> (result: bool)
    ensures
        result == numeric_char(c),
{
    c.is_numeric()
}

/// The lowercase form of an ASCII letter; any other character as it is.
pub fn lower_ascii(c: char) -> (result: char)
    ensures
        result == ascii_lower(c),
{
    if 'A' <= c && c <= 'Z' {
        (c as u8 + 32) as char
    } else {
        c
    }
}

/// A text with its ASCII letters in lowercase.
pub open spec fn folded(s: Seq<char>) -> Seq<char> {
    s.map_values(|c: char| ascii_lower(c))
}

/// Whether a character is an ASCII letter.
pub open spec fn is_letter(c: char) -> bool {
    'a' <= c <= 'z' || 'A' <= c <= 'Z'
}

/// Whether a character is an ASCII letter.
pub fn letter(c: char) -> (result: bool)
    ensures
        result == is_letter(c),
{
    ('a' <= c && c <= 'z') || ('A' <= c && c <= 'Z')
}

} // verus!

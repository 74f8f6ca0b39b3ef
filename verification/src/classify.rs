//! Character classification used by the scanner: whitespace, alphabetic
//! characters and ASCII digits.
//!
//! ASCII behaviour is stated exactly; for characters outside ASCII the two
//! Unicode properties are kept abstract, as names for what the standard
//! library's classification functions return.

use vstd::prelude::*;

verus! {

/// Whether `c` lies in the ASCII range.
pub open spec fn is_ascii_range(c: char) -> bool {
    (c as u32) < 128
}

/// The Unicode `White_Space` property of a character outside ASCII.
pub uninterp spec fn unicode_whitespace(c: char) -> bool;

/// The Unicode `Alphabetic` property of a character outside ASCII.
pub uninterp spec fn unicode_alphabetic(c: char) -> bool;

/// Whether `c` is an ASCII digit, `'0'` through `'9'`.
pub open spec fn digit_char(c: char) -> bool {
    48 <= (c as u32) && (c as u32) <= 57
}

/// Whether `c` is alphabetic: an ASCII letter, or a non-ASCII character
/// with the Unicode `Alphabetic` property.
pub open spec fn alpha_char(c: char) -> bool {
    if is_ascii_range(c) {
        (97 <= (c as u32) && (c as u32) <= 122) || (65 <= (c as u32) && (c as u32) <= 90)
    } else {
        unicode_alphabetic(c)
    }
}

/// Whether `c` is whitespace: within ASCII exactly tab, line feed, vertical
/// tab, form feed, carriage return and space; outside ASCII the Unicode
/// `White_Space` property, which no alphabetic character has.
pub open spec fn ws_char(c: char) -> bool {
    if is_ascii_range(c) {
        (9 <= (c as u32) && (c as u32) <= 13) || c == ' '
    } else {
        unicode_whitespace(c) && !alpha_char(c)
    }
}

/// Relies on char::is_whitespace: the Unicode `White_Space` property, whose
/// ASCII members are exactly tab, line feed, vertical tab, form feed,
/// carriage return and space, and which is disjoint from `Alphabetic`.
pub assume_specification[ char::is_whitespace ](c: char) -> (r: bool)
    ensures
        r == ws_char(c),
        !is_ascii_range(c) ==> r == (unicode_whitespace(c) && !alpha_char(c)),
;

/// Relies on char::is_alphabetic: the Unicode `Alphabetic` property, whose
/// ASCII members are exactly the letters `a`-`z` and `A`-`Z`.
pub assume_specification[ char::is_alphabetic ](c: char) -> (r: bool)
    ensures
        r == alpha_char(c),
        !is_ascii_range(c) ==> r == unicode_alphabetic(c),
;

/// Relies on char::is_ascii_digit: true exactly of `'0'` through `'9'`.
pub assume_specification[ char::is_ascii_digit ](c: &char) -> (r: bool)
    ensures
        r == digit_char(*c),
;

} // verus!

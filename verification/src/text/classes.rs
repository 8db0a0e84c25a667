//! Character classes.
//!
//! The classes of the ASCII range are spelled out here. Beyond it they are
//! those of the Unicode tables that the standard library carries; each of these
//! tables gets a name, and nothing more is said of it.

use vstd::prelude::*;

verus! {

/// Whether `char::is_alphabetic` holds of a character beyond the ASCII range:
/// the Unicode property `Alphabetic`.
pub uninterp spec fn unicode_alphabetic(c: char) -> bool;

/// Whether `char::is_numeric` holds of a character beyond the ASCII range:
/// the Unicode general categories `Nd`, `Nl` and `No`.
pub uninterp spec fn unicode_numeric(c: char) -> bool;

/// Whether `char::is_whitespace` holds of a character beyond the ASCII range:
/// the Unicode property `White_Space`.
pub uninterp spec fn unicode_whitespace(c: char) -> bool;

/// The characters up to `U+007F`.
pub open spec fn ascii(c: char) -> bool {
    c <= '\x7f'
}

/// The decimal digits `0` to `9`.
pub open spec fn ascii_digit(c: char) -> bool {
    '0' <= c && c <= '9'
}

/// The letters `a` to `z` and `A` to `Z`.
pub open spec fn ascii_letter(c: char) -> bool {
    ('a' <= c && c <= 'z') || ('A' <= c && c <= 'Z')
}

/// The space, the tab, the line feed, the vertical tab, the form feed and
/// the carriage return.
pub open spec fn ascii_blank(c: char) -> bool {
    c == ' ' || ('\x09' <= c && c <= '\x0d')
}

/// The letters.
pub open spec fn alphabetic(c: char) -> bool {
    if ascii(c) {
        ascii_letter(c)
    } else {
        unicode_alphabetic(c)
    }
}

/// The digits and the other characters that stand for a number.
pub open spec fn numeric(c: char) -> bool {
    if ascii(c) {
        ascii_digit(c)
    } else {
        unicode_numeric(c)
    }
}

/// The letters and the numeric characters.
pub open spec fn alphanumeric(c: char) -> bool {
    alphabetic(c) || numeric(c)
}

/// The characters that are blank space.
pub open spec fn whitespace(c: char) -> bool {
    if ascii(c) {
        ascii_blank(c)
    } else {
        unicode_whitespace(c)
    }
}

/// `char::is_alphabetic`: in the ASCII range exactly the letters `a` to `z` and
/// `A` to `Z`; beyond it, the characters with the Unicode property `Alphabetic`.
pub assume_specification[ char::is_alphabetic ](c: char) -> (b: bool)
    ensures
        b == if ascii(c) {
            ascii_letter(c)
        } else {
            unicode_alphabetic(c)
        },
;

/// `char::is_numeric`: in the ASCII range exactly the digits `0` to `9`; beyond
/// it, the characters of the Unicode general categories for numbers.
pub assume_specification[ char::is_numeric ](c: char) -> (b: bool)
    ensures
        b == if ascii(c) {
            ascii_digit(c)
        } else {
            unicode_numeric(c)
        },
;

/// `char::is_alphanumeric`: the characters of which `char::is_alphabetic` or
/// `char::is_numeric` holds.
pub assume_specification[ char::is_alphanumeric ](c: char) -> (b: bool)
    ensures
        b == (alphabetic(c) || numeric(c)),
;

/// `char::is_whitespace`: in the ASCII range the space and the five controls
/// from the tab to the carriage return; beyond it, the characters with the
/// Unicode property `White_Space`.
pub assume_specification[ char::is_whitespace ](c: char) -> (b: bool)
    ensures
        b == if ascii(c) {
            ascii_blank(c)
        } else {
            unicode_whitespace(c)
        },
;

/// `char::is_ascii_digit`: the digits `0` to `9`.
pub assume_specification[ char::is_ascii_digit ](c: &char) -> (b: bool)
    ensures
        b == ascii_digit(*c),
;

} // verus!

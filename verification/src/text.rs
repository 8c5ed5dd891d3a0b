//! Small helpers for building and reading text.

use vstd::prelude::*;

verus! {

/// `String::push` appends one character to the end of the string.
pub assume_specification[ String::push ](s: &mut String, c: char)
    ensures
        final(s)@ == old(s)@.push(c),
;

/// The decimal digit for a value below ten.
pub open spec fn digit_char(d: u8) -> char {
    (d + 48) as char
}

/// The lower-case letter `a` + `d`.
pub open spec fn letter_char(d: u8) -> char {
    (d + 97) as char
}

pub fn digit(d: u8) -> (c: char)
    requires
        d < 10,
    ensures
        c == digit_char(d),
{
    (d + 48) as char
}

pub fn letter(d: u8) -> (c: char)
    requires
        d < 26,
    ensures
        c == letter_char(d),
{
    (d + 97) as char
}

} // verus!

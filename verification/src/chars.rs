//! Character classes of the URL grammar.

use vstd::prelude::*;

verus! {

/// The sets of characters that a run of the grammar is made of.
#[derive(Clone, Copy, Debug, PartialEq, Eq)]
pub enum CharClass {
    /// ASCII letters.
    Alpha,
    /// ASCII decimal digits.
    Digit,
    /// ASCII letters, ASCII digits and `-`: the characters of a host label.
    Label,
    /// Everything but `/`, `?` and `#`: the characters of a path segment.
    Segment,
    /// Everything but `=`, `&` and `#`: the characters of a query key or value.
    Pair,
    /// Every character: the characters of a fragment.
    Any,
}

/// An ASCII capital letter.
pub open spec fn is_upper(c: char) -> bool {
    'A' <= c <= 'Z'
}

/// An ASCII small letter.
pub open spec fn is_lower(c: char) -> bool {
    'a' <= c <= 'z'
}

/// An ASCII letter.
pub open spec fn is_alpha(c: char) -> bool {
    is_upper(c) || is_lower(c)
}

/// An ASCII decimal digit.
pub open spec fn is_digit(c: char) -> bool {
    '0' <= c <= '9'
}

/// The value of a decimal digit.
pub open spec fn digit_value(c: char) -> nat
    recommends
        is_digit(c),
{
    (c as u32 - '0' as u32) as nat
}

/// The lower-case form of an ASCII letter; any other character is left alone.
pub open spec fn fold(c: char) -> char {
    if is_upper(c) {
        ((c as u32) + 32) as char
    } else {
        c
    }
}

impl CharClass {
    /// The characters of the class.
    pub open spec fn contains(self, c: char) -> bool {
        match self {
            CharClass::Alpha => is_alpha(c),
            CharClass::Digit => is_digit(c),
            CharClass::Label => is_alpha(c) || is_digit(c) || c == '-',
            CharClass::Segment => c != '/' && c != '?' && c != '#',
            CharClass::Pair => c != '=' && c != '&' && c != '#',
            CharClass::Any => true,
        }
    }

    /// Whether `c` belongs to the class.
    pub fn holds(self, c: char) -> (r: bool)
        ensures
            r == self.contains(c),
    {
        let letter = ('A' <= c && c <= 'Z') || ('a' <= c && c <= 'z');
        let digit = '0' <= c && c <= '9';
        match self {
            CharClass::Alpha => letter,
            CharClass::Digit => digit,
            CharClass::Label => letter || digit || c == '-',
            CharClass::Segment => c != '/' && c != '?' && c != '#',
            CharClass::Pair => c != '=' && c != '&' && c != '#',
            CharClass::Any => true,
        }
    }

    /// Whether `c` ends a run of the class.
    pub fn excludes(self, c: char) -> (r: bool)
        ensures
            r == !self.contains(c),
    {
        !self.holds(c)
    }
}

/// The value of the decimal digit `c`.
pub fn digit_of(c: char) -> (d: u8)
    requires
        is_digit(c),
    ensures
        d == digit_value(c),
        d <= 9,
{
    let code: u32 = c as u32;
    let d: u32 = code - 48;
    d as u8
}

} // verus!

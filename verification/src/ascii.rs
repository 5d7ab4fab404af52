//! Character classes of identifiers and the simple ASCII case mapping.
use vstd::prelude::*;
use crate::types::Tr;

verus! {

pub open spec fn is_upper(c: char) -> bool {
    'A' <= c <= 'Z'
}

pub open spec fn is_lower(c: char) -> bool {
    'a' <= c <= 'z'
}

pub open spec fn is_digit(c: char) -> bool {
    '0' <= c <= '9'
}

pub open spec fn is_letter(c: char) -> bool {
    is_upper(c) || is_lower(c)
}

/// The characters an identifier is made of.
pub open spec fn is_ident_char(c: char) -> bool {
    is_letter(c) || is_digit(c) || c == '_'
}

/// `a`..`z` go to `A`..`Z`; every other character stays.
pub open spec fn upper_of(c: char) -> char {
    if is_lower(c) {
        ((c as int) - 32) as char
    } else {
        c
    }
}

/// `A`..`Z` go to `a`..`z`; every other character stays.
pub open spec fn lower_of(c: char) -> char {
    if is_upper(c) {
        ((c as int) + 32) as char
    } else {
        c
    }
}

/// The character that a case action makes of `c`.
pub open spec fn recase(tr: Tr, c: char) -> char {
    match tr {
        Tr::Upper => upper_of(c),
        Tr::Lower => lower_of(c),
        Tr::Keep => c,
    }
}

/// The class of a character, as the word scan tells them apart.
#[derive(Clone, Copy, Debug, PartialEq, Eq, Structural)]
pub enum CharClass {
    Underscore,
    Upper,
    Lower,
    Digit,
    Other,
}

pub open spec fn class_of(c: char) -> CharClass {
    if c == '_' {
        CharClass::Underscore
    } else if is_upper(c) {
        CharClass::Upper
    } else if is_lower(c) {
        CharClass::Lower
    } else if is_digit(c) {
        CharClass::Digit
    } else {
        CharClass::Other
    }
}

pub fn classify(c: char) -> (k: CharClass)
    ensures
        k == class_of(c),
{
    if c == '_' {
        CharClass::Underscore
    } else if 'A' <= c && c <= 'Z' {
        CharClass::Upper
    } else if 'a' <= c && c <= 'z' {
        CharClass::Lower
    } else if '0' <= c && c <= '9' {
        CharClass::Digit
    } else {
        CharClass::Other
    }
}

pub fn to_upper(c: char) -> (r: char)
    ensures
        r == upper_of(c),
{
    if 'a' <= c && c <= 'z' {
        let b: u8 = c as u8;
        (b - 32) as char
    } else {
        c
    }
}

pub fn to_lower(c: char) -> (r: char)
    ensures
        r == lower_of(c),
{
    if 'A' <= c && c <= 'Z' {
        let b: u8 = c as u8;
        (b + 32) as char
    } else {
        c
    }
}

pub fn recase_char(tr: Tr, c: char) -> (r: char)
    ensures
        r == recase(tr, c),
{
    match tr {
        Tr::Upper => to_upper(c),
        Tr::Lower => to_lower(c),
        Tr::Keep => c,
    }
}

} // verus!

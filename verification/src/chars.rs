//! ASCII character classes used by the lexer.

use vstd::prelude::*;

verus! {

/// ASCII whitespace as `char::is_ascii_whitespace` defines it:
/// space, horizontal tab, line feed, form feed and carriage return.
pub open spec fn spec_is_ws(c: char) -> bool {
    c == ' ' || c == '\t' || c == '\n' || c == '\x0C' || c == '\r'
}

pub open spec fn spec_is_upper(c: char) -> bool {
    'A' <= c && c <= 'Z'
}

pub open spec fn spec_is_lower(c: char) -> bool {
    'a' <= c && c <= 'z'
}

pub open spec fn spec_is_digit(c: char) -> bool {
    '0' <= c && c <= '9'
}

pub fn is_ws(c: char) -> (b: bool)
    ensures
        b == spec_is_ws(c),
{
    c == ' ' || c == '\t' || c == '\n' || c == '\x0C' || c == '\r'
}

pub fn is_upper(c: char) -> (b: bool)
    ensures
        b == spec_is_upper(c),
{
    'A' <= c && c <= 'Z'
}

pub fn is_lower(c: char) -> (b: bool)
    ensures
        b == spec_is_lower(c),
{
    'a' <= c && c <= 'z'
}

pub fn is_digit(c: char) -> (b: bool)
    ensures
        b == spec_is_digit(c),
{
    '0' <= c && c <= '9'
}

} // verus!

use vstd::prelude::*;

verus! {

/// The end-of-input sentinel.
pub open spec fn spec_is_z(c: char) -> bool {
    c == '\0'
}

/// A character that ends a line.
pub open spec fn spec_is_break(c: char) -> bool {
    c == '\n' || c == '\r'
}

/// A character that ends a line, or the end of the text.
pub open spec fn spec_is_breakz(c: char) -> bool {
    spec_is_break(c) || spec_is_z(c)
}

/// A space or a tab.
pub open spec fn spec_is_blank(c: char) -> bool {
    c == ' ' || c == '\t'
}

/// A blank, a character that ends a line, or the end of the text.
pub open spec fn spec_is_blankz(c: char) -> bool {
    spec_is_blank(c) || spec_is_breakz(c)
}

/// A decimal digit.
pub open spec fn spec_is_digit(c: char) -> bool {
    '0' <= c <= '9'
}

/// Letters, digits, `_` and `-`: what a directive name or a tag handle is made of.
pub open spec fn spec_is_alpha(c: char) -> bool {
    ('0' <= c <= '9') || ('a' <= c <= 'z') || ('A' <= c <= 'Z') || c == '_' || c == '-'
}

/// A hexadecimal digit.
pub open spec fn spec_is_hex(c: char) -> bool {
    ('0' <= c <= '9') || ('a' <= c <= 'f') || ('A' <= c <= 'F')
}

/// The value of a hexadecimal digit.
pub open spec fn spec_as_hex(c: char) -> int {
    if '0' <= c <= '9' {
        c as int - '0' as int
    } else if 'a' <= c <= 'f' {
        c as int - 'a' as int + 10
    } else {
        c as int - 'A' as int + 10
    }
}

/// Whether `c` is the end-of-input sentinel.
#[verifier::when_used_as_spec(spec_is_z)]
pub fn is_z(c: char) -> (b: bool)
    ensures
        b == spec_is_z(c),
{
    c == '\0'
}

/// Whether `c` ends a line.
#[verifier::when_used_as_spec(spec_is_break)]
pub fn is_break(c: char) -> (b: bool)
    ensures
        b == spec_is_break(c),
{
    c == '\n' || c == '\r'
}

/// Whether `c` ends a line or the text.
#[verifier::when_used_as_spec(spec_is_breakz)]
pub fn is_breakz(c: char) -> (b: bool)
    ensures
        b == spec_is_breakz(c),
{
    is_break(c) || is_z(c)
}

/// Whether `c` is a space or a tab.
#[verifier::when_used_as_spec(spec_is_blank)]
pub fn is_blank(c: char) -> (b: bool)
    ensures
        b == spec_is_blank(c),
{
    c == ' ' || c == '\t'
}

/// Whether `c` is a blank, or ends a line or the text.
#[verifier::when_used_as_spec(spec_is_blankz)]
pub fn is_blankz(c: char) -> (b: bool)
    ensures
        b == spec_is_blankz(c),
{
    is_blank(c) || is_breakz(c)
}

/// Whether `c` is a decimal digit.
#[verifier::when_used_as_spec(spec_is_digit)]
pub fn is_digit(c: char) -> (b: bool)
    ensures
        b == spec_is_digit(c),
{
    c >= '0' && c <= '9'
}

/// Whether `c` is a letter, a digit, `_` or `-`.
#[verifier::when_used_as_spec(spec_is_alpha)]
pub fn is_alpha(c: char) -> (b: bool)
    ensures
        b == spec_is_alpha(c),
{
    (c >= '0' && c <= '9') || (c >= 'a' && c <= 'z') || (c >= 'A' && c <= 'Z') || c == '_' || c
        == '-'
}

/// Whether `c` is a hexadecimal digit.
#[verifier::when_used_as_spec(spec_is_hex)]
pub fn is_hex(c: char) -> (b: bool)
    ensures
        b == spec_is_hex(c),
{
    (c >= '0' && c <= '9') || (c >= 'a' && c <= 'f') || (c >= 'A' && c <= 'F')
}

/// The value of the hexadecimal digit `c`.
pub fn as_hex(c: char) -> (v: u32)
    requires
        spec_is_hex(c),
    ensures
        v == spec_as_hex(c),
        v < 16,
{
    if c >= '0' && c <= '9' {
        (c as u32) - ('0' as u32)
    } else if c >= 'a' && c <= 'f' {
        (c as u32) - ('a' as u32) + 10
    } else {
        (c as u32) - ('A' as u32) + 10
    }
}

/// The value of a decimal digit.
pub fn digit_value(c: char) -> (v: u32)
    requires
        spec_is_digit(c),
    ensures
        v == c as int - '0' as int,
        v < 10,
{
    (c as u32) - ('0' as u32)
}

} // verus!

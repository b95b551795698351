//! Character classes the scanner dispatches on, as spec predicates with
//! verified executable counterparts.

use vstd::prelude::*;

verus! {

/// Whitespace the driver skips between tokens: space, tab, line feed,
/// carriage return, vertical tab and form feed.
pub open spec fn is_ws_char(c: char) -> bool {
    c == ' ' || c == '\t' || c == '\n' || c == '\r' || c == '\u{b}' || c == '\u{c}'
}

/// A decimal digit.
pub open spec fn is_digit_char(c: char) -> bool {
    '0' <= c && c <= '9'
}

/// An ASCII letter.
pub open spec fn is_alpha_char(c: char) -> bool {
    ('a' <= c && c <= 'z') || ('A' <= c && c <= 'Z')
}

/// A character that may start an identifier: a letter or an underscore.
pub open spec fn is_ident_start_char(c: char) -> bool {
    is_alpha_char(c) || c == '_'
}

/// A character that may continue an identifier.
pub open spec fn is_ident_char(c: char) -> bool {
    is_alpha_char(c) || is_digit_char(c) || c == '_'
}

/// An opening bracket-family symbol.
pub open spec fn is_open_char(c: char) -> bool {
    c == '(' || c == '[' || c == '{'
}

/// A closing bracket-family symbol.
pub open spec fn is_close_char(c: char) -> bool {
    c == ')' || c == ']' || c == '}'
}

/// The opener a closing bracket must match.
pub open spec fn opener_for(c: char) -> char
    recommends
        is_close_char(c),
{
    if c == ')' {
        '('
    } else if c == ']' {
        '['
    } else {
        '{'
    }
}

/// A character that is an operator on its own.
pub open spec fn is_single_operator(c: char) -> bool {
    c == '+' || c == '-' || c == '*' || c == '/' || c == '%' || c == '!' || c == '=' || c == '<'
        || c == '>'
}

/// A two-character operator: compound assignment, increment and decrement,
/// comparison, and logical and/or.
pub open spec fn is_pair_operator(a: char, b: char) -> bool {
    (b == '=' && (a == '+' || a == '-' || a == '*' || a == '/' || a == '=' || a == '!' || a == '<'
        || a == '>')) || (a == '+' && b == '+') || (a == '-' && b == '-') || (a == '&' && b == '&')
        || (a == '|' && b == '|')
}

/// The static keyword table: the text of each name that lexes as a keyword
/// rather than an identifier.
pub open spec fn is_keyword_text(s: Seq<char>) -> bool {
    s.len() == 3 && s[0] == 'i' && s[1] == 'n' && s[2] == 't'
}

pub fn ws_char(c: char) -> (b: bool)
    ensures
        b == is_ws_char(c),
{
    c == ' ' || c == '\t' || c == '\n' || c == '\r' || c == '\u{b}' || c == '\u{c}'
}

pub fn digit_char(c: char) -> (b: bool)
    ensures
        b == is_digit_char(c),
{
    '0' <= c && c <= '9'
}

pub fn alpha_char(c: char) -> (b: bool)
    ensures
        b == is_alpha_char(c),
{
    ('a' <= c && c <= 'z') || ('A' <= c && c <= 'Z')
}

pub fn ident_start_char(c: char) -> (b: bool)
    ensures
        b == is_ident_start_char(c),
{
    alpha_char(c) || c == '_'
}

pub fn ident_char(c: char) -> (b: bool)
    ensures
        b == is_ident_char(c),
{
    alpha_char(c) || digit_char(c) || c == '_'
}

pub fn open_char(c: char) -> (b: bool)
    ensures
        b == is_open_char(c),
{
    c == '(' || c == '[' || c == '{'
}

pub fn close_char(c: char) -> (b: bool)
    ensures
        b == is_close_char(c),
{
    c == ')' || c == ']' || c == '}'
}

pub fn single_operator(c: char) -> (b: bool)
    ensures
        b == is_single_operator(c),
{
    c == '+' || c == '-' || c == '*' || c == '/' || c == '%' || c == '!' || c == '=' || c == '<'
        || c == '>'
}

pub fn pair_operator(a: char, b: char) -> (r: bool)
    ensures
        r == is_pair_operator(a, b),
{
    (b == '=' && (a == '+' || a == '-' || a == '*' || a == '/' || a == '=' || a == '!' || a == '<'
        || a == '>')) || (a == '+' && b == '+') || (a == '-' && b == '-') || (a == '&' && b == '&')
        || (a == '|' && b == '|')
}

} // verus!

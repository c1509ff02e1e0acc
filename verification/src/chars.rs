//! Character classes of the CSS syntax (https://drafts.csswg.org/css-syntax/).
use vstd::prelude::*;

verus! {

pub const C_LINE_FEED: char = '\n';
pub const C_CARRIAGE_RETURN: char = '\r';
pub const C_FORM_FEED: char = '\u{c}';
pub const C_TAB: char = '\t';
pub const C_SPACE: char = ' ';
pub const C_SOLIDUS: char = '/';
pub const C_REVERSE_SOLIDUS: char = '\\';
pub const C_ASTERISK: char = '*';
pub const C_LEFT_PARENTHESIS: char = '(';
pub const C_RIGHT_PARENTHESIS: char = ')';
pub const C_LEFT_CURLY: char = '{';
pub const C_RIGHT_CURLY: char = '}';
pub const C_LEFT_SQUARE: char = '[';
pub const C_RIGHT_SQUARE: char = ']';
pub const C_QUOTATION_MARK: char = '"';
pub const C_APOSTROPHE: char = '\'';
pub const C_FULL_STOP: char = '.';
pub const C_COLON: char = ':';
pub const C_SEMICOLON: char = ';';
pub const C_COMMA: char = ',';
pub const C_PERCENTAGE: char = '%';
pub const C_AT_SIGN: char = '@';
pub const C_LOW_LINE: char = '_';
pub const C_LOWER_A: char = 'a';
pub const C_LOWER_E: char = 'e';
pub const C_LOWER_F: char = 'f';
pub const C_LOWER_Z: char = 'z';
pub const C_UPPER_A: char = 'A';
pub const C_UPPER_E: char = 'E';
pub const C_UPPER_F: char = 'F';
pub const C_UPPER_Z: char = 'Z';
pub const C_0: char = '0';
pub const C_9: char = '9';
pub const C_NUMBER_SIGN: char = '#';
pub const C_PLUS_SIGN: char = '+';
pub const C_HYPHEN_MINUS: char = '-';
pub const C_LESS_THAN_SIGN: char = '<';
pub const C_GREATER_THAN_SIGN: char = '>';

pub open spec fn spec_is_new_line(c: char) -> bool {
    c == '\n' || c == '\r' || c == '\u{c}'
}

pub open spec fn spec_is_space(c: char) -> bool {
    c == '\t' || c == ' '
}

pub open spec fn spec_is_white_space(c: char) -> bool {
    spec_is_new_line(c) || spec_is_space(c)
}

pub open spec fn spec_is_digit(c: char) -> bool {
    '0' <= c <= '9'
}

pub open spec fn spec_is_hex_digit(c: char) -> bool {
    spec_is_digit(c) || ('A' <= c <= 'F') || ('a' <= c <= 'f')
}

/// Letters, `_`, and every code point above U+0080.
pub open spec fn spec_is_ident_start(c: char) -> bool {
    c == '_' || ('a' <= c <= 'z') || ('A' <= c <= 'Z') || c > '\u{80}'
}

pub open spec fn spec_is_ident(c: char) -> bool {
    spec_is_ident_start(c) || spec_is_digit(c) || c == '-'
}

pub open spec fn spec_are_valid_escape(c1: char, c2: char) -> bool {
    c1 == '\\' && !spec_is_new_line(c2)
}

/// https://drafts.csswg.org/css-syntax/#would-start-an-identifier
pub open spec fn spec_start_ident_sequence(c1: char, c2: char, c3: char) -> bool {
    if c1 == '-' {
        spec_is_ident_start(c2) || c2 == '-' || spec_are_valid_escape(c2, c3)
    } else {
        spec_is_ident_start(c1) || spec_are_valid_escape(c1, c2)
    }
}

/// https://drafts.csswg.org/css-syntax/#starts-with-a-number
pub open spec fn spec_start_number(c1: char, c2: char, c3: char) -> bool {
    if c1 == '+' || c1 == '-' {
        spec_is_digit(c2) || (c2 == '.' && spec_is_digit(c3))
    } else {
        spec_is_digit(c1) || (c1 == '.' && spec_is_digit(c2))
    }
}

pub fn is_new_line(c: char) -> (r: bool)
    ensures
        r == spec_is_new_line(c),
{
    c == C_LINE_FEED || c == C_CARRIAGE_RETURN || c == C_FORM_FEED
}

pub fn is_space(c: char) -> (r: bool)
    ensures
        r == spec_is_space(c),
{
    c == C_TAB || c == C_SPACE
}

pub fn is_white_space(c: char) -> (r: bool)
    ensures
        r == spec_is_white_space(c),
{
    is_new_line(c) || is_space(c)
}

pub fn is_digit(c: char) -> (r: bool)
    ensures
        r == spec_is_digit(c),
{
    c >= C_0 && c <= C_9
}

pub fn is_hex_digit(c: char) -> (r: bool)
    ensures
        r == spec_is_hex_digit(c),
{
    is_digit(c) || (c >= C_UPPER_A && c <= C_UPPER_F) || (c >= C_LOWER_A && c <= C_LOWER_F)
}

pub fn is_ident_start(c: char) -> (r: bool)
    ensures
        r == spec_is_ident_start(c),
{
    c == C_LOW_LINE || (c >= C_LOWER_A && c <= C_LOWER_Z) || (c >= C_UPPER_A && c <= C_UPPER_Z)
        || c > '\u{80}'
}

pub fn is_ident(c: char) -> (r: bool)
    ensures
        r == spec_is_ident(c),
{
    is_ident_start(c) || is_digit(c) || c == C_HYPHEN_MINUS
}

pub fn start_ident_sequence(c1: char, c2: char, c3: char) -> (r: bool)
    ensures
        r == spec_start_ident_sequence(c1, c2, c3),
{
    if c1 == C_HYPHEN_MINUS {
        is_ident_start(c2) || c2 == C_HYPHEN_MINUS || are_valid_escape(c2, c3)
    } else {
        is_ident_start(c1) || are_valid_escape(c1, c2)
    }
}

pub fn maybe_valid_escape(c: char) -> (r: bool)
    ensures
        r == (c == '\\'),
{
    c == C_REVERSE_SOLIDUS
}

pub fn are_valid_escape(c1: char, c2: char) -> (r: bool)
    ensures
        r == spec_are_valid_escape(c1, c2),
{
    c1 == C_REVERSE_SOLIDUS && !is_new_line(c2)
}

pub fn start_number(c1: char, c2: char, c3: char) -> (r: bool)
    ensures
        r == spec_start_number(c1, c2, c3),
{
    if c1 == C_PLUS_SIGN || c1 == C_HYPHEN_MINUS {
        is_digit(c2) || (c2 == C_FULL_STOP && is_digit(c3))
    } else {
        is_digit(c1) || (c1 == C_FULL_STOP && is_digit(c2))
    }
}

} // verus!

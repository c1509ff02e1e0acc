//! A CSS tokenizer that reports the tokens a dependency scanner cares about to a [`Visitor`].
use std::rc::Rc;
use vstd::prelude::*;
use vstd::string::StringSliceAdditionalSpecFns;
use vstd::utf8::{decode_utf8, encode_utf8_decode_utf8};

use crate::chars::{
    are_valid_escape, is_digit, is_hex_digit, is_ident, is_ident_start, is_new_line,
    is_white_space, maybe_valid_escape, spec_are_valid_escape, spec_is_digit, spec_is_hex_digit, spec_is_ident,
    spec_is_ident_start, spec_is_white_space, spec_start_ident_sequence, start_ident_sequence,
    start_number, C_APOSTROPHE, C_ASTERISK, C_AT_SIGN, C_COMMA, C_FULL_STOP, C_GREATER_THAN_SIGN,
    C_HYPHEN_MINUS, C_LEFT_CURLY, C_LEFT_PARENTHESIS, C_LEFT_SQUARE, C_LESS_THAN_SIGN,
    C_LOWER_E, C_NUMBER_SIGN, C_PERCENTAGE, C_PLUS_SIGN, C_QUOTATION_MARK, C_REVERSE_SOLIDUS,
    C_RIGHT_CURLY, C_RIGHT_PARENTHESIS, C_RIGHT_SQUARE, C_SEMICOLON, C_SOLIDUS, C_UPPER_E,
    C_COLON,
};
use crate::text::{
    eq_ignore_ascii_case, byte_len, byte_offset, char_width, is_str_range, lemma_byte_offset_mono,
    lemma_byte_offset_boundary, lemma_encode_utf8_len, len_utf8, str_get, to_chars,
};

verus! {

/// A byte offset into the lexed text.
pub type Pos = u32;

/// The `i`-th character of `s`, or `None` past either end.
pub open spec fn char_at(s: Seq<char>, i: int) -> Option<char> {
    if 0 <= i < s.len() {
        Some(s[i])
    } else {
        None
    }
}

/// Receives the tokens of interest; every callback may advance the lexer, and
/// returning `None` stops the lexing.
pub trait Visitor<'s> {
    /// What no callback changes.
    type Frame;

    /// What the visitor keeps true between callbacks.
    spec fn inv(&self, input: &'s str) -> bool;

    /// The part of the visitor that no callback changes.
    spec fn frame(&self) -> Self::Frame;

    /// Whether the visitor has done with token `t` of the text `input` what it
    /// owes for it; once true, no callback makes it false.
    spec fn handled(&self, t: Token, input: &'s str) -> bool;

    /// Whether a callback has asked the lexer to stop; once true, it stays true.
    spec fn halted(&self) -> bool;

    /// Whether no token has been handed to the visitor yet.
    spec fn pristine(&self) -> bool;

    /// Whether the visitor takes what comes next as part of a selector.
    spec fn selecting(&self) -> bool;

    /// Whether the visitor has done what it owes for `t` of the text `input`
    /// handed to it as the first token; once true, no callback makes it false.
    spec fn first_handled(&self, t: Token, input: &'s str) -> bool;

    fn function(&mut self, lexer: &mut Lexer<'s>, start: Pos, end: Pos) -> (r: Option<()>)
        requires
            old(self).inv(old(lexer).input()),
            old(lexer).wf(),
            start <= old(lexer).total(),
            end <= old(lexer).total(),
        ensures
            final(self).inv(final(lexer).input()),
            final(self).frame() == old(self).frame(),
            final(lexer).advanced_from(*old(lexer)),
            forall|t: Token| old(self).handled(t, old(lexer).input()) ==> #[trigger] final(self).handled(t, old(lexer).input()),
            forall|t: Token| old(self).first_handled(t, old(lexer).input()) ==> #[trigger] final(self).first_handled(t, old(lexer).input()),
            old(self).halted() ==> final(self).halted(),
            r is None ==> final(self).halted(),
            final(self).handled(Token::Function { start, end }, old(lexer).input()),
    ;

    fn ident(&mut self, lexer: &mut Lexer<'s>, start: Pos, end: Pos) -> (r: Option<()>)
        requires
            old(self).inv(old(lexer).input()),
            old(lexer).wf(),
            start <= old(lexer).total(),
            end <= old(lexer).total(),
        ensures
            final(self).inv(final(lexer).input()),
            final(self).frame() == old(self).frame(),
            final(lexer).advanced_from(*old(lexer)),
            forall|t: Token| old(self).handled(t, old(lexer).input()) ==> #[trigger] final(self).handled(t, old(lexer).input()),
            forall|t: Token| old(self).first_handled(t, old(lexer).input()) ==> #[trigger] final(self).first_handled(t, old(lexer).input()),
            old(self).halted() ==> final(self).halted(),
            r is None ==> final(self).halted(),
            final(self).handled(Token::Ident { start, end }, old(lexer).input()),
    ;

    fn url(
        &mut self,
        lexer: &mut Lexer<'s>,
        start: Pos,
        end: Pos,
        content_start: Pos,
        content_end: Pos,
    ) -> (r: Option<()>)
        requires
            old(self).inv(old(lexer).input()),
            old(lexer).wf(),
            start <= old(lexer).total(),
            end <= old(lexer).total(),
            content_start <= old(lexer).total(),
            content_end <= old(lexer).total(),
        ensures
            final(self).inv(final(lexer).input()),
            final(self).frame() == old(self).frame(),
            final(lexer).advanced_from(*old(lexer)),
            forall|t: Token| old(self).handled(t, old(lexer).input()) ==> #[trigger] final(self).handled(t, old(lexer).input()),
            forall|t: Token| old(self).first_handled(t, old(lexer).input()) ==> #[trigger] final(self).first_handled(t, old(lexer).input()),
            old(self).halted() ==> final(self).halted(),
            r is None ==> final(self).halted(),
            final(self).handled(Token::Url { start, end, content_start, content_end }, old(lexer).input()),
    ;

    fn string(&mut self, lexer: &mut Lexer<'s>, start: Pos, end: Pos) -> (r: Option<()>)
        requires
            old(self).inv(old(lexer).input()),
            old(lexer).wf(),
            start <= old(lexer).total(),
            end <= old(lexer).total(),
        ensures
            final(self).inv(final(lexer).input()),
            final(self).frame() == old(self).frame(),
            final(lexer).advanced_from(*old(lexer)),
            forall|t: Token| old(self).handled(t, old(lexer).input()) ==> #[trigger] final(self).handled(t, old(lexer).input()),
            forall|t: Token| old(self).first_handled(t, old(lexer).input()) ==> #[trigger] final(self).first_handled(t, old(lexer).input()),
            old(self).halted() ==> final(self).halted(),
            r is None ==> final(self).halted(),
            final(self).handled(Token::Str { start, end }, old(lexer).input()),
    ;

    fn is_selector(&mut self, lexer: &mut Lexer<'s>) -> (r: Option<bool>)
        requires
            old(self).inv(old(lexer).input()),
            old(lexer).wf(),
        ensures
            r == Some(old(self).selecting()),
            *final(lexer) == *old(lexer),
            final(self).pristine() == old(self).pristine(),
            final(self).selecting() == old(self).selecting(),
            final(self).inv(final(lexer).input()),
            final(self).frame() == old(self).frame(),
            final(lexer).advanced_from(*old(lexer)),
            forall|t: Token| old(self).handled(t, old(lexer).input()) ==> #[trigger] final(self).handled(t, old(lexer).input()),
            forall|t: Token| old(self).first_handled(t, old(lexer).input()) ==> #[trigger] final(self).first_handled(t, old(lexer).input()),
            old(self).halted() ==> final(self).halted(),
            r is None ==> final(self).halted(),
    ;

    fn id(&mut self, lexer: &mut Lexer<'s>, start: Pos, end: Pos) -> (r: Option<()>)
        requires
            old(self).inv(old(lexer).input()),
            old(lexer).wf(),
            start <= old(lexer).total(),
            end <= old(lexer).total(),
        ensures
            final(self).inv(final(lexer).input()),
            final(self).frame() == old(self).frame(),
            final(lexer).advanced_from(*old(lexer)),
            forall|t: Token| old(self).handled(t, old(lexer).input()) ==> #[trigger] final(self).handled(t, old(lexer).input()),
            forall|t: Token| old(self).first_handled(t, old(lexer).input()) ==> #[trigger] final(self).first_handled(t, old(lexer).input()),
            old(self).halted() ==> final(self).halted(),
            r is None ==> final(self).halted(),
            final(self).handled(Token::Id { start, end }, old(lexer).input()),
            old(self).pristine() ==> final(self).first_handled(Token::Id { start, end }, old(lexer).input()),
    ;

    fn left_parenthesis(&mut self, lexer: &mut Lexer<'s>, start: Pos, end: Pos) -> (r: Option<()>)
        requires
            old(self).inv(old(lexer).input()),
            old(lexer).wf(),
            start <= old(lexer).total(),
            end <= old(lexer).total(),
        ensures
            final(self).inv(final(lexer).input()),
            final(self).frame() == old(self).frame(),
            final(lexer).advanced_from(*old(lexer)),
            forall|t: Token| old(self).handled(t, old(lexer).input()) ==> #[trigger] final(self).handled(t, old(lexer).input()),
            forall|t: Token| old(self).first_handled(t, old(lexer).input()) ==> #[trigger] final(self).first_handled(t, old(lexer).input()),
            old(self).halted() ==> final(self).halted(),
            r is None ==> final(self).halted(),
            final(self).handled(Token::LeftParenthesis { start, end }, old(lexer).input()),
    ;

    fn right_parenthesis(&mut self, lexer: &mut Lexer<'s>, start: Pos, end: Pos) -> (r: Option<
        (),
    >)
        requires
            old(self).inv(old(lexer).input()),
            old(lexer).wf(),
            start <= old(lexer).total(),
            end <= old(lexer).total(),
        ensures
            final(self).inv(final(lexer).input()),
            final(self).frame() == old(self).frame(),
            final(lexer).advanced_from(*old(lexer)),
            forall|t: Token| old(self).handled(t, old(lexer).input()) ==> #[trigger] final(self).handled(t, old(lexer).input()),
            forall|t: Token| old(self).first_handled(t, old(lexer).input()) ==> #[trigger] final(self).first_handled(t, old(lexer).input()),
            old(self).halted() ==> final(self).halted(),
            r is None ==> final(self).halted(),
            final(self).handled(Token::RightParenthesis { start, end }, old(lexer).input()),
    ;

    fn comma(&mut self, lexer: &mut Lexer<'s>, start: Pos, end: Pos) -> (r: Option<()>)
        requires
            old(self).inv(old(lexer).input()),
            old(lexer).wf(),
            start <= old(lexer).total(),
            end <= old(lexer).total(),
        ensures
            final(self).inv(final(lexer).input()),
            final(self).frame() == old(self).frame(),
            final(lexer).advanced_from(*old(lexer)),
            forall|t: Token| old(self).handled(t, old(lexer).input()) ==> #[trigger] final(self).handled(t, old(lexer).input()),
            forall|t: Token| old(self).first_handled(t, old(lexer).input()) ==> #[trigger] final(self).first_handled(t, old(lexer).input()),
            old(self).halted() ==> final(self).halted(),
            r is None ==> final(self).halted(),
            final(self).handled(Token::Comma { start, end }, old(lexer).input()),
    ;

    fn class(&mut self, lexer: &mut Lexer<'s>, start: Pos, end: Pos) -> (r: Option<()>)
        requires
            old(self).inv(old(lexer).input()),
            old(lexer).wf(),
            start <= old(lexer).total(),
            end <= old(lexer).total(),
        ensures
            final(self).inv(final(lexer).input()),
            final(self).frame() == old(self).frame(),
            final(lexer).advanced_from(*old(lexer)),
            forall|t: Token| old(self).handled(t, old(lexer).input()) ==> #[trigger] final(self).handled(t, old(lexer).input()),
            forall|t: Token| old(self).first_handled(t, old(lexer).input()) ==> #[trigger] final(self).first_handled(t, old(lexer).input()),
            old(self).halted() ==> final(self).halted(),
            r is None ==> final(self).halted(),
            final(self).handled(Token::Class { start, end }, old(lexer).input()),
            old(self).pristine() ==> final(self).first_handled(Token::Class { start, end }, old(lexer).input()),
    ;

    fn pseudo_function(&mut self, lexer: &mut Lexer<'s>, start: Pos, end: Pos) -> (r: Option<()>)
        requires
            old(self).inv(old(lexer).input()),
            old(lexer).wf(),
            start <= old(lexer).total(),
            end <= old(lexer).total(),
        ensures
            final(self).inv(final(lexer).input()),
            final(self).frame() == old(self).frame(),
            final(lexer).advanced_from(*old(lexer)),
            forall|t: Token| old(self).handled(t, old(lexer).input()) ==> #[trigger] final(self).handled(t, old(lexer).input()),
            forall|t: Token| old(self).first_handled(t, old(lexer).input()) ==> #[trigger] final(self).first_handled(t, old(lexer).input()),
            old(self).halted() ==> final(self).halted(),
            r is None ==> final(self).halted(),
            final(self).handled(Token::PseudoFunction { start, end }, old(lexer).input()),
    ;

    fn pseudo_class(&mut self, lexer: &mut Lexer<'s>, start: Pos, end: Pos) -> (r: Option<()>)
        requires
            old(self).inv(old(lexer).input()),
            old(lexer).wf(),
            start <= old(lexer).total(),
            end <= old(lexer).total(),
        ensures
            final(self).inv(final(lexer).input()),
            final(self).frame() == old(self).frame(),
            final(lexer).advanced_from(*old(lexer)),
            forall|t: Token| old(self).handled(t, old(lexer).input()) ==> #[trigger] final(self).handled(t, old(lexer).input()),
            forall|t: Token| old(self).first_handled(t, old(lexer).input()) ==> #[trigger] final(self).first_handled(t, old(lexer).input()),
            old(self).halted() ==> final(self).halted(),
            r is None ==> final(self).halted(),
            final(self).handled(Token::PseudoClass { start, end }, old(lexer).input()),
    ;

    fn semicolon(&mut self, lexer: &mut Lexer<'s>, start: Pos, end: Pos) -> (r: Option<()>)
        requires
            old(self).inv(old(lexer).input()),
            old(lexer).wf(),
            start <= old(lexer).total(),
            end <= old(lexer).total(),
        ensures
            final(self).inv(final(lexer).input()),
            final(self).frame() == old(self).frame(),
            final(lexer).advanced_from(*old(lexer)),
            forall|t: Token| old(self).handled(t, old(lexer).input()) ==> #[trigger] final(self).handled(t, old(lexer).input()),
            forall|t: Token| old(self).first_handled(t, old(lexer).input()) ==> #[trigger] final(self).first_handled(t, old(lexer).input()),
            old(self).halted() ==> final(self).halted(),
            r is None ==> final(self).halted(),
            final(self).handled(Token::Semicolon { start, end }, old(lexer).input()),
    ;

    fn at_keyword(&mut self, lexer: &mut Lexer<'s>, start: Pos, end: Pos) -> (r: Option<()>)
        requires
            old(self).inv(old(lexer).input()),
            old(lexer).wf(),
            start <= old(lexer).total(),
            end <= old(lexer).total(),
        ensures
            final(self).inv(final(lexer).input()),
            final(self).frame() == old(self).frame(),
            final(lexer).advanced_from(*old(lexer)),
            forall|t: Token| old(self).handled(t, old(lexer).input()) ==> #[trigger] final(self).handled(t, old(lexer).input()),
            forall|t: Token| old(self).first_handled(t, old(lexer).input()) ==> #[trigger] final(self).first_handled(t, old(lexer).input()),
            old(self).halted() ==> final(self).halted(),
            r is None ==> final(self).halted(),
            final(self).handled(Token::AtKeyword { start, end }, old(lexer).input()),
    ;

    fn left_curly_bracket(&mut self, lexer: &mut Lexer<'s>, start: Pos, end: Pos) -> (r: Option<
        (),
    >)
        requires
            old(self).inv(old(lexer).input()),
            old(lexer).wf(),
            start <= old(lexer).total(),
            end <= old(lexer).total(),
        ensures
            final(self).inv(final(lexer).input()),
            final(self).frame() == old(self).frame(),
            final(lexer).advanced_from(*old(lexer)),
            forall|t: Token| old(self).handled(t, old(lexer).input()) ==> #[trigger] final(self).handled(t, old(lexer).input()),
            forall|t: Token| old(self).first_handled(t, old(lexer).input()) ==> #[trigger] final(self).first_handled(t, old(lexer).input()),
            old(self).halted() ==> final(self).halted(),
            r is None ==> final(self).halted(),
            final(self).handled(Token::LeftCurlyBracket { start, end }, old(lexer).input()),
    ;

    fn right_curly_bracket(&mut self, lexer: &mut Lexer<'s>, start: Pos, end: Pos) -> (r: Option<
        (),
    >)
        requires
            old(self).inv(old(lexer).input()),
            old(lexer).wf(),
            start <= old(lexer).total(),
            end <= old(lexer).total(),
        ensures
            final(self).inv(final(lexer).input()),
            final(self).frame() == old(self).frame(),
            final(lexer).advanced_from(*old(lexer)),
            forall|t: Token| old(self).handled(t, old(lexer).input()) ==> #[trigger] final(self).handled(t, old(lexer).input()),
            forall|t: Token| old(self).first_handled(t, old(lexer).input()) ==> #[trigger] final(self).first_handled(t, old(lexer).input()),
            old(self).halted() ==> final(self).halted(),
            r is None ==> final(self).halted(),
            final(self).handled(Token::RightCurlyBracket { start, end }, old(lexer).input()),
    ;
}

/// A token handed to a [`Visitor`], with the byte offsets it was reported with.
pub enum Token {
    Function { start: Pos, end: Pos },
    Ident { start: Pos, end: Pos },
    Url { start: Pos, end: Pos, content_start: Pos, content_end: Pos },
    Str { start: Pos, end: Pos },
    Id { start: Pos, end: Pos },
    LeftParenthesis { start: Pos, end: Pos },
    RightParenthesis { start: Pos, end: Pos },
    Comma { start: Pos, end: Pos },
    Class { start: Pos, end: Pos },
    PseudoFunction { start: Pos, end: Pos },
    PseudoClass { start: Pos, end: Pos },
    Semicolon { start: Pos, end: Pos },
    AtKeyword { start: Pos, end: Pos },
    LeftCurlyBracket { start: Pos, end: Pos },
    RightCurlyBracket { start: Pos, end: Pos },
}

/// Where a token starts.
pub open spec fn token_start(t: Token) -> Pos {
    match t {
        Token::Function { start, .. } => start,
        Token::Ident { start, .. } => start,
        Token::Url { start, .. } => start,
        Token::Str { start, .. } => start,
        Token::Id { start, .. } => start,
        Token::LeftParenthesis { start, .. } => start,
        Token::RightParenthesis { start, .. } => start,
        Token::Comma { start, .. } => start,
        Token::Class { start, .. } => start,
        Token::PseudoFunction { start, .. } => start,
        Token::PseudoClass { start, .. } => start,
        Token::Semicolon { start, .. } => start,
        Token::AtKeyword { start, .. } => start,
        Token::LeftCurlyBracket { start, .. } => start,
        Token::RightCurlyBracket { start, .. } => start,
    }
}

/// The token of a one-character punctuation mark `c` at byte `start`, if `c`
/// is one.
pub open spec fn punctuation_token(c: char, start: Pos) -> Option<Token> {
    let end = (start + 1) as u32;
    if c == '(' {
        Some(Token::LeftParenthesis { start, end })
    } else if c == ')' {
        Some(Token::RightParenthesis { start, end })
    } else if c == ',' {
        Some(Token::Comma { start, end })
    } else if c == ';' {
        Some(Token::Semicolon { start, end })
    } else if c == '{' {
        Some(Token::LeftCurlyBracket { start, end })
    } else if c == '}' {
        Some(Token::RightCurlyBracket { start, end })
    } else {
        None
    }
}

/// No character of `text` in `from..to` is a backslash.
pub open spec fn no_backslash(text: Seq<char>, from: int, to: int) -> bool {
    forall|m: int| from <= m < to ==> #[trigger] text[m] != '\\'
}

/// Every character in `from..to` before the first backslash is an identifier character.
pub open spec fn ident_run(text: Seq<char>, from: int, to: int) -> bool {
    forall|k: int| from <= k < to && no_backslash(text, from, k + 1) ==> spec_is_ident(#[trigger] text[k])
}

/// `text` has an at-keyword at index `i`: a `@`, then a name that starts an
/// identifier and is made of identifier characters up to index `k`, whose
/// character ends it.
pub open spec fn at_keyword_at(text: Seq<char>, i: int, k: int) -> bool {
    &&& 0 <= i
    &&& i + 3 < text.len()
    &&& i + 2 <= k < text.len()
    &&& text[i] == '@'
    &&& spec_start_ident_sequence(text[i + 1], text[i + 2], text[i + 3])
    &&& forall|m: int| i + 1 <= m < k ==> spec_is_ident(#[trigger] text[m])
    &&& !spec_is_ident(text[k])
    &&& text[k] != '\\'
}

/// `text` has a class selector at index `i`: a `.`, then a name that starts
/// an identifier and is made of identifier characters up to index `k`, whose
/// character ends it.
pub open spec fn class_at(text: Seq<char>, i: int, k: int) -> bool {
    &&& 0 <= i
    &&& i + 3 < text.len()
    &&& i + 2 <= k < text.len()
    &&& text[i] == '.'
    &&& spec_start_ident_sequence(text[i + 1], text[i + 2], text[i + 3])
    &&& forall|m: int| i + 1 <= m < k ==> spec_is_ident(#[trigger] text[m])
    &&& !spec_is_ident(text[k])
    &&& text[k] != '\\'
}

/// `text` has an id selector at index `i`: a `#`, then a name that starts
/// an identifier and is made of identifier characters up to index `k`, whose
/// character ends it.
pub open spec fn id_at(text: Seq<char>, i: int, k: int) -> bool {
    &&& 0 <= i
    &&& i + 3 < text.len()
    &&& i + 2 <= k < text.len()
    &&& text[i] == '#'
    &&& spec_start_ident_sequence(text[i + 1], text[i + 2], text[i + 3])
    &&& forall|m: int| i + 1 <= m < k ==> spec_is_ident(#[trigger] text[m])
    &&& !spec_is_ident(text[k])
    &&& text[k] != '\\'
}

/// The identifier characters after the first character at `i` end exactly
/// where the name that follows it ends.
#[verifier::spinoff_prover]
#[verifier::rlimit(40)]
proof fn lemma_name_end(t: Seq<char>, i: int, k: int, j: int)
    requires
        0 <= i,
        i + 2 <= k < t.len(),
        forall|m: int| i + 1 <= m < k ==> spec_is_ident(#[trigger] t[m]),
        !spec_is_ident(t[k]),
        t[k] != '\\',
        ident_run(t, i + 1, j),
        i + 1 <= j,
        0 <= j < t.len() ==> !spec_is_ident(t[j]),
    ensures
        j == k,
{
    assert forall|m: int| i + 1 <= m < k + 1 implies #[trigger] t[m] != '\\' by {
        if m < k {
            assert(spec_is_ident(t[m]));
        }
    }
    assert(no_backslash(t, i + 1, k + 1));
    if j > k {
        assert(spec_is_ident(t[k]));
    }
    if j < k {
        assert(spec_is_ident(t[j]));
    }
}

/// The characters of `text` from index `i` up to `k` are white space, and the
/// one at `k` is neither white space nor a `/`.
pub open spec fn white_space_up_to(text: Seq<char>, i: int, k: int) -> bool {
    &&& 0 <= i <= k < text.len()
    &&& forall|m: int| i <= m < k ==> spec_is_white_space(#[trigger] text[m])
    &&& !spec_is_white_space(text[k])
    &&& text[k] != '/'
}

/// The index of the first character at or after `j` that is not a digit, or
/// the length of `t` when there is none.
pub open spec fn digits_end(t: Seq<char>, j: int) -> int
    decreases t.len() - j,
{
    if 0 <= j < t.len() && spec_is_digit(t[j]) {
        digits_end(t, j + 1)
    } else {
        j
    }
}

/// Where a number whose first character is at index `i` of `t` ends: that
/// character and the digits after it, a `.` and digits, then an exponent.
pub open spec fn number_end(t: Seq<char>, i: int) -> int {
    let a = digits_end(t, i + 1);
    let b = if a + 1 < t.len() && t[a] == '.' && spec_is_digit(t[a + 1]) {
        digits_end(t, a + 2)
    } else {
        a
    };
    if b + 1 < t.len() && (t[b] == 'e' || t[b] == 'E') && spec_is_digit(t[b + 1]) {
        digits_end(t, b + 2)
    } else if b + 2 < t.len() && (t[b] == 'e' || t[b] == 'E') && (t[b + 1] == '-' || t[b + 1]
        == '+') && spec_is_digit(t[b + 2]) {
        digits_end(t, b + 3)
    } else {
        b
    }
}

/// The index of the first character at or after `j`, and before `limit`, that
/// is not a hexadecimal digit; `limit` or the length of `t` when there is none.
pub open spec fn hex_digits_end(t: Seq<char>, j: int, limit: int) -> int
    decreases limit - j,
{
    if 0 <= j < t.len() && j < limit && spec_is_hex_digit(t[j]) {
        hex_digits_end(t, j + 1, limit)
    } else {
        j
    }
}

/// Where an escape whose first character (after the `\\`) is at index `i` of
/// `t` ends: a run of at most four hexadecimal digits and one white space
/// after them, or else that one character.
pub open spec fn escape_end(t: Seq<char>, i: int) -> int {
    if spec_is_hex_digit(t[i]) {
        let h = hex_digits_end(t, i + 1, i + 4);
        if h < t.len() && spec_is_white_space(t[h]) {
            h + 1
        } else {
            h
        }
    } else {
        i + 1
    }
}

/// A cursor over the characters of a text with a look-ahead of two characters.
/// `cur` is the character under the cursor, `peek` and `peek2` the two after it.
#[derive(Clone)]
pub struct Lexer<'s> {
    value: &'s str,
    chars: Rc<Vec<char>>,
    /// How many characters have been pulled out of `chars`, capped at its length plus three.
    consumed: u64,
    cur_pos: Option<Pos>,
    cur: Option<char>,
    peek: Option<char>,
    peek2: Option<char>,
    /// Every token handed to a visitor so far, in order.
    tokens: Ghost<Seq<Token>>,
}

impl<'s> Lexer<'s> {
    /// The text being lexed.
    pub closed spec fn input(self) -> &'s str {
        self.value
    }

    /// The characters of the text being lexed.
    pub closed spec fn text(self) -> Seq<char> {
        self.chars@
    }

    /// Characters pulled so far; the character under the cursor is the
    /// `consumed() - 3`-th of the text.
    pub closed spec fn consumed(self) -> int {
        self.consumed as int
    }

    pub closed spec fn cur_char(self) -> Option<char> {
        self.cur
    }

    pub closed spec fn peek_char(self) -> Option<char> {
        self.peek
    }

    pub closed spec fn peek2_char(self) -> Option<char> {
        self.peek2
    }

    pub closed spec fn cur_position(self) -> Option<Pos> {
        self.cur_pos
    }

    /// Every token handed to a visitor so far, in order.
    pub closed spec fn tokens(self) -> Seq<Token> {
        self.tokens@
    }

    /// Length in bytes of the text.
    pub open spec fn total(self) -> int {
        byte_len(self.text()) as int
    }

    /// Index in the text of the character under the cursor.
    pub open spec fn index(self) -> int {
        self.consumed() - 3
    }

    /// Byte offset of the `i`-th character of the text.
    pub open spec fn offset(self, i: int) -> int {
        byte_offset(self.text(), i) as int
    }

    pub open spec fn wf(self) -> bool {
        &&& self.text() == self.input()@
        &&& self.total() <= u32::MAX
        &&& self.total() == self.input().spec_bytes().len()
        &&& 2 <= self.consumed() <= self.text().len() + 3
        &&& self.cur_char() == char_at(self.text(), self.index())
        &&& self.peek_char() == char_at(self.text(), self.index() + 1)
        &&& self.peek2_char() == char_at(self.text(), self.index() + 2)
        &&& self.cur_char() is Some ==> self.cur_position() == Some(self.offset(self.index()) as u32)
        &&& self.consumed() == 2 ==> self.cur_position() is None
        &&& self.cur_position() matches Some(p) ==> p <= self.total()
    }

    /// `self` is `old` moved forward over the same text.
    pub open spec fn advanced_from(self, old: Lexer<'s>) -> bool {
        &&& self.wf()
        &&& self.text() == old.text()
        &&& self.input() == old.input()
        &&& self.consumed() >= old.consumed()
        &&& self.tokens() == old.tokens()
    }

    /// `self` is `old` moved forward, having reported any number of tokens on
    /// top of those `old` had reported.
    pub open spec fn lexed_from(self, old: Lexer<'s>) -> bool {
        &&& self.wf()
        &&& self.text() == old.text()
        &&& self.input() == old.input()
        &&& self.consumed() >= old.consumed()
        &&& old.tokens().len() <= self.tokens().len()
        &&& forall|i: int| 0 <= i < old.tokens().len() ==> #[trigger] self.tokens()[i] == old.tokens()[i]
    }

    /// `self` is `old` moved forward by at least one character, having
    /// reported any number of tokens.
    pub open spec fn lexed_on_from(self, old: Lexer<'s>) -> bool {
        &&& self.lexed_from(old)
        &&& self.consumed() > old.consumed()
    }

    /// `self` is `old` moved forward by at least one character.
    pub open spec fn progressed_from(self, old: Lexer<'s>) -> bool {
        &&& self.advanced_from(old)
        &&& self.consumed() > old.consumed()
    }

    pub open spec fn peek_position(self) -> Option<Pos> {
        match self.cur_position() {
            Some(pos) => match self.cur_char() {
                Some(c) => Some((pos + char_width(c)) as u32),
                None => None,
            },
            None => Some(0),
        }
    }

    pub open spec fn peek2_position(self) -> Option<Pos> {
        match self.peek_position() {
            Some(pos) => match self.peek_char() {
                Some(c) => Some((pos + char_width(c)) as u32),
                None => None,
            },
            None => None,
        }
    }

    /// `Some(true)` when the character under the cursor satisfies `f`.
    pub open spec fn cur_is(self, c: char) -> bool {
        self.cur_char() == Some(c)
    }

    /// Under a `--` at the cursor, the two dashes take two bytes.
    pub proof fn lemma_dashes(self)
        requires
            self.wf(),
            self.cur_char() == Some('-'),
            self.peek_char() == Some('-'),
        ensures
            self.cur_position() matches Some(p) && p + 2 <= self.total(),
    {
        self.lemma_offset_step(self.index());
        self.lemma_offset_step(self.index() + 1);
        lemma_byte_offset_mono(self.text(), self.index() + 2, self.text().len() as int);
    }

    proof fn lemma_offset_step(self, i: int)
        requires
            self.wf(),
            0 <= i < self.text().len(),
        ensures
            self.offset(i + 1) == self.offset(i) + char_width(self.text()[i]),
            self.offset(i + 1) <= self.total(),
    {
        lemma_byte_offset_mono(self.text(), i + 1, self.text().len() as int);
    }

    /// Positions of the characters are increasing byte offsets within the text.
    pub proof fn lemma_offsets(self, i: int, j: int)
        requires
            self.wf(),
            0 <= i <= j <= self.text().len(),
        ensures
            self.offset(i) + (j - i) <= self.offset(j) <= self.total(),
    {
        lemma_byte_offset_mono(self.text(), i, j);
        lemma_byte_offset_mono(self.text(), j, self.text().len() as int);
    }

    /// The text between the characters under the cursor of `old` and of `self`
    /// is a string of its own.
    pub proof fn lemma_cur_range(self, old: Lexer<'s>)
        requires
            old.wf(),
            self.wf(),
            self.input() == old.input(),
            old.cur_char() is Some,
            self.cur_char() is Some,
            old.consumed() <= self.consumed(),
        ensures
            is_str_range(
                self.input(),
                old.cur_position().unwrap() as int,
                self.cur_position().unwrap() as int,
            ),
    {
        let t = self.text();
        lemma_byte_offset_boundary(t, old.index());
        lemma_byte_offset_boundary(t, self.index());
        lemma_byte_offset_mono(t, old.index(), self.index());
        lemma_byte_offset_mono(t, self.index(), t.len() as int);
        lemma_encode_utf8_len(t);
    }

    /// The position of the character under the cursor is its byte offset.
    pub proof fn lemma_cur_offset(self)
        requires
            self.wf(),
            self.cur_char() is Some,
        ensures
            self.cur_position().unwrap() as int == byte_offset(self.text(), self.index()),
    {
        lemma_byte_offset_mono(self.text(), self.index(), self.text().len() as int);
    }

    /// The cursor's byte offset does not go back.
    pub proof fn lemma_cursor_mono(self, old: Lexer<'s>)
        requires
            old.wf(),
            self.wf(),
            self.text() == old.text(),
            old.consumed() <= self.consumed(),
        ensures
            byte_offset(old.text(), old.index()) <= byte_offset(self.text(), self.index()),
    {
        if old.index() >= 0 {
            lemma_byte_offset_mono(self.text(), old.index(), self.index());
        }
    }

    /// The positions next to the cursor are byte offsets in the text.
    pub proof fn lemma_positions(self)
        requires
            self.wf(),
        ensures
            self.peek_position() matches Some(p) ==> p <= self.total(),
            self.peek2_position() matches Some(p) ==> p <= self.total(),
            self.cur_char() is Some ==> self.peek_position() == Some(
                self.offset(self.index() + 1) as u32,
            ),
            self.peek_char() is Some ==> self.peek_position() == Some(
                self.offset(self.index() + 1) as u32,
            ),
            self.peek_char() is Some ==> self.peek2_position() == Some(
                self.offset(self.index() + 2) as u32,
            ),
            self.cur_char() matches Some(c) ==> self.offset(self.index()) + char_width(c)
                <= self.total(),
            self.peek_char() matches Some(c) ==> self.offset(self.index() + 1) + char_width(c)
                <= self.total(),
            self.text().len() <= self.total(),
    {
        self.lemma_offsets(0, self.text().len() as int);
        let n = self.text().len() as int;
        let k = self.index();
        if 0 <= k < n {
            self.lemma_offset_step(k);
        }
        if 0 <= k + 1 < n {
            self.lemma_offset_step(k + 1);
        }
        if k == -1 && n > 0 {
            assert(self.offset(0) == 0);
            self.lemma_offset_step(0);
        }
    }

    pub fn new(value: &'s str) -> (r: Lexer<'s>)
        requires
            value.spec_bytes().len() <= u32::MAX,
        ensures
            r.wf(),
            r.input() == value,
            r.consumed() == 2,
            r.tokens() == Seq::<Token>::empty(),
    {
        let chars = to_chars(value);
        proof {
            lemma_encode_utf8_len(value@);
        }
        let peek = if chars.len() > 0 {
            Some(chars[0])
        } else {
            None
        };
        let peek2 = if chars.len() > 1 {
            Some(chars[1])
        } else {
            None
        };
        Lexer {
            value,
            chars: Rc::new(chars),
            consumed: 2,
            cur_pos: None,
            cur: None,
            peek,
            peek2,
            tokens: Ghost(Seq::empty()),
        }
    }

    /// Moves the cursor one character forward and returns the character now under it.
    #[must_use]
    pub fn consume(&mut self) -> (r: Option<char>)
        requires
            old(self).wf(),
        ensures
            final(self).advanced_from(*old(self)),
            final(self).consumed() == if old(self).consumed() < old(self).text().len() + 3 {
                old(self).consumed() + 1
            } else {
                old(self).consumed()
            },
            final(self).cur_position() == old(self).peek_position(),
            final(self).cur_char() == old(self).peek_char(),
            r == final(self).cur_char(),
    {
        proof {
            self.lemma_positions();
        }
        self.cur_pos = self.peek_pos();
        self.cur = self.peek;
        self.peek = self.peek2;
        let chars: &Vec<char> = &self.chars;
        let n = chars.len();
        assert(n <= u32::MAX);
        self.peek2 = if self.consumed < n as u64 {
            Some(chars[self.consumed as usize])
        } else {
            None
        };
        if self.consumed < n as u64 + 3 {
            self.consumed = self.consumed + 1;
        }
        self.cur
    }

    /// The text being lexed.
    pub fn value(&self) -> (r: &'s str)
        ensures
            r == self.input(),
    {
        self.value
    }

    pub fn cur_pos(&self) -> (r: Option<Pos>)
        ensures
            r == self.cur_position(),
    {
        self.cur_pos
    }

    pub fn cur(&self) -> (r: Option<char>)
        ensures
            r == self.cur_char(),
    {
        self.cur
    }

    pub fn peek_pos(&self) -> (r: Option<Pos>)
        requires
            self.wf(),
        ensures
            r == self.peek_position(),
    {
        proof {
            self.lemma_positions();
        }
        if let Some(pos) = self.cur_pos {
            match self.cur {
                Some(c) => Some(pos + len_utf8(c)),
                None => None,
            }
        } else {
            Some(0)
        }
    }

    pub fn peek(&self) -> (r: Option<char>)
        ensures
            r == self.peek_char(),
    {
        self.peek
    }

    pub fn peek2_pos(&self) -> (r: Option<Pos>)
        requires
            self.wf(),
        ensures
            r == self.peek2_position(),
    {
        proof {
            self.lemma_positions();
        }
        match self.peek_pos() {
            Some(pos) => match self.peek {
                Some(c) => Some(pos + len_utf8(c)),
                None => None,
            },
            None => None,
        }
    }

    pub fn peek2(&self) -> (r: Option<char>)
        ensures
            r == self.peek2_char(),
    {
        self.peek2
    }

    /// The text between the byte offsets `start` and `end`, when they delimit a
    /// string of its own.
    pub fn slice(&self, start: Pos, end: Pos) -> (r: Option<&'s str>)
        requires
            self.wf(),
        ensures
            r is Some <==> is_str_range(self.input(), start as int, end as int),
            r matches Some(s) ==> s.spec_bytes() == self.input().spec_bytes().subrange(
                start as int,
                end as int,
            ),
    {
        proof {
            lemma_encode_utf8_len(self.value@);
        }
        str_get(self.value, start as usize, end as usize)
    }

    /// The characters of the text between the byte offsets `start` and `end`.
    pub open spec fn text_at(self, start: int, end: int) -> Seq<char> {
        decode_utf8(self.input().spec_bytes().subrange(start, end))
    }

    /// A slice of the text holds the characters between its offsets.
    pub proof fn lemma_slice_view(self, start: Pos, end: Pos, s: &str)
        requires
            s.spec_bytes() == self.input().spec_bytes().subrange(start as int, end as int),
        ensures
            s@ == self.text_at(start as int, end as int),
    {
        encode_utf8_decode_utf8(s@);
    }
}


impl<'s> Lexer<'s> {
    /// There is no `*/` starting at any index in `from..to`.
    pub open spec fn no_comment_end(self, from: int, to: int) -> bool {
        forall|j: int|
            from <= j < to ==> !(#[trigger] self.text()[j] == '*' && self.text()[j + 1] == '/')
    }

    /// Skips a comment under the cursor, if there is one.
    pub fn consume_comments(&mut self) -> (r: Option<()>)
        requires
            old(self).wf(),
        ensures
            old(self).cur_char() is Some && r is None ==> final(self).peek2_char() is None,
            r is None ==> final(self).cur_char() is None || final(self).peek_char() is None,
            final(self).advanced_from(*old(self)),
            old(self).cur_char() is None ==> r is None,
            old(self).cur_is('/') && old(self).peek_char() is None ==> r is None,
            old(self).cur_char() is Some && old(self).peek_char() is Some && !(old(self).cur_is('/')
                && old(self).peek_char() == Some('*')) ==> r is Some && *final(self) == *old(self),
            old(self).cur_char() is Some && !old(self).cur_is('/') ==> r is Some && *final(self)
                == *old(self),
            old(self).cur_is('/') && old(self).peek_char() == Some('*') && r is Some
                ==> final(self).progressed_from(*old(self)) && (final(self).cur_char() is Some
                ==> {
                &&& final(self).index() >= old(self).index() + 3
                &&& final(self).text()[final(self).index() - 2] == '*'
                &&& final(self).text()[final(self).index() - 1] == '/'
                &&& final(self).no_comment_end(old(self).index() + 1, final(self).index() - 2)
            }),
    {
        if self.cur()? == C_SOLIDUS && self.peek()? == C_ASTERISK {
            let ghost start = self.index();
            loop
                invariant_except_break
                    self.advanced_from(*old(self)),
                    old(self).cur_is('/') && old(self).peek_char() == Some('*'),
                    start == old(self).index(),
                    self.index() >= start,
                    self.cur_char() is Some,
                    self.no_comment_end(start + 1, self.index() + 1),
                ensures
                    self.progressed_from(*old(self)),
                    self.cur_char() is Some ==> {
                        &&& self.index() >= start + 3
                        &&& self.text()[self.index() - 2] == '*'
                        &&& self.text()[self.index() - 1] == '/'
                        &&& self.no_comment_end(start + 1, self.index() - 2)
                    },
                decreases self.text().len() + 3 - self.consumed(),
            {
                match self.consume() {
                    Some(c) => {
                        if c == C_ASTERISK && self.peek()? == C_SOLIDUS {
                            let _ = self.consume()?;
                            let _ = self.consume();
                            break ;
                        }
                    },
                    None => break ,
                }
            }
        }
        Some(())
    }

    /// Moves the cursor past the character under it.
    pub fn consume_delim(&mut self) -> (r: Option<()>)
        requires
            old(self).wf(),
        ensures
            old(self).cur_char() is Some && r is None ==> final(self).peek2_char() is None,
            final(self).advanced_from(*old(self)),
            old(self).cur_char() is Some ==> final(self).progressed_from(*old(self)),
            r is Some <==> final(self).cur_char() is Some,
    {
        let _ = self.consume()?;
        Some(())
    }

    /// Skips the white space that starts under the cursor.
    pub fn consume_space(&mut self) -> (r: Option<()>)
        requires
            old(self).wf(),
        ensures
            old(self).cur_char() is Some && r is None ==> final(self).peek2_char() is None,
            forall|j: int| old(self).index() < j < final(self).index() && j < final(self).text().len() ==> spec_is_white_space(#[trigger] final(self).text()[j]),
            final(self).advanced_from(*old(self)),
            old(self).cur_char() is Some ==> final(self).progressed_from(*old(self)),
            r is None ==> final(self).cur_char() is None,
            r is Some ==> (final(self).cur_char() matches Some(c) && !spec_is_white_space(c)),
            r is Some ==> forall|j: int|
                old(self).index() < j < final(self).index() ==> spec_is_white_space(
                    #[trigger] final(self).text()[j],
                ),
    {
        loop
            invariant_except_break
                self.advanced_from(*old(self)),
                self.index() >= old(self).index(),
                self.consumed() > old(self).consumed() || *self == *old(self),
                forall|j: int|
                    old(self).index() < j <= self.index() && j < self.text().len()
                        ==> spec_is_white_space(#[trigger] self.text()[j]),
            ensures
                self.advanced_from(*old(self)),
                forall|j: int| old(self).index() < j < self.index() && j < self.text().len() ==> spec_is_white_space(#[trigger] self.text()[j]),
                old(self).cur_char() is Some ==> self.consumed() > old(self).consumed(),
                self.cur_char() matches Some(c) && !spec_is_white_space(c),
                forall|j: int|
                    old(self).index() < j < self.index() ==> spec_is_white_space(
                        #[trigger] self.text()[j],
                    ),
            decreases self.text().len() + 3 - self.consumed(),
        {
            let c = self.consume()?;
            if !is_white_space(c) {
                break ;
            }
        }
        Some(())
    }

    /// Skips the digits that follow the cursor; the cursor ends on the first
    /// non-digit, or past the end.
    fn consume_digits(&mut self)
        requires
            old(self).wf(),
        ensures
            0 <= old(self).index() < old(self).text().len() ==> final(self).index() == digits_end(old(self).text(), old(self).index() + 1),
            final(self).advanced_from(*old(self)),
            old(self).consumed() < old(self).text().len() + 3 ==> final(self).progressed_from(
                *old(self),
            ),
            final(self).cur_char() matches Some(c) ==> !spec_is_digit(c),
    {
        loop
            invariant_except_break
                self.advanced_from(*old(self)),
                old(self).consumed() < old(self).text().len() + 3 ==> self.consumed() > old(self).consumed()
                    || self.consumed() == old(self).consumed(),
                0 <= old(self).index() < old(self).text().len() ==> (self.index() == old(self).index() || (
                    self.index() > old(self).index() && (self.cur_char() matches Some(c) && spec_is_digit(c))
                    && digits_end(self.text(), self.index()) == digits_end(old(self).text(), old(self).index() + 1))),
            ensures
                self.advanced_from(*old(self)),
                0 <= old(self).index() < old(self).text().len() ==> self.index() == digits_end(old(self).text(), old(self).index() + 1),
                old(self).consumed() < old(self).text().len() + 3 ==> self.consumed() > old(self).consumed(),
                self.cur_char() matches Some(c) ==> !spec_is_digit(c),
            decreases self.text().len() + 3 - self.consumed(),
        {
            let ghost before = *self;
            let next = self.consume();
            proof {
                if 0 <= old(self).index() < old(self).text().len() {
                    let t = self.text();
                    if before.index() > old(self).index() {
                        assert(digits_end(t, before.index()) == digits_end(t, before.index() + 1));
                    }
                    if next is None {
                        assert(self.index() >= t.len());
                    }
                }
            }
            match next {
                Some(c) => {
                    if !is_digit(c) {
                        break ;
                    }
                },
                None => break ,
            }
        }
    }

    /// Skips a numeric token, with its unit or `%`.
    pub fn consume_numeric_token(&mut self) -> (r: Option<()>)
        requires
            old(self).wf(),
        ensures
            old(self).cur_char() is Some && r is None ==> final(self).peek2_char() is None,
            old(self).cur_char() is Some && number_end(old(self).text(), old(self).index()) + 2 >= old(self).text().len() ==> final(self).index() == number_end(old(self).text(), old(self).index()),
            old(self).cur_char() is Some && number_end(old(self).text(), old(self).index()) + 2 < old(self).text().len() && !spec_start_ident_sequence(old(self).text()[number_end(old(self).text(), old(self).index())], old(self).text()[number_end(old(self).text(), old(self).index()) + 1], old(self).text()[number_end(old(self).text(), old(self).index()) + 2]) ==> final(self).index() == (if old(self).text()[number_end(old(self).text(), old(self).index())] == '%' { number_end(old(self).text(), old(self).index()) + 1 } else { number_end(old(self).text(), old(self).index()) }),
            old(self).cur_char() is Some && number_end(old(self).text(), old(self).index()) + 2 < old(self).text().len() && spec_start_ident_sequence(old(self).text()[number_end(old(self).text(), old(self).index())], old(self).text()[number_end(old(self).text(), old(self).index()) + 1], old(self).text()[number_end(old(self).text(), old(self).index()) + 2]) ==> final(self).index() > number_end(old(self).text(), old(self).index()) && ident_run(old(self).text(), number_end(old(self).text(), old(self).index()), final(self).index()),
            final(self).advanced_from(*old(self)),
            old(self).cur_char() is Some ==> final(self).progressed_from(*old(self)),
    {
        self.consume_number()?;
        let c = self.cur()?;
        if start_ident_sequence(c, self.peek()?, self.peek2()?) {
            return self.consume_ident_sequence();
        }
        if c == C_PERCENTAGE {
            let _ = self.consume()?;
        }
        Some(())
    }

    /// Skips a number: digits, a fraction and an exponent.
    pub fn consume_number(&mut self) -> (r: Option<()>)
        requires
            old(self).wf(),
        ensures
            old(self).cur_char() is Some && r is None ==> final(self).peek2_char() is None,
            old(self).cur_char() is Some && r is None ==> final(self).index() + 2 >= final(self).text().len(),
            old(self).cur_char() is Some ==> final(self).index() == number_end(old(self).text(), old(self).index()),
            final(self).advanced_from(*old(self)),
            old(self).cur_char() is Some ==> final(self).progressed_from(*old(self)),
    {
        self.consume_digits();
        if self.cur()? == C_FULL_STOP && is_digit(self.peek()?) {
            let _ = self.consume()?;
            self.consume_digits();
        }
        let c = self.cur()?;
        if c == C_LOWER_E || c == C_UPPER_E {
            let c = self.peek()?;
            if is_digit(c) {
                let _ = self.consume()?;
            } else if c == C_HYPHEN_MINUS || c == C_PLUS_SIGN {
                let c = self.peek2()?;
                if is_digit(c) {
                    let _ = self.consume()?;
                    let _ = self.consume()?;
                } else {
                    return Some(());
                }
            } else {
                return Some(());
            }
        } else {
            return Some(());
        }
        self.consume_digits();
        Some(())
    }

    /// Skips the identifier characters and escapes that start under the cursor.
    pub fn consume_ident_sequence(&mut self) -> (r: Option<()>)
        requires
            old(self).wf(),
        ensures
            old(self).cur_char() is Some && r is None ==> final(self).peek2_char() is None,
            ident_run(final(self).text(), old(self).index(), final(self).index()),
            old(self).cur_char() matches Some(c) && (spec_is_ident(c) || c == '\\') ==> final(self).progressed_from(*old(self)),
            r is None ==> final(self).cur_char() is None,
            final(self).advanced_from(*old(self)),
            r is Some ==> (final(self).cur_char() matches Some(c) && !spec_is_ident(c) && c != '\\'),
    {
        loop
            invariant
                self.advanced_from(*old(self)),
                old(self).wf(),
                old(self).cur_char() matches Some(c) && (spec_is_ident(c) || c == '\\')
                    ==> self.consumed() > old(self).consumed() || *self == *old(self),
                ident_run(self.text(), old(self).index(), self.index()),
            decreases self.text().len() + 3 - self.consumed(),
        {
            let c = self.cur()?;
            if maybe_valid_escape(c) {
                let _ = self.consume()?;
                self.consume_escaped()?;
            } else if is_ident(c) {
                let _ = self.consume()?;
            } else {
                return Some(());
            }
        }
    }

    /// Skips the body of an escape (after its `\`): up to six hex digits and a
    /// white space, or one character.
    pub fn consume_escaped(&mut self) -> (r: Option<()>)
        requires
            old(self).wf(),
        ensures
            old(self).cur_char() is Some && r is None ==> final(self).peek2_char() is None,
            old(self).cur_char() is Some ==> final(self).index() == escape_end(old(self).text(), old(self).index()),
            old(self).cur_char() is Some ==> final(self).progressed_from(*old(self)),
            r is None ==> final(self).cur_char() is None,
            final(self).advanced_from(*old(self)),
    {
        if is_hex_digit(self.cur()?) {
            let mut i: u32 = 1;
            while i < 5
                invariant
                    self.advanced_from(*old(self)),
                    1 <= i <= 5,
                    self.consumed() > old(self).consumed() || (i == 1 && *self == *old(self)),
                    old(self).cur_char() is Some,
                    old(self).wf(),
                    spec_is_hex_digit(old(self).cur_char().unwrap()),
                    i < 5 ==> self.index() == old(self).index() + i - 1 && self.cur_char() is Some && spec_is_hex_digit(self.cur_char().unwrap())
                        && hex_digits_end(self.text(), self.index() + 1, old(self).index() + 4) == hex_digits_end(self.text(), old(self).index() + 1, old(self).index() + 4),
                    i == 5 ==> self.index() == hex_digits_end(self.text(), old(self).index() + 1, old(self).index() + 4),
                decreases 5 - i,
            {
                let ghost before = *self;
                let next = self.consume();
                proof {
                    let t = self.text();
                    assert(self.index() == before.index() + 1);
                    if next is None {
                        assert(self.index() >= t.len());
                        assert(hex_digits_end(t, self.index(), old(self).index() + 4) == self.index());
                        assert(hex_digits_end(t, before.index() + 1, old(self).index() + 4) == hex_digits_end(t, old(self).index() + 1, old(self).index() + 4));
                        assert(t == old(self).text());
                        assert(spec_is_hex_digit(old(self).text()[old(self).index()]));
                        assert(hex_digits_end(old(self).text(), old(self).index() + 1, old(self).index() + 4) == self.index());
                        assert(escape_end(old(self).text(), old(self).index()) == self.index());
                    }
                }
                let c = next?;
                if !is_hex_digit(c) {
                    i = 5;
                } else {
                    i = i + 1;
                }
            }
            if is_white_space(self.cur()?) {
                let _ = self.consume()?;
            }
        } else {
            let _ = self.consume()?;
        }
        Some(())
    }
}


impl<'s> Lexer<'s> {
    /// Lexes the whole text, reporting its tokens to `visitor`.
    pub fn lex<T: Visitor<'s>>(&mut self, visitor: &mut T)
        requires
            old(self).wf(),
            old(visitor).inv(old(self).input()),
        ensures
            final(self).peek2_char() is None || final(visitor).halted(),
            old(visitor).halted() ==> final(visitor).halted(),
            forall|i: int, j: int| old(self).tokens().len() <= i < j < final(self).tokens().len() ==> token_start(#[trigger] final(self).tokens()[i]) <= token_start(#[trigger] final(self).tokens()[j]),
            forall|k: int| #![trigger id_at(old(self).text(), 0, k)] old(self).consumed() == 2 && old(visitor).selecting() && id_at(old(self).text(), 0, k) ==> final(self).tokens().len() > old(self).tokens().len() && final(self).tokens()[old(self).tokens().len() as int] == (Token::Id { start: 0, end: byte_offset(old(self).text(), k) as u32 }),
            forall|k: int| #![trigger class_at(old(self).text(), 0, k)] old(self).consumed() == 2 && old(visitor).selecting() && class_at(old(self).text(), 0, k) ==> final(self).tokens().len() > old(self).tokens().len() && final(self).tokens()[old(self).tokens().len() as int] == (Token::Class { start: 0, end: byte_offset(old(self).text(), k) as u32 }),
            old(visitor).pristine() && final(self).tokens().len() > old(self).tokens().len() && (final(self).tokens()[old(self).tokens().len() as int] is Class || final(self).tokens()[old(self).tokens().len() as int] is Id) ==> final(visitor).first_handled(final(self).tokens()[old(self).tokens().len() as int], old(self).input()),
            forall|k: int| #![trigger at_keyword_at(old(self).text(), 0, k)] old(self).consumed() == 2 && at_keyword_at(old(self).text(), 0, k) ==> final(self).tokens().len() > old(self).tokens().len() && final(self).tokens()[old(self).tokens().len() as int] == (Token::AtKeyword { start: 0, end: byte_offset(old(self).text(), k) as u32 }),
            forall|t: Token| old(visitor).handled(t, old(self).input()) ==> #[trigger] final(visitor).handled(t, old(self).input()),
            forall|t: Token| old(visitor).first_handled(t, old(self).input()) ==> #[trigger] final(visitor).first_handled(t, old(self).input()),
            final(self).tokens() == old(self).tokens() ==> final(visitor).pristine() == old(visitor).pristine() && final(visitor).selecting() == old(visitor).selecting(),
            forall|i: int| old(self).tokens().len() <= i < final(self).tokens().len() ==> final(visitor).handled(#[trigger] final(self).tokens()[i], old(self).input()),
            old(self).consumed() == 2 && old(self).peek_char() is Some && punctuation_token(old(self).peek_char().unwrap(), 0) is Some ==> final(self).tokens().len() > old(self).tokens().len() && final(self).tokens()[old(self).tokens().len() as int] == punctuation_token(old(self).peek_char().unwrap(), 0).unwrap(),
            old(self).consumed() < old(self).text().len() + 3 ==> final(self).lexed_on_from(*old(self)),
            final(self).lexed_from(*old(self)),
            final(visitor).inv(final(self).input()),
            final(visitor).frame() == old(visitor).frame(),
    {
        let _ = self.lex_impl(visitor);
    }

    #[verifier::spinoff_prover]
    #[verifier::rlimit(80)]
    fn lex_impl<T: Visitor<'s>>(&mut self, visitor: &mut T) -> (r: Option<()>)
        requires
            old(self).wf(),
            old(visitor).inv(old(self).input()),
        ensures
            final(self).peek2_char() is None || final(visitor).halted(),
            old(visitor).halted() ==> final(visitor).halted(),
            forall|i: int, j: int| old(self).tokens().len() <= i < j < final(self).tokens().len() ==> token_start(#[trigger] final(self).tokens()[i]) <= token_start(#[trigger] final(self).tokens()[j]),
            forall|k: int| #![trigger id_at(old(self).text(), 0, k)] old(self).consumed() == 2 && old(visitor).selecting() && id_at(old(self).text(), 0, k) ==> final(self).tokens().len() > old(self).tokens().len() && final(self).tokens()[old(self).tokens().len() as int] == (Token::Id { start: 0, end: byte_offset(old(self).text(), k) as u32 }),
            forall|k: int| #![trigger class_at(old(self).text(), 0, k)] old(self).consumed() == 2 && old(visitor).selecting() && class_at(old(self).text(), 0, k) ==> final(self).tokens().len() > old(self).tokens().len() && final(self).tokens()[old(self).tokens().len() as int] == (Token::Class { start: 0, end: byte_offset(old(self).text(), k) as u32 }),
            old(visitor).pristine() && final(self).tokens().len() > old(self).tokens().len() && (final(self).tokens()[old(self).tokens().len() as int] is Class || final(self).tokens()[old(self).tokens().len() as int] is Id) ==> final(visitor).first_handled(final(self).tokens()[old(self).tokens().len() as int], old(self).input()),
            forall|k: int| #![trigger at_keyword_at(old(self).text(), 0, k)] old(self).consumed() == 2 && at_keyword_at(old(self).text(), 0, k) ==> final(self).tokens().len() > old(self).tokens().len() && final(self).tokens()[old(self).tokens().len() as int] == (Token::AtKeyword { start: 0, end: byte_offset(old(self).text(), k) as u32 }),
            forall|t: Token| old(visitor).handled(t, old(self).input()) ==> #[trigger] final(visitor).handled(t, old(self).input()),
            forall|t: Token| old(visitor).first_handled(t, old(self).input()) ==> #[trigger] final(visitor).first_handled(t, old(self).input()),
            final(self).tokens() == old(self).tokens() ==> final(visitor).pristine() == old(visitor).pristine() && final(visitor).selecting() == old(visitor).selecting(),
            forall|i: int| old(self).tokens().len() <= i < final(self).tokens().len() ==> final(visitor).handled(#[trigger] final(self).tokens()[i], old(self).input()),
            old(self).consumed() == 2 && old(self).peek_char() is Some && punctuation_token(old(self).peek_char().unwrap(), 0) is Some ==> final(self).tokens().len() > old(self).tokens().len() && final(self).tokens()[old(self).tokens().len() as int] == punctuation_token(old(self).peek_char().unwrap(), 0).unwrap(),
            r is Some ==> final(self).cur_char() is None,
            old(self).consumed() < old(self).text().len() + 3 ==> final(self).lexed_on_from(*old(self)),
            final(self).lexed_from(*old(self)),
            final(visitor).inv(final(self).input()),
            final(visitor).frame() == old(visitor).frame(),
    {
        let _ = self.consume()?;
        while self.cur().is_some()
            invariant
                self.lexed_from(*old(self)),
                old(self).wf(),
                old(visitor).halted() ==> visitor.halted(),
                self.index() >= 0,
                forall|i: int, j: int| old(self).tokens().len() <= i < j < self.tokens().len() ==> token_start(#[trigger] self.tokens()[i]) <= token_start(#[trigger] self.tokens()[j]),
                forall|i: int| old(self).tokens().len() <= i < self.tokens().len() ==> token_start(#[trigger] self.tokens()[i]) <= byte_offset(self.text(), self.index()),
                forall|k: int| #![trigger id_at(old(self).text(), 0, k)] old(self).consumed() == 2 && old(visitor).selecting() && id_at(old(self).text(), 0, k) && self.consumed() > 3 ==> self.tokens().len() > old(self).tokens().len() && self.tokens()[old(self).tokens().len() as int] == (Token::Id { start: 0, end: byte_offset(old(self).text(), k) as u32 }),
                forall|k: int| #![trigger class_at(old(self).text(), 0, k)] old(self).consumed() == 2 && old(visitor).selecting() && class_at(old(self).text(), 0, k) && self.consumed() > 3 ==> self.tokens().len() > old(self).tokens().len() && self.tokens()[old(self).tokens().len() as int] == (Token::Class { start: 0, end: byte_offset(old(self).text(), k) as u32 }),
                old(visitor).pristine() && self.tokens().len() > old(self).tokens().len() && (self.tokens()[old(self).tokens().len() as int] is Class || self.tokens()[old(self).tokens().len() as int] is Id) ==> visitor.first_handled(self.tokens()[old(self).tokens().len() as int], old(self).input()),
                forall|k: int| #![trigger at_keyword_at(old(self).text(), 0, k)] old(self).consumed() == 2 && at_keyword_at(old(self).text(), 0, k) && self.consumed() > 3 ==> self.tokens().len() > old(self).tokens().len() && self.tokens()[old(self).tokens().len() as int] == (Token::AtKeyword { start: 0, end: byte_offset(old(self).text(), k) as u32 }),
                forall|t: Token| old(visitor).handled(t, old(self).input()) ==> #[trigger] visitor.handled(t, old(self).input()),
                forall|t: Token| old(visitor).first_handled(t, old(self).input()) ==> #[trigger] visitor.first_handled(t, old(self).input()),
                self.tokens() == old(self).tokens() ==> visitor.pristine() == old(visitor).pristine() && visitor.selecting() == old(visitor).selecting(),
                forall|i: int| old(self).tokens().len() <= i < self.tokens().len() ==> visitor.handled(#[trigger] self.tokens()[i], old(self).input()),
                self.consumed() == 3 && old(self).consumed() == 2 ==> self.tokens() == old(self).tokens(),
                old(self).consumed() == 2 && old(self).peek_char() is Some && punctuation_token(old(self).peek_char().unwrap(), 0) is Some && self.consumed() > 3 ==> self.tokens().len() > old(self).tokens().len() && self.tokens()[old(self).tokens().len() as int] == punctuation_token(old(self).peek_char().unwrap(), 0).unwrap(),
                old(self).consumed() < old(self).text().len() + 3 ==> self.consumed() > old(
                    self,
                ).consumed(),
                visitor.inv(self.input()),
                visitor.frame() == old(visitor).frame(),
            decreases self.text().len() + 3 - self.consumed(),
        {
            proof {
                if self.tokens().len() == old(self).tokens().len() {
                    assert(self.tokens() =~= old(self).tokens());
                }
                if self.consumed() == 3 && old(self).consumed() == 2 {
                    assert(self.index() == 0 && old(self).index() == -1);
                    assert(self.cur_char() == char_at(self.text(), 0));
                    assert(old(self).peek_char() == char_at(old(self).text(), 0));
                    assert(self.cur_char() is Some ==> self.cur_position() == Some(0u32));
                    if self.cur_char() is Some && punctuation_token(self.cur_char().unwrap(), 0) is Some {
                        assert(char_width(self.cur_char().unwrap()) == 1);
                        assert(self.peek_position() == Some(1u32));
                    }
                }
            }
            let ghost iter = *self;
            self.consume_comments()?;
            proof {
                self.lemma_cursor_mono(iter);
            }
            let c = self.cur()?;
            if c <= '\u{7f}' {
                match c {
                    c if is_white_space(c) => self.consume_space()?,
                    C_QUOTATION_MARK => self.consume_string(visitor, C_QUOTATION_MARK)?,
                    C_NUMBER_SIGN => self.consume_number_sign(visitor)?,
                    C_APOSTROPHE => self.consume_string(visitor, C_APOSTROPHE)?,
                    C_LEFT_PARENTHESIS => self.consume_left_parenthesis(visitor)?,
                    C_RIGHT_PARENTHESIS => self.consume_right_parenthesis(visitor)?,
                    C_PLUS_SIGN => self.consume_plus_sign()?,
                    C_COMMA => self.consume_comma(visitor)?,
                    C_HYPHEN_MINUS => self.consume_minus(visitor)?,
                    C_FULL_STOP => self.consume_full_stop(visitor)?,
                    C_COLON => self.consume_potential_pseudo(visitor)?,
                    C_SEMICOLON => self.consume_semicolon(visitor)?,
                    C_LESS_THAN_SIGN => self.consume_less_than_sign()?,
                    C_AT_SIGN => self.consume_at_sign(visitor)?,
                    C_LEFT_SQUARE => self.consume_delim()?,
                    C_REVERSE_SOLIDUS => self.consume_reverse_solidus(visitor)?,
                    C_RIGHT_SQUARE => self.consume_delim()?,
                    C_LEFT_CURLY => self.consume_left_curly(visitor)?,
                    C_RIGHT_CURLY => self.consume_right_curly(visitor)?,
                    c if is_digit(c) => self.consume_numeric_token()?,
                    c if is_ident_start(c) => self.consume_ident_like(visitor)?,
                    _ => self.consume_delim()?,
                }
            } else if is_ident_start(c) {
                self.consume_ident_like(visitor)?;
            } else {
                self.consume_delim()?;
            }
            proof {
                self.lemma_cursor_mono(iter);
            }
        }
        Some(())
    }

    /// Lexes an identifier, a function name or a `url(...)` token starting under the cursor.
    #[verifier::rlimit(100)]
    pub fn consume_ident_like<T: Visitor<'s>>(&mut self, visitor: &mut T) -> (r: Option<()>)
        requires
            old(self).wf(),
            old(visitor).inv(old(self).input()),
        ensures
            old(self).cur_char() is Some && r is None ==> final(self).peek2_char() is None || final(visitor).halted(),
            old(visitor).halted() ==> final(visitor).halted(),
            old(self).cur_char() is Some ==> forall|i: int| old(self).tokens().len() <= i < final(self).tokens().len() ==> byte_offset(old(self).text(), old(self).index()) <= token_start(#[trigger] final(self).tokens()[i]) <= byte_offset(old(self).text(), final(self).index()),
            final(self).tokens().len() <= old(self).tokens().len() + 1,
            forall|t: Token| old(visitor).handled(t, old(self).input()) ==> #[trigger] final(visitor).handled(t, old(self).input()),
            forall|t: Token| old(visitor).first_handled(t, old(self).input()) ==> #[trigger] final(visitor).first_handled(t, old(self).input()),
            final(self).tokens() == old(self).tokens() ==> final(visitor).pristine() == old(visitor).pristine() && final(visitor).selecting() == old(visitor).selecting(),
            forall|i: int| old(self).tokens().len() <= i < final(self).tokens().len() ==> final(visitor).handled(#[trigger] final(self).tokens()[i], old(self).input()),
            final(self).tokens() == old(self).tokens() || (final(self).tokens() == old(self).tokens().push(final(self).tokens().last()) && token_start(final(self).tokens().last()) == old(self).cur_position().unwrap() && (final(self).tokens().last() is Function || final(self).tokens().last() is Ident || final(self).tokens().last() is Url)),
            old(self).cur_char() matches Some(c) && (spec_is_ident(c) || c == '\\') ==> final(self).lexed_on_from(*old(self)),
            final(self).lexed_from(*old(self)),
            final(visitor).inv(final(self).input()),
            final(visitor).frame() == old(visitor).frame(),
    {
        proof {
            if old(self).cur_char() is Some {
                old(self).lemma_cur_offset();
            }
        }
        let start = self.cur_pos()?;
        self.consume_ident_sequence()?;
        let peek_pos = self.peek_pos()?;
        proof {
            self.lemma_positions();
            if old(self).cur_char() is Some && self.cur_char() is Some {
                let t = self.text();
                lemma_byte_offset_boundary(t, old(self).index());
                lemma_byte_offset_boundary(t, self.index() + 1);
                lemma_byte_offset_mono(t, old(self).index(), self.index() + 1);
                lemma_byte_offset_mono(t, self.index() + 1, t.len() as int);
                lemma_encode_utf8_len(t);
            }
        }
        let cur_pos = self.cur_pos()?;
        if cur_pos as u64 == start as u64 + 3 && eq_ignore_ascii_case(
            self.slice(start, peek_pos)?,
            "url(",
        ) {
            self.consume_space_after()?;
            let c = self.cur()?;
            if c == C_QUOTATION_MARK || c == C_APOSTROPHE {
                {
                proof {
                    self.tokens@ = self.tokens@.push(Token::Function { start: start, end: peek_pos });
                }
                let r = visitor.function(self, start, peek_pos);
                proof {
                    self.lemma_cursor_mono(*old(self));
                }
                r
            }
            } else {
                let r = self.consume_url(visitor, start);
                proof {
                    self.lemma_cursor_mono(*old(self));
                }
                r
            }
        } else if self.cur()? == C_LEFT_PARENTHESIS {
            let _ = self.consume()?;
            let end = self.cur_pos()?;
            {
                proof {
                    self.tokens@ = self.tokens@.push(Token::Function { start: start, end: end });
                }
                let r = visitor.function(self, start, end);
                proof {
                    self.lemma_cursor_mono(*old(self));
                }
                r
            }
        } else {
            {
                proof {
                    self.tokens@ = self.tokens@.push(Token::Ident { start: start, end: cur_pos });
                }
                let r = visitor.ident(self, start, cur_pos);
                proof {
                    self.lemma_cursor_mono(*old(self));
                }
                r
            }
        }
    }

    /// Moves the cursor forward until it is on a character that is not white space.
    fn consume_space_after(&mut self) -> (r: Option<()>)
        requires
            old(self).wf(),
        ensures
            old(self).cur_char() is Some && r is None ==> final(self).peek2_char() is None,
            old(self).cur_char() is Some ==> final(self).progressed_from(*old(self)),
            r is None ==> final(self).cur_char() is None,
            final(self).advanced_from(*old(self)),
            r is Some ==> (final(self).cur_char() matches Some(c) && !spec_is_white_space(c)),
    {
        loop
            invariant_except_break
                self.advanced_from(*old(self)),
                self.consumed() > old(self).consumed() || *self == *old(self),
            ensures
                self.advanced_from(*old(self)),
                old(self).cur_char() is Some ==> self.consumed() > old(self).consumed(),
                self.cur_char() matches Some(c) && !spec_is_white_space(c),
            decreases self.text().len() + 3 - self.consumed(),
        {
            let c = self.consume()?;
            if !is_white_space(c) {
                break ;
            }
        }
        Some(())
    }

    /// Lexes the unquoted content and the `)` of a `url(` token.
    pub fn consume_url<T: Visitor<'s>>(&mut self, visitor: &mut T, start: Pos) -> (r: Option<()>)
        requires
            old(self).wf(),
            old(visitor).inv(old(self).input()),
            start <= old(self).total(),
        ensures
            old(self).cur_char() is Some && r is None ==> final(self).peek2_char() is None || final(visitor).halted(),
            old(visitor).halted() ==> final(visitor).halted(),
            forall|t: Token| old(visitor).handled(t, old(self).input()) ==> #[trigger] final(visitor).handled(t, old(self).input()),
            forall|t: Token| old(visitor).first_handled(t, old(self).input()) ==> #[trigger] final(visitor).first_handled(t, old(self).input()),
            final(self).tokens() == old(self).tokens() ==> final(visitor).pristine() == old(visitor).pristine() && final(visitor).selecting() == old(visitor).selecting(),
            forall|i: int| old(self).tokens().len() <= i < final(self).tokens().len() ==> final(visitor).handled(#[trigger] final(self).tokens()[i], old(self).input()),
            final(self).tokens() == old(self).tokens() || (final(self).tokens() == old(self).tokens().push(final(self).tokens().last()) && token_start(final(self).tokens().last()) == start && (final(self).tokens().last() is Url)),
            old(self).cur_char() matches Some(c) && c != '(' ==> final(self).lexed_on_from(*old(self)),
            old(self).cur_is('(') ==> r is Some && *final(self) == *old(self) && *final(visitor) == *old(visitor),
            final(self).lexed_from(*old(self)),
            final(visitor).inv(final(self).input()),
            final(visitor).frame() == old(visitor).frame(),
    {
        let content_start = self.cur_pos()?;
        loop
            invariant
                self.advanced_from(*old(self)),
                content_start <= self.total(),
                start <= self.total(),
                self.consumed() > old(self).consumed() || *self == *old(self),
                old(self).cur_is('(') ==> *self == *old(self),
                visitor.inv(self.input()),
                visitor.frame() == old(visitor).frame(),
                *visitor == *old(visitor),
                old(self).wf(),
            decreases self.text().len() + 3 - self.consumed(),
        {
            let c = self.cur()?;
            if maybe_valid_escape(c) {
                let _ = self.consume()?;
                self.consume_escaped()?;
            } else if is_white_space(c) {
                let content_end = self.cur_pos()?;
                self.consume_space_after()?;
                if self.cur()? != C_RIGHT_PARENTHESIS {
                    return Some(());
                }
                let _ = self.consume()?;
                let end = self.cur_pos()?;
                return {
                    proof {
                        self.tokens@ = self.tokens@.push(Token::Url { start, end, content_start, content_end });
                    }
                    visitor.url(self, start, end, content_start, content_end)
                };
            } else if c == C_RIGHT_PARENTHESIS {
                let content_end = self.cur_pos()?;
                let _ = self.consume()?;
                let end = self.cur_pos()?;
                return {
                    proof {
                        self.tokens@ = self.tokens@.push(Token::Url { start, end, content_start, content_end });
                    }
                    visitor.url(self, start, end, content_start, content_end)
                };
            } else if c == C_LEFT_PARENTHESIS {
                return Some(());
            } else {
                let _ = self.consume()?;
            }
        }
    }

    /// Moves the cursor past a string whose opening quote is under it; returns
    /// the byte offsets of the opening quote and of the cursor after the string.
    pub fn skip_string(&mut self, end: char) -> (r: Option<(Pos, Pos)>)
        requires
            old(self).wf(),
        ensures
            old(self).cur_char() is Some ==> final(self).progressed_from(*old(self)),
            r is None ==> final(self).cur_char() is None,
            final(self).advanced_from(*old(self)),
            r matches Some((a, b)) ==> a <= final(self).total() && b <= final(self).total()
                && old(self).cur_position() == Some(a) && final(self).cur_position() == Some(b),
    {
        let start = self.cur_pos()?;
        loop
            invariant_except_break
                self.advanced_from(*old(self)),
                self.consumed() > old(self).consumed() || *self == *old(self),
            ensures
                self.advanced_from(*old(self)),
                old(self).cur_char() is Some ==> self.consumed() > old(self).consumed(),
            decreases self.text().len() + 3 - self.consumed(),
        {
            match self.consume() {
                Some(c) => {
                    if c == end {
                        let _ = self.consume()?;
                        break ;
                    }
                    if is_new_line(c) {
                        break ;
                    }
                    if c == C_REVERSE_SOLIDUS {
                        let c2 = self.consume()?;
                        if is_new_line(c2) {
                            let _ = self.consume()?;
                        } else if are_valid_escape(c, c2) {
                            self.consume_escaped()?;
                        }
                    }
                },
                None => break ,
            }
        }
        let stop = self.cur_pos()?;
        Some((start, stop))
    }

    /// Lexes a string whose opening quote (`end`) is under the cursor.
    pub fn consume_string<T: Visitor<'s>>(&mut self, visitor: &mut T, end: char) -> (r: Option<
        (),
    >)
        requires
            old(self).wf(),
            old(visitor).inv(old(self).input()),
        ensures
            old(self).cur_char() is Some && r is None ==> final(self).peek2_char() is None || final(visitor).halted(),
            old(visitor).halted() ==> final(visitor).halted(),
            old(self).cur_char() is Some ==> forall|i: int| old(self).tokens().len() <= i < final(self).tokens().len() ==> byte_offset(old(self).text(), old(self).index()) <= token_start(#[trigger] final(self).tokens()[i]) <= byte_offset(old(self).text(), final(self).index()),
            final(self).tokens().len() <= old(self).tokens().len() + 1,
            forall|t: Token| old(visitor).handled(t, old(self).input()) ==> #[trigger] final(visitor).handled(t, old(self).input()),
            forall|t: Token| old(visitor).first_handled(t, old(self).input()) ==> #[trigger] final(visitor).first_handled(t, old(self).input()),
            final(self).tokens() == old(self).tokens() ==> final(visitor).pristine() == old(visitor).pristine() && final(visitor).selecting() == old(visitor).selecting(),
            forall|i: int| old(self).tokens().len() <= i < final(self).tokens().len() ==> final(visitor).handled(#[trigger] final(self).tokens()[i], old(self).input()),
            final(self).tokens() == old(self).tokens() || (final(self).tokens() == old(self).tokens().push(final(self).tokens().last()) && token_start(final(self).tokens().last()) == old(self).cur_position().unwrap() && (final(self).tokens().last() is Str)),
            final(self).tokens() == old(self).tokens() ==> final(self).cur_char() is None,
            old(self).cur_char() is Some ==> final(self).lexed_on_from(*old(self)),
            final(self).lexed_from(*old(self)),
            final(visitor).inv(final(self).input()),
            final(visitor).frame() == old(visitor).frame(),
    {
        proof {
            if old(self).cur_char() is Some {
                old(self).lemma_cur_offset();
            }
        }
        let (start, stop) = self.skip_string(end)?;
        {
                proof {
                    self.tokens@ = self.tokens@.push(Token::Str { start: start, end: stop });
                }
                let r = visitor.string(self, start, stop);
                proof {
                    self.lemma_cursor_mono(*old(self));
                }
                r
            }
    }

    /// Lexes a `#`: an id selector when the visitor is in a selector, else a delimiter.
    #[verifier::rlimit(40)]
    #[verifier::spinoff_prover]
    #[verifier::rlimit(60)]
    pub fn consume_number_sign<T: Visitor<'s>>(&mut self, visitor: &mut T) -> (r: Option<()>)
        requires
            old(self).wf(),
            old(visitor).inv(old(self).input()),
        ensures
            forall|k: int| #![trigger id_at(old(self).text(), old(self).index(), k)] old(visitor).selecting() && id_at(old(self).text(), old(self).index(), k) ==> final(self).tokens().len() > old(self).tokens().len() && final(self).tokens()[old(self).tokens().len() as int] == (Token::Id { start: old(self).cur_position().unwrap(), end: byte_offset(old(self).text(), k) as u32 }),
            old(visitor).pristine() && final(self).tokens().len() > old(self).tokens().len() ==> final(visitor).first_handled(final(self).tokens()[old(self).tokens().len() as int], old(self).input()),
            old(self).cur_char() is Some && r is None ==> final(self).peek2_char() is None || final(visitor).halted(),
            old(visitor).halted() ==> final(visitor).halted(),
            old(self).cur_char() is Some ==> forall|i: int| old(self).tokens().len() <= i < final(self).tokens().len() ==> byte_offset(old(self).text(), old(self).index()) <= token_start(#[trigger] final(self).tokens()[i]) <= byte_offset(old(self).text(), final(self).index()),
            final(self).tokens().len() <= old(self).tokens().len() + 1,
            forall|t: Token| old(visitor).handled(t, old(self).input()) ==> #[trigger] final(visitor).handled(t, old(self).input()),
            forall|t: Token| old(visitor).first_handled(t, old(self).input()) ==> #[trigger] final(visitor).first_handled(t, old(self).input()),
            final(self).tokens() == old(self).tokens() ==> final(visitor).pristine() == old(visitor).pristine() && final(visitor).selecting() == old(visitor).selecting(),
            forall|i: int| old(self).tokens().len() <= i < final(self).tokens().len() ==> final(visitor).handled(#[trigger] final(self).tokens()[i], old(self).input()),
            final(self).tokens() == old(self).tokens() || (final(self).tokens() == old(self).tokens().push(final(self).tokens().last()) && token_start(final(self).tokens().last()) == old(self).cur_position().unwrap() && (final(self).tokens().last() is Id)),
            old(self).cur_char() is Some && r is Some ==> final(self).lexed_on_from(*old(self)),
            old(self).cur_char() is Some && old(self).peek2_char() is Some ==> final(self).lexed_on_from(*old(self)),
            old(self).peek_char() is None ==> r is None && *final(self) == *old(self) && *final(visitor) == *old(visitor),
            final(self).lexed_from(*old(self)),
            final(visitor).inv(final(self).input()),
            final(visitor).frame() == old(visitor).frame(),
    {
        proof {
            if old(self).cur_char() is Some {
                old(self).lemma_cur_offset();
            }
        }
        let c2 = self.peek()?;
        let starts = if is_ident(c2) {
            true
        } else {
            are_valid_escape(c2, self.peek2()?)
        };
        if starts {
            let start = self.cur_pos()?;
            let c = self.consume()?;
            if visitor.is_selector(self)? {
                if start_ident_sequence(c, self.peek()?, self.peek2()?) {
                    let ghost name_start = *self;
                    let named = self.consume_ident_sequence();
                    proof {
                        assert(name_start.index() == old(self).index() + 1);
                        assert forall|k: int| #[trigger] id_at(old(self).text(), old(self).index(), k) implies self.index() == k && self.cur_char() is Some by {
                            lemma_name_end(self.text(), old(self).index(), k, self.index());
                        }
                    }
                    named?;
                    let end = self.cur_pos()?;
                    proof {
                        let j = self.index();
                        lemma_byte_offset_mono(self.text(), j, self.text().len() as int);
                        assert(end == byte_offset(self.text(), j));
                    }
                    return {
                proof {
                    self.tokens@ = self.tokens@.push(Token::Id { start: start, end: end });
                }
                let r = visitor.id(self, start, end);
                proof {
                    self.lemma_cursor_mono(*old(self));
                }
                r
            };
                }
            }
        } else {
            return self.consume_delim();
        }
        Some(())
    }

    /// The cursor, once moved past one character, is at byte `end > 0`.
    proof fn lemma_end_after_consume(self, old: Lexer<'s>)
        requires
            old.wf(),
            self.wf(),
            old.cur_char() is Some,
            self.cur_position() == old.peek_position(),
        ensures
            self.cur_position() matches Some(end) ==> 1 <= end <= self.total(),
    {
        old.lemma_positions();
        old.lemma_offsets(old.index(), old.index() + 1);
    }

    pub fn consume_left_parenthesis<T: Visitor<'s>>(&mut self, visitor: &mut T) -> (r: Option<()>)
        requires
            old(self).wf(),
            old(visitor).inv(old(self).input()),
        ensures
            old(self).cur_char() is Some && r is None ==> final(self).peek2_char() is None || final(visitor).halted(),
            old(visitor).halted() ==> final(visitor).halted(),
            old(self).cur_char() is Some ==> forall|i: int| old(self).tokens().len() <= i < final(self).tokens().len() ==> byte_offset(old(self).text(), old(self).index()) <= token_start(#[trigger] final(self).tokens()[i]) <= byte_offset(old(self).text(), final(self).index()),
            final(self).tokens().len() <= old(self).tokens().len() + 1,
            forall|t: Token| old(visitor).handled(t, old(self).input()) ==> #[trigger] final(visitor).handled(t, old(self).input()),
            forall|t: Token| old(visitor).first_handled(t, old(self).input()) ==> #[trigger] final(visitor).first_handled(t, old(self).input()),
            final(self).tokens() == old(self).tokens() ==> final(visitor).pristine() == old(visitor).pristine() && final(visitor).selecting() == old(visitor).selecting(),
            forall|i: int| old(self).tokens().len() <= i < final(self).tokens().len() ==> final(visitor).handled(#[trigger] final(self).tokens()[i], old(self).input()),
            old(self).cur_char() is Some ==> final(self).lexed_on_from(*old(self)),
            old(self).cur_char() is Some ==> final(self).tokens() == old(self).tokens().push(
                Token::LeftParenthesis {
                    start: (old(self).peek_position().unwrap() - 1) as u32,
                    end: old(self).peek_position().unwrap(),
                },
            ),
            old(self).cur_char() == Some('(') ==> old(self).peek_position().unwrap() == old(self).cur_position().unwrap() + 1,
            final(self).lexed_from(*old(self)),
            final(self).tokens().len() <= old(self).tokens().len() + 1,
            final(visitor).inv(final(self).input()),
            final(visitor).frame() == old(visitor).frame(),
    {
        proof {
            if old(self).cur_char() is Some {
                old(self).lemma_cur_offset();
            }
        }
        let ghost before = *self;
        let _ = self.consume();
        let ghost after = *self;
        let end = self.cur_pos()?;
        proof {
            if before.cur_char() is Some {
                self.lemma_end_after_consume(before);
                before.lemma_positions();
                assert(byte_offset(before.text(), before.index() + 1) == byte_offset(before.text(), before.index()) + char_width(before.cur_char().unwrap()));
            }
        }
        let start = end.checked_sub(1)?;
        proof {
            self.tokens@ = self.tokens@.push(Token::LeftParenthesis { start, end });
        }
        let r = visitor.left_parenthesis(self, start, end);
        proof {
            self.lemma_cursor_mono(after);
        }
        r
    }

    pub fn consume_right_parenthesis<T: Visitor<'s>>(&mut self, visitor: &mut T) -> (r: Option<()>)
        requires
            old(self).wf(),
            old(visitor).inv(old(self).input()),
        ensures
            old(self).cur_char() is Some && r is None ==> final(self).peek2_char() is None || final(visitor).halted(),
            old(visitor).halted() ==> final(visitor).halted(),
            old(self).cur_char() is Some ==> forall|i: int| old(self).tokens().len() <= i < final(self).tokens().len() ==> byte_offset(old(self).text(), old(self).index()) <= token_start(#[trigger] final(self).tokens()[i]) <= byte_offset(old(self).text(), final(self).index()),
            final(self).tokens().len() <= old(self).tokens().len() + 1,
            forall|t: Token| old(visitor).handled(t, old(self).input()) ==> #[trigger] final(visitor).handled(t, old(self).input()),
            forall|t: Token| old(visitor).first_handled(t, old(self).input()) ==> #[trigger] final(visitor).first_handled(t, old(self).input()),
            final(self).tokens() == old(self).tokens() ==> final(visitor).pristine() == old(visitor).pristine() && final(visitor).selecting() == old(visitor).selecting(),
            forall|i: int| old(self).tokens().len() <= i < final(self).tokens().len() ==> final(visitor).handled(#[trigger] final(self).tokens()[i], old(self).input()),
            old(self).cur_char() is Some ==> final(self).lexed_on_from(*old(self)),
            old(self).cur_char() is Some ==> final(self).tokens() == old(self).tokens().push(
                Token::RightParenthesis {
                    start: (old(self).peek_position().unwrap() - 1) as u32,
                    end: old(self).peek_position().unwrap(),
                },
            ),
            old(self).cur_char() == Some(')') ==> old(self).peek_position().unwrap() == old(self).cur_position().unwrap() + 1,
            final(self).lexed_from(*old(self)),
            final(self).tokens().len() <= old(self).tokens().len() + 1,
            final(visitor).inv(final(self).input()),
            final(visitor).frame() == old(visitor).frame(),
    {
        proof {
            if old(self).cur_char() is Some {
                old(self).lemma_cur_offset();
            }
        }
        let ghost before = *self;
        let _ = self.consume();
        let ghost after = *self;
        let end = self.cur_pos()?;
        proof {
            if before.cur_char() is Some {
                self.lemma_end_after_consume(before);
                before.lemma_positions();
                assert(byte_offset(before.text(), before.index() + 1) == byte_offset(before.text(), before.index()) + char_width(before.cur_char().unwrap()));
            }
        }
        let start = end.checked_sub(1)?;
        proof {
            self.tokens@ = self.tokens@.push(Token::RightParenthesis { start, end });
        }
        let r = visitor.right_parenthesis(self, start, end);
        proof {
            self.lemma_cursor_mono(after);
        }
        r
    }

    pub fn consume_plus_sign(&mut self) -> (r: Option<()>)
        requires
            old(self).wf(),
        ensures
            old(self).cur_char() is Some && r is None ==> final(self).peek2_char() is None,
            old(self).cur_char() is Some && r is Some ==> final(self).progressed_from(*old(self)),
            old(self).cur_char() is Some && old(self).peek2_char() is Some ==> final(self).progressed_from(*old(self)),
            old(self).peek2_char() is None ==> r is None && *final(self) == *old(self),
            final(self).advanced_from(*old(self)),
    {
        if start_number(self.cur()?, self.peek()?, self.peek2()?) {
            self.consume_numeric_token()
        } else {
            self.consume_delim()
        }
    }

    pub fn consume_comma<T: Visitor<'s>>(&mut self, visitor: &mut T) -> (r: Option<()>)
        requires
            old(self).wf(),
            old(visitor).inv(old(self).input()),
        ensures
            old(self).cur_char() is Some && r is None ==> final(self).peek2_char() is None || final(visitor).halted(),
            old(visitor).halted() ==> final(visitor).halted(),
            old(self).cur_char() is Some ==> forall|i: int| old(self).tokens().len() <= i < final(self).tokens().len() ==> byte_offset(old(self).text(), old(self).index()) <= token_start(#[trigger] final(self).tokens()[i]) <= byte_offset(old(self).text(), final(self).index()),
            final(self).tokens().len() <= old(self).tokens().len() + 1,
            forall|t: Token| old(visitor).handled(t, old(self).input()) ==> #[trigger] final(visitor).handled(t, old(self).input()),
            forall|t: Token| old(visitor).first_handled(t, old(self).input()) ==> #[trigger] final(visitor).first_handled(t, old(self).input()),
            final(self).tokens() == old(self).tokens() ==> final(visitor).pristine() == old(visitor).pristine() && final(visitor).selecting() == old(visitor).selecting(),
            forall|i: int| old(self).tokens().len() <= i < final(self).tokens().len() ==> final(visitor).handled(#[trigger] final(self).tokens()[i], old(self).input()),
            old(self).cur_char() is Some ==> final(self).lexed_on_from(*old(self)),
            old(self).cur_char() is Some ==> final(self).tokens() == old(self).tokens().push(
                Token::Comma {
                    start: (old(self).peek_position().unwrap() - 1) as u32,
                    end: old(self).peek_position().unwrap(),
                },
            ),
            old(self).cur_char() == Some(',') ==> old(self).peek_position().unwrap() == old(self).cur_position().unwrap() + 1,
            final(self).lexed_from(*old(self)),
            final(self).tokens().len() <= old(self).tokens().len() + 1,
            final(visitor).inv(final(self).input()),
            final(visitor).frame() == old(visitor).frame(),
    {
        proof {
            if old(self).cur_char() is Some {
                old(self).lemma_cur_offset();
            }
        }
        let ghost before = *self;
        let _ = self.consume();
        let ghost after = *self;
        let end = self.cur_pos()?;
        proof {
            if before.cur_char() is Some {
                self.lemma_end_after_consume(before);
                before.lemma_positions();
                assert(byte_offset(before.text(), before.index() + 1) == byte_offset(before.text(), before.index()) + char_width(before.cur_char().unwrap()));
            }
        }
        let start = end.checked_sub(1)?;
        proof {
            self.tokens@ = self.tokens@.push(Token::Comma { start, end });
        }
        let r = visitor.comma(self, start, end);
        proof {
            self.lemma_cursor_mono(after);
        }
        r
    }

    /// Lexes a `-`: a number, `-->`, an identifier or a delimiter.
    pub fn consume_minus<T: Visitor<'s>>(&mut self, visitor: &mut T) -> (r: Option<()>)
        requires
            old(self).wf(),
            old(visitor).inv(old(self).input()),
        ensures
            old(self).cur_char() is Some && r is None ==> final(self).peek2_char() is None || final(visitor).halted(),
            old(visitor).halted() ==> final(visitor).halted(),
            old(self).cur_char() is Some ==> forall|i: int| old(self).tokens().len() <= i < final(self).tokens().len() ==> byte_offset(old(self).text(), old(self).index()) <= token_start(#[trigger] final(self).tokens()[i]) <= byte_offset(old(self).text(), final(self).index()),
            final(self).tokens().len() <= old(self).tokens().len() + 1,
            forall|t: Token| old(visitor).handled(t, old(self).input()) ==> #[trigger] final(visitor).handled(t, old(self).input()),
            forall|t: Token| old(visitor).first_handled(t, old(self).input()) ==> #[trigger] final(visitor).first_handled(t, old(self).input()),
            final(self).tokens() == old(self).tokens() ==> final(visitor).pristine() == old(visitor).pristine() && final(visitor).selecting() == old(visitor).selecting(),
            forall|i: int| old(self).tokens().len() <= i < final(self).tokens().len() ==> final(visitor).handled(#[trigger] final(self).tokens()[i], old(self).input()),
            final(self).tokens() == old(self).tokens() || (final(self).tokens() == old(self).tokens().push(final(self).tokens().last()) && token_start(final(self).tokens().last()) == old(self).cur_position().unwrap() && (final(self).tokens().last() is Function || final(self).tokens().last() is Ident || final(self).tokens().last() is Url)),
            r is Some ==> final(self).lexed_on_from(*old(self)),
            old(self).cur_char() is Some && old(self).peek2_char() is Some ==> final(self).lexed_on_from(*old(self)),
            old(self).peek2_char() is None ==> r is None && *final(self) == *old(self) && *final(visitor) == *old(visitor),
            final(self).lexed_from(*old(self)),
            final(visitor).inv(final(self).input()),
            final(visitor).frame() == old(visitor).frame(),
    {
        proof {
            if old(self).cur_char() is Some {
                old(self).lemma_cur_offset();
            }
        }
        let c = self.cur()?;
        let c2 = self.peek()?;
        let c3 = self.peek2()?;
        if start_number(c, c2, c3) {
            self.consume_numeric_token()
        } else if c2 == C_HYPHEN_MINUS && c3 == C_GREATER_THAN_SIGN {
            let _ = self.consume()?;
            let _ = self.consume()?;
            Some(())
        } else if start_ident_sequence(c, c2, c3) {
            self.consume_ident_like(visitor)
        } else {
            self.consume_delim()
        }
    }

    /// Lexes a `.`: a number, a class selector or a delimiter.
    #[verifier::spinoff_prover]
    #[verifier::rlimit(60)]
    pub fn consume_full_stop<T: Visitor<'s>>(&mut self, visitor: &mut T) -> (r: Option<()>)
        requires
            old(self).wf(),
            old(visitor).inv(old(self).input()),
        ensures
            forall|k: int| #![trigger class_at(old(self).text(), old(self).index(), k)] old(visitor).selecting() && class_at(old(self).text(), old(self).index(), k) ==> final(self).tokens().len() > old(self).tokens().len() && final(self).tokens()[old(self).tokens().len() as int] == (Token::Class { start: old(self).cur_position().unwrap(), end: byte_offset(old(self).text(), k) as u32 }),
            old(visitor).pristine() && final(self).tokens().len() > old(self).tokens().len() ==> final(visitor).first_handled(final(self).tokens()[old(self).tokens().len() as int], old(self).input()),
            old(self).cur_char() is Some && r is None ==> final(self).peek2_char() is None || final(visitor).halted(),
            old(visitor).halted() ==> final(visitor).halted(),
            old(self).cur_char() is Some ==> forall|i: int| old(self).tokens().len() <= i < final(self).tokens().len() ==> byte_offset(old(self).text(), old(self).index()) <= token_start(#[trigger] final(self).tokens()[i]) <= byte_offset(old(self).text(), final(self).index()),
            final(self).tokens().len() <= old(self).tokens().len() + 1,
            forall|t: Token| old(visitor).handled(t, old(self).input()) ==> #[trigger] final(visitor).handled(t, old(self).input()),
            forall|t: Token| old(visitor).first_handled(t, old(self).input()) ==> #[trigger] final(visitor).first_handled(t, old(self).input()),
            final(self).tokens() == old(self).tokens() ==> final(visitor).pristine() == old(visitor).pristine() && final(visitor).selecting() == old(visitor).selecting(),
            forall|i: int| old(self).tokens().len() <= i < final(self).tokens().len() ==> final(visitor).handled(#[trigger] final(self).tokens()[i], old(self).input()),
            final(self).tokens() == old(self).tokens() || (final(self).tokens() == old(self).tokens().push(final(self).tokens().last()) && token_start(final(self).tokens().last()) == old(self).cur_position().unwrap() && (final(self).tokens().last() is Class)),
            old(self).cur_char() is Some && r is Some ==> final(self).lexed_on_from(*old(self)),
            old(self).cur_char() is Some && old(self).peek2_char() is Some ==> final(self).lexed_on_from(*old(self)),
            old(self).peek2_char() is None ==> r is None && *final(self) == *old(self) && *final(visitor) == *old(visitor),
            final(self).lexed_from(*old(self)),
            final(visitor).inv(final(self).input()),
            final(visitor).frame() == old(visitor).frame(),
    {
        proof {
            if old(self).cur_char() is Some {
                old(self).lemma_cur_offset();
            }
        }
        let c = self.cur()?;
        let c2 = self.peek()?;
        let c3 = self.peek2()?;
        if start_number(c, c2, c3) {
            return self.consume_numeric_token();
        }
        let start = self.cur_pos()?;
        let _ = self.consume()?;
        if !visitor.is_selector(self)? {
            return self.consume_delim();
        }
        if !start_ident_sequence(c2, c3, self.peek2()?) {
            return self.consume_delim();
        }
        let ghost name_start = *self;
        let named = self.consume_ident_sequence();
        proof {
            assert(name_start.index() == old(self).index() + 1);
            assert forall|k: int| #[trigger] class_at(old(self).text(), old(self).index(), k) implies self.index() == k && self.cur_char() is Some by {
                lemma_name_end(self.text(), old(self).index(), k, self.index());
            }
        }
        named?;
        let end = self.cur_pos()?;
        proof {
            let j = self.index();
            lemma_byte_offset_mono(self.text(), j, self.text().len() as int);
            assert(end == byte_offset(self.text(), j));
        }
        {
                proof {
                    self.tokens@ = self.tokens@.push(Token::Class { start: start, end: end });
                }
                let r = visitor.class(self, start, end);
                proof {
                    self.lemma_cursor_mono(*old(self));
                }
                r
            }
    }

    /// Lexes a `:`: a pseudo class or pseudo function when the visitor is in a selector.
    pub fn consume_potential_pseudo<T: Visitor<'s>>(&mut self, visitor: &mut T) -> (r: Option<()>)
        requires
            old(self).wf(),
            old(visitor).inv(old(self).input()),
        ensures
            old(self).cur_char() is Some && r is None ==> final(self).peek2_char() is None || final(visitor).halted(),
            old(visitor).halted() ==> final(visitor).halted(),
            old(self).cur_char() is Some ==> forall|i: int| old(self).tokens().len() <= i < final(self).tokens().len() ==> byte_offset(old(self).text(), old(self).index()) <= token_start(#[trigger] final(self).tokens()[i]) <= byte_offset(old(self).text(), final(self).index()),
            final(self).tokens().len() <= old(self).tokens().len() + 1,
            forall|t: Token| old(visitor).handled(t, old(self).input()) ==> #[trigger] final(visitor).handled(t, old(self).input()),
            forall|t: Token| old(visitor).first_handled(t, old(self).input()) ==> #[trigger] final(visitor).first_handled(t, old(self).input()),
            final(self).tokens() == old(self).tokens() ==> final(visitor).pristine() == old(visitor).pristine() && final(visitor).selecting() == old(visitor).selecting(),
            forall|i: int| old(self).tokens().len() <= i < final(self).tokens().len() ==> final(visitor).handled(#[trigger] final(self).tokens()[i], old(self).input()),
            final(self).tokens() == old(self).tokens() || (final(self).tokens() == old(self).tokens().push(final(self).tokens().last()) && token_start(final(self).tokens().last()) == old(self).cur_position().unwrap() && (final(self).tokens().last() is PseudoFunction || final(self).tokens().last() is PseudoClass)),
            old(self).cur_char() is Some ==> final(self).lexed_on_from(*old(self)),
            final(self).lexed_from(*old(self)),
            final(visitor).inv(final(self).input()),
            final(visitor).frame() == old(visitor).frame(),
    {
        proof {
            if old(self).cur_char() is Some {
                old(self).lemma_cur_offset();
            }
        }
        let start = self.cur_pos()?;
        let c = self.consume()?;
        if !visitor.is_selector(self)? {
            return Some(());
        }
        if !start_ident_sequence(c, self.peek()?, self.peek2()?) {
            return Some(());
        }
        self.consume_ident_sequence()?;
        if self.cur()? == C_LEFT_PARENTHESIS {
            let _ = self.consume()?;
            let end = self.cur_pos()?;
            {
                proof {
                    self.tokens@ = self.tokens@.push(Token::PseudoFunction { start: start, end: end });
                }
                let r = visitor.pseudo_function(self, start, end);
                proof {
                    self.lemma_cursor_mono(*old(self));
                }
                r
            }
        } else {
            let end = self.cur_pos()?;
            {
                proof {
                    self.tokens@ = self.tokens@.push(Token::PseudoClass { start: start, end: end });
                }
                let r = visitor.pseudo_class(self, start, end);
                proof {
                    self.lemma_cursor_mono(*old(self));
                }
                r
            }
        }
    }

    pub fn consume_semicolon<T: Visitor<'s>>(&mut self, visitor: &mut T) -> (r: Option<()>)
        requires
            old(self).wf(),
            old(visitor).inv(old(self).input()),
        ensures
            old(self).cur_char() is Some && r is None ==> final(self).peek2_char() is None || final(visitor).halted(),
            old(visitor).halted() ==> final(visitor).halted(),
            old(self).cur_char() is Some ==> forall|i: int| old(self).tokens().len() <= i < final(self).tokens().len() ==> byte_offset(old(self).text(), old(self).index()) <= token_start(#[trigger] final(self).tokens()[i]) <= byte_offset(old(self).text(), final(self).index()),
            final(self).tokens().len() <= old(self).tokens().len() + 1,
            forall|t: Token| old(visitor).handled(t, old(self).input()) ==> #[trigger] final(visitor).handled(t, old(self).input()),
            forall|t: Token| old(visitor).first_handled(t, old(self).input()) ==> #[trigger] final(visitor).first_handled(t, old(self).input()),
            final(self).tokens() == old(self).tokens() ==> final(visitor).pristine() == old(visitor).pristine() && final(visitor).selecting() == old(visitor).selecting(),
            forall|i: int| old(self).tokens().len() <= i < final(self).tokens().len() ==> final(visitor).handled(#[trigger] final(self).tokens()[i], old(self).input()),
            old(self).cur_char() is Some ==> final(self).lexed_on_from(*old(self)),
            old(self).cur_char() is Some ==> final(self).tokens() == old(self).tokens().push(
                Token::Semicolon {
                    start: (old(self).peek_position().unwrap() - 1) as u32,
                    end: old(self).peek_position().unwrap(),
                },
            ),
            old(self).cur_char() == Some(';') ==> old(self).peek_position().unwrap() == old(self).cur_position().unwrap() + 1,
            final(self).lexed_from(*old(self)),
            final(self).tokens().len() <= old(self).tokens().len() + 1,
            final(visitor).inv(final(self).input()),
            final(visitor).frame() == old(visitor).frame(),
    {
        proof {
            if old(self).cur_char() is Some {
                old(self).lemma_cur_offset();
            }
        }
        let ghost before = *self;
        let _ = self.consume();
        let ghost after = *self;
        let end = self.cur_pos()?;
        proof {
            if before.cur_char() is Some {
                self.lemma_end_after_consume(before);
                before.lemma_positions();
                assert(byte_offset(before.text(), before.index() + 1) == byte_offset(before.text(), before.index()) + char_width(before.cur_char().unwrap()));
            }
        }
        let start = end.checked_sub(1)?;
        proof {
            self.tokens@ = self.tokens@.push(Token::Semicolon { start, end });
        }
        let r = visitor.semicolon(self, start, end);
        proof {
            self.lemma_cursor_mono(after);
        }
        r
    }

    /// Lexes a `<`, skipping a whole `<!--`.
    pub fn consume_less_than_sign(&mut self) -> (r: Option<()>)
        requires
            old(self).wf(),
        ensures
            old(self).cur_char() is Some && r is None ==> final(self).peek2_char() is None,
            old(self).cur_char() is Some ==> final(self).index() == (if old(self).index() + 3 < old(self).text().len() && old(self).text()[old(self).index() + 1] == '!' && old(self).text()[old(self).index() + 2] == '-' && old(self).text()[old(self).index() + 3] == '-' { old(self).index() + 4 } else { old(self).index() + 1 }),
            old(self).cur_char() is Some ==> final(self).progressed_from(*old(self)),
            final(self).advanced_from(*old(self)),
    {
        if self.consume()? == '!' && self.peek()? == '-' && self.peek2()? == '-' {
            let _ = self.consume()?;
            let _ = self.consume()?;
            let _ = self.consume()?;
        }
        Some(())
    }

    /// Lexes a `@`, reporting an at-keyword.
    pub fn consume_at_sign<T: Visitor<'s>>(&mut self, visitor: &mut T) -> (r: Option<()>)
        requires
            old(self).wf(),
            old(visitor).inv(old(self).input()),
        ensures
            old(self).cur_char() is Some && r is None ==> final(self).peek2_char() is None || final(visitor).halted(),
            old(visitor).halted() ==> final(visitor).halted(),
            old(self).cur_char() is Some ==> forall|i: int| old(self).tokens().len() <= i < final(self).tokens().len() ==> byte_offset(old(self).text(), old(self).index()) <= token_start(#[trigger] final(self).tokens()[i]) <= byte_offset(old(self).text(), final(self).index()),
            final(self).tokens().len() <= old(self).tokens().len() + 1,
            forall|k: int| #![trigger at_keyword_at(old(self).text(), old(self).index(), k)] at_keyword_at(old(self).text(), old(self).index(), k) ==> final(self).tokens().len() > old(self).tokens().len() && final(self).tokens()[old(self).tokens().len() as int] == (Token::AtKeyword { start: old(self).cur_position().unwrap(), end: byte_offset(old(self).text(), k) as u32 }),
            forall|t: Token| old(visitor).handled(t, old(self).input()) ==> #[trigger] final(visitor).handled(t, old(self).input()),
            forall|t: Token| old(visitor).first_handled(t, old(self).input()) ==> #[trigger] final(visitor).first_handled(t, old(self).input()),
            final(self).tokens() == old(self).tokens() ==> final(visitor).pristine() == old(visitor).pristine() && final(visitor).selecting() == old(visitor).selecting(),
            forall|i: int| old(self).tokens().len() <= i < final(self).tokens().len() ==> final(visitor).handled(#[trigger] final(self).tokens()[i], old(self).input()),
            final(self).tokens().len() > old(self).tokens().len() ==> (final(self).tokens()[old(self).tokens().len() as int] matches Token::AtKeyword { start, end } && Some(start) == old(self).cur_position() && exists|j: int| #![trigger byte_offset(old(self).text(), j)] old(self).index() + 1 <= j < old(self).text().len() && end == byte_offset(old(self).text(), j) && ident_run(old(self).text(), old(self).index() + 1, j) && !spec_is_ident(old(self).text()[j]) && old(self).text()[j] != '\\'),
            old(self).cur_char() is Some && final(self).tokens() == old(self).tokens() ==> final(self).cur_char() is None || !(old(self).peek_char() matches Some(c1) && old(self).peek2_char() matches Some(c2) && char_at(old(self).text(), old(self).index() + 3) matches Some(c3) && spec_start_ident_sequence(c1, c2, c3)),
            final(self).tokens() == old(self).tokens() || (final(self).tokens() == old(self).tokens().push(final(self).tokens().last()) && token_start(final(self).tokens().last()) == old(self).cur_position().unwrap() && (final(self).tokens().last() is AtKeyword)),
            old(self).cur_char() is Some ==> final(self).lexed_on_from(*old(self)),
            final(self).lexed_from(*old(self)),
            final(visitor).inv(final(self).input()),
            final(visitor).frame() == old(visitor).frame(),
    {
        proof {
            if old(self).cur_char() is Some {
                old(self).lemma_cur_offset();
            }
        }
        let start = self.cur_pos()?;
        let c = self.consume()?;
        if start_ident_sequence(c, self.peek()?, self.peek2()?) {
            let ghost name_start = *self;
            let named = self.consume_ident_sequence();
            proof {
                assert(name_start.index() == old(self).index() + 1);
                assert forall|k: int| #[trigger] at_keyword_at(old(self).text(), old(self).index(), k) implies self.index() == k && self.cur_char() is Some by {
                    lemma_name_end(self.text(), old(self).index(), k, self.index());
                }
            }
            named?;
            let end = self.cur_pos()?;
            proof {
                let j = self.index();
                lemma_byte_offset_mono(self.text(), j, self.text().len() as int);
                assert(end == byte_offset(self.text(), j));
            }
            return {
                proof {
                    self.tokens@ = self.tokens@.push(Token::AtKeyword { start: start, end: end });
                }
                let r = visitor.at_keyword(self, start, end);
                proof {
                    self.lemma_cursor_mono(*old(self));
                }
                r
            };
        }
        Some(())
    }

    /// Lexes a `\`: the start of an identifier when it escapes something.
    pub fn consume_reverse_solidus<T: Visitor<'s>>(&mut self, visitor: &mut T) -> (r: Option<()>)
        requires
            old(self).wf(),
            old(visitor).inv(old(self).input()),
        ensures
            old(self).cur_char() is Some && r is None ==> final(self).peek2_char() is None || final(visitor).halted(),
            old(visitor).halted() ==> final(visitor).halted(),
            old(self).cur_char() is Some ==> forall|i: int| old(self).tokens().len() <= i < final(self).tokens().len() ==> byte_offset(old(self).text(), old(self).index()) <= token_start(#[trigger] final(self).tokens()[i]) <= byte_offset(old(self).text(), final(self).index()),
            final(self).tokens().len() <= old(self).tokens().len() + 1,
            forall|t: Token| old(visitor).handled(t, old(self).input()) ==> #[trigger] final(visitor).handled(t, old(self).input()),
            forall|t: Token| old(visitor).first_handled(t, old(self).input()) ==> #[trigger] final(visitor).first_handled(t, old(self).input()),
            final(self).tokens() == old(self).tokens() ==> final(visitor).pristine() == old(visitor).pristine() && final(visitor).selecting() == old(visitor).selecting(),
            forall|i: int| old(self).tokens().len() <= i < final(self).tokens().len() ==> final(visitor).handled(#[trigger] final(self).tokens()[i], old(self).input()),
            final(self).tokens() == old(self).tokens() || (final(self).tokens() == old(self).tokens().push(final(self).tokens().last()) && token_start(final(self).tokens().last()) == old(self).cur_position().unwrap() && (final(self).tokens().last() is Function || final(self).tokens().last() is Ident || final(self).tokens().last() is Url)),
            r is Some ==> final(self).lexed_on_from(*old(self)),
            old(self).cur_char() is Some && old(self).peek_char() is Some ==> final(self).lexed_on_from(*old(self)),
            old(self).peek_char() is None ==> r is None && *final(self) == *old(self) && *final(visitor) == *old(visitor),
            final(self).lexed_from(*old(self)),
            final(visitor).inv(final(self).input()),
            final(visitor).frame() == old(visitor).frame(),
    {
        proof {
            if old(self).cur_char() is Some {
                old(self).lemma_cur_offset();
            }
        }
        if are_valid_escape(self.cur()?, self.peek()?) {
            self.consume_ident_like(visitor)
        } else {
            self.consume_delim()
        }
    }

    pub fn consume_left_curly<T: Visitor<'s>>(&mut self, visitor: &mut T) -> (r: Option<()>)
        requires
            old(self).wf(),
            old(visitor).inv(old(self).input()),
        ensures
            old(self).cur_char() is Some && r is None ==> final(self).peek2_char() is None || final(visitor).halted(),
            old(visitor).halted() ==> final(visitor).halted(),
            old(self).cur_char() is Some ==> forall|i: int| old(self).tokens().len() <= i < final(self).tokens().len() ==> byte_offset(old(self).text(), old(self).index()) <= token_start(#[trigger] final(self).tokens()[i]) <= byte_offset(old(self).text(), final(self).index()),
            final(self).tokens().len() <= old(self).tokens().len() + 1,
            forall|t: Token| old(visitor).handled(t, old(self).input()) ==> #[trigger] final(visitor).handled(t, old(self).input()),
            forall|t: Token| old(visitor).first_handled(t, old(self).input()) ==> #[trigger] final(visitor).first_handled(t, old(self).input()),
            final(self).tokens() == old(self).tokens() ==> final(visitor).pristine() == old(visitor).pristine() && final(visitor).selecting() == old(visitor).selecting(),
            forall|i: int| old(self).tokens().len() <= i < final(self).tokens().len() ==> final(visitor).handled(#[trigger] final(self).tokens()[i], old(self).input()),
            old(self).cur_char() is Some ==> final(self).lexed_on_from(*old(self)),
            old(self).cur_char() is Some ==> final(self).tokens() == old(self).tokens().push(
                Token::LeftCurlyBracket {
                    start: (old(self).peek_position().unwrap() - 1) as u32,
                    end: old(self).peek_position().unwrap(),
                },
            ),
            old(self).cur_char() == Some('{') ==> old(self).peek_position().unwrap() == old(self).cur_position().unwrap() + 1,
            final(self).lexed_from(*old(self)),
            final(self).tokens().len() <= old(self).tokens().len() + 1,
            final(visitor).inv(final(self).input()),
            final(visitor).frame() == old(visitor).frame(),
    {
        proof {
            if old(self).cur_char() is Some {
                old(self).lemma_cur_offset();
            }
        }
        let ghost before = *self;
        let _ = self.consume();
        let ghost after = *self;
        let end = self.cur_pos()?;
        proof {
            if before.cur_char() is Some {
                self.lemma_end_after_consume(before);
                before.lemma_positions();
                assert(byte_offset(before.text(), before.index() + 1) == byte_offset(before.text(), before.index()) + char_width(before.cur_char().unwrap()));
            }
        }
        let start = end.checked_sub(1)?;
        proof {
            self.tokens@ = self.tokens@.push(Token::LeftCurlyBracket { start, end });
        }
        let r = visitor.left_curly_bracket(self, start, end);
        proof {
            self.lemma_cursor_mono(after);
        }
        r
    }

    pub fn consume_right_curly<T: Visitor<'s>>(&mut self, visitor: &mut T) -> (r: Option<()>)
        requires
            old(self).wf(),
            old(visitor).inv(old(self).input()),
        ensures
            old(self).cur_char() is Some && r is None ==> final(self).peek2_char() is None || final(visitor).halted(),
            old(visitor).halted() ==> final(visitor).halted(),
            old(self).cur_char() is Some ==> forall|i: int| old(self).tokens().len() <= i < final(self).tokens().len() ==> byte_offset(old(self).text(), old(self).index()) <= token_start(#[trigger] final(self).tokens()[i]) <= byte_offset(old(self).text(), final(self).index()),
            final(self).tokens().len() <= old(self).tokens().len() + 1,
            forall|t: Token| old(visitor).handled(t, old(self).input()) ==> #[trigger] final(visitor).handled(t, old(self).input()),
            forall|t: Token| old(visitor).first_handled(t, old(self).input()) ==> #[trigger] final(visitor).first_handled(t, old(self).input()),
            final(self).tokens() == old(self).tokens() ==> final(visitor).pristine() == old(visitor).pristine() && final(visitor).selecting() == old(visitor).selecting(),
            forall|i: int| old(self).tokens().len() <= i < final(self).tokens().len() ==> final(visitor).handled(#[trigger] final(self).tokens()[i], old(self).input()),
            old(self).cur_char() is Some ==> final(self).lexed_on_from(*old(self)),
            old(self).cur_char() is Some ==> final(self).tokens() == old(self).tokens().push(
                Token::RightCurlyBracket {
                    start: (old(self).peek_position().unwrap() - 1) as u32,
                    end: old(self).peek_position().unwrap(),
                },
            ),
            old(self).cur_char() == Some('}') ==> old(self).peek_position().unwrap() == old(self).cur_position().unwrap() + 1,
            final(self).lexed_from(*old(self)),
            final(self).tokens().len() <= old(self).tokens().len() + 1,
            final(visitor).inv(final(self).input()),
            final(visitor).frame() == old(visitor).frame(),
    {
        proof {
            if old(self).cur_char() is Some {
                old(self).lemma_cur_offset();
            }
        }
        let ghost before = *self;
        let _ = self.consume();
        let ghost after = *self;
        let end = self.cur_pos()?;
        proof {
            if before.cur_char() is Some {
                self.lemma_end_after_consume(before);
                before.lemma_positions();
                assert(byte_offset(before.text(), before.index() + 1) == byte_offset(before.text(), before.index()) + char_width(before.cur_char().unwrap()));
            }
        }
        let start = end.checked_sub(1)?;
        proof {
            self.tokens@ = self.tokens@.push(Token::RightCurlyBracket { start, end });
        }
        let r = visitor.right_curly_bracket(self, start, end);
        proof {
            self.lemma_cursor_mono(after);
        }
        r
    }

    /// Skips white space and comments; the cursor ends on a character that starts neither.
    pub fn consume_white_space_and_comments(&mut self) -> (r: Option<()>)
        requires
            old(self).wf(),
        ensures
            forall|k: int| #![trigger white_space_up_to(old(self).text(), old(self).index(), k)] white_space_up_to(old(self).text(), old(self).index(), k) ==> r is Some && final(self).index() == k,
            old(self).cur_char() matches Some(c) && !spec_is_white_space(c) && c != '/' ==> r is Some && *final(self) == *old(self),
            r is None ==> final(self).cur_char() is None || final(self).peek_char() is None,
            final(self).advanced_from(*old(self)),
            r is Some ==> (final(self).cur_char() matches Some(c) && !spec_is_white_space(c)),
    {
        loop
            invariant
                self.advanced_from(*old(self)),
                old(self).cur_char() matches Some(c) && !spec_is_white_space(c) && c != '/' ==> *self
                    == *old(self),
                forall|k: int| #![trigger white_space_up_to(old(self).text(), old(self).index(), k)] white_space_up_to(old(self).text(), old(self).index(), k) ==> white_space_up_to(self.text(), self.index(), k),
            decreases self.text().len() + 3 - self.consumed(),
        {
            let ghost before = *self;
            self.consume_comments()?;
            if is_white_space(self.cur()?) {
                let spaced = self.consume_space();
                proof {
                    assert forall|k: int| #[trigger] white_space_up_to(old(self).text(), old(self).index(), k) implies white_space_up_to(self.text(), self.index(), k) by {
                        let t = self.text();
                        assert(white_space_up_to(t, before.index(), k));
                        if self.index() > k {
                            assert(before.index() < k);
                            assert(spec_is_white_space(t[k]));
                        }
                        if self.index() < k {
                            assert(spec_is_white_space(t[self.index()]));
                        }
                    }
                }
                spaced?;
            } else {
                return Some(());
            }
        }
    }
}

} // verus!

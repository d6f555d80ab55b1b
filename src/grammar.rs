//! The lexical grammar as mathematics: what a scan of a byte sequence yields.
//!
//! Scanning is a walk over the source. At each position the byte found there
//! starts one unit (`unit_at`), which ends at a later position; the unit is a
//! token, a stretch of blank space or comment, or an error. `scan` collects the
//! tokens and errors of the walk from position zero and ends the tokens with
//! `EOF`. Lines are not threaded through the walk: the line of a position is
//! one more than the newlines before it (`line_at`).
use crate::report::{DiagnosticSpec, ErrorKind};
use crate::token::{LiteralSpec, TokenSpec, TokenType};
use vstd::prelude::*;
use vstd::utf8::encode_utf8;

verus! {

pub open spec fn is_digit(b: u8) -> bool {
    ('0' as u8) <= b <= ('9' as u8)
}

/// A byte that starts an identifier or keyword: an ASCII letter or `_`.
pub open spec fn is_word_start(b: u8) -> bool {
    (('a' as u8) <= b <= ('z' as u8)) || (('A' as u8) <= b <= ('Z' as u8)) || b == ('_' as u8)
}

/// A byte that continues an identifier or keyword.
pub open spec fn is_word_byte(b: u8) -> bool {
    is_word_start(b) || is_digit(b)
}

/// The classes of bytes that make up the runs a scan consumes.
#[derive(Clone, Copy)]
pub enum Class {
    Digit,
    Word,
    /// Anything but a newline: the body of a comment.
    NotNewline,
    /// Anything but a double quote: the body of a string.
    NotQuote,
}

pub open spec fn in_class(c: Class, b: u8) -> bool {
    match c {
        Class::Digit => is_digit(b),
        Class::Word => is_word_byte(b),
        Class::NotNewline => b != ('\n' as u8),
        Class::NotQuote => b != ('"' as u8),
    }
}

/// The end of the longest run of bytes of class `c` that starts at `i`.
pub open spec fn run_end(src: Seq<u8>, i: int, c: Class) -> int
    decreases src.len() - i,
{
    if 0 <= i < src.len() && in_class(c, src[i]) {
        run_end(src, i + 1, c)
    } else {
        i
    }
}

pub open spec fn count_newlines(s: Seq<u8>) -> nat
    decreases s.len(),
{
    if s.len() == 0 {
        0
    } else {
        count_newlines(s.drop_last()) + if s.last() == ('\n' as u8) {
            1nat
        } else {
            0nat
        }
    }
}

/// The 1-based line on which position `p` lies.
pub open spec fn line_at(src: Seq<u8>, p: int) -> nat {
    1 + count_newlines(src.take(p))
}

/// The kind of a one-byte punctuation token.
pub open spec fn single_kind(c: u8) -> Option<TokenType> {
    if c == ('(' as u8) {
        Some(TokenType::LEFT_PAREN)
    } else if c == (')' as u8) {
        Some(TokenType::RIGHT_PAREN)
    } else if c == ('{' as u8) {
        Some(TokenType::LEFT_BRACE)
    } else if c == ('}' as u8) {
        Some(TokenType::RIGHT_BRACE)
    } else if c == (',' as u8) {
        Some(TokenType::COMMA)
    } else if c == ('.' as u8) {
        Some(TokenType::DOT)
    } else if c == ('-' as u8) {
        Some(TokenType::MINUS)
    } else if c == ('+' as u8) {
        Some(TokenType::PLUS)
    } else if c == (';' as u8) {
        Some(TokenType::SEMICOLON)
    } else if c == ('*' as u8) {
        Some(TokenType::STAR)
    } else {
        None
    }
}

/// For an operator byte, its kind alone and its kind when followed by `=`.
pub open spec fn operator_kinds(c: u8) -> Option<(TokenType, TokenType)> {
    if c == ('!' as u8) {
        Some((TokenType::BANG, TokenType::BANG_EQUAL))
    } else if c == ('=' as u8) {
        Some((TokenType::EQUAL, TokenType::EQUAL_EQUAL))
    } else if c == ('<' as u8) {
        Some((TokenType::LESS, TokenType::LESS_EQUAL))
    } else if c == ('>' as u8) {
        Some((TokenType::GREATER, TokenType::GREATER_EQUAL))
    } else {
        None
    }
}

pub open spec fn is_blank(c: u8) -> bool {
    c == (' ' as u8) || c == ('\t' as u8) || c == ('\r' as u8) || c == ('\n' as u8)
}

/// The reserved word spelt by `w`, if any.
pub open spec fn keyword(w: Seq<u8>) -> Option<TokenType> {
    if w == encode_utf8("and"@) {
        Some(TokenType::AND)
    } else if w == encode_utf8("class"@) {
        Some(TokenType::CLASS)
    } else if w == encode_utf8("else"@) {
        Some(TokenType::ELSE)
    } else if w == encode_utf8("false"@) {
        Some(TokenType::FALSE)
    } else if w == encode_utf8("for"@) {
        Some(TokenType::FOR)
    } else if w == encode_utf8("fun"@) {
        Some(TokenType::FUN)
    } else if w == encode_utf8("if"@) {
        Some(TokenType::IF)
    } else if w == encode_utf8("nil"@) {
        Some(TokenType::NIL)
    } else if w == encode_utf8("or"@) {
        Some(TokenType::OR)
    } else if w == encode_utf8("print"@) {
        Some(TokenType::PRINT)
    } else if w == encode_utf8("return"@) {
        Some(TokenType::RETURN)
    } else if w == encode_utf8("super"@) {
        Some(TokenType::SUPER)
    } else if w == encode_utf8("this"@) {
        Some(TokenType::THIS)
    } else if w == encode_utf8("true"@) {
        Some(TokenType::TRUE)
    } else if w == encode_utf8("var"@) {
        Some(TokenType::VAR)
    } else if w == encode_utf8("while"@) {
        Some(TokenType::WHILE)
    } else {
        None
    }
}

/// The kind of a word: its keyword, or `IDENTIFIER`.
pub open spec fn word_kind(w: Seq<u8>) -> TokenType {
    match keyword(w) {
        Some(k) => k,
        None => TokenType::IDENTIFIER,
    }
}

/// The end of the whole part of a number that starts at `s`.
pub open spec fn whole_end(src: Seq<u8>, s: int) -> int {
    run_end(src, s + 1, Class::Digit)
}

/// Whether the number starting at `s` has a fractional part: a `.` right after
/// the whole part, itself followed by a digit.
pub open spec fn has_fraction(src: Seq<u8>, s: int) -> bool {
    let w = whole_end(src, s);
    w + 1 < src.len() && src[w] == ('.' as u8) && is_digit(src[w + 1])
}

/// The end of the number that starts at `s`.
pub open spec fn number_end(src: Seq<u8>, s: int) -> int {
    if has_fraction(src, s) {
        run_end(src, whole_end(src, s) + 1, Class::Digit)
    } else {
        whole_end(src, s)
    }
}

/// The literal of the number that starts at `s`: its whole and fractional digits.
pub open spec fn number_literal(src: Seq<u8>, s: int) -> LiteralSpec {
    let w = whole_end(src, s);
    LiteralSpec::Num(
        src.subrange(s, w),
        if has_fraction(src, s) {
            src.subrange(w + 1, number_end(src, s))
        } else {
            Seq::empty()
        },
    )
}

/// What one scan step finds.
pub enum Unit {
    /// A token of this kind and literal, whose lexeme is the step's bytes.
    Token(TokenType, LiteralSpec),
    /// Blank space or a comment.
    Blank,
    /// A byte that starts no unit.
    Invalid(u8),
    /// A string that runs to the end of input.
    Unterminated,
}

/// Whether position `i` holds the byte `b`.
pub open spec fn byte_at_is(src: Seq<u8>, i: int, b: u8) -> bool {
    0 <= i < src.len() && src[i] == b
}

/// The unit that starts at `s` (with `0 <= s < src.len()`), and where it ends.
pub open spec fn unit_at(src: Seq<u8>, s: int) -> (Unit, int) {
    let c = src[s];
    let n = s + 1;
    if single_kind(c) is Some {
        (Unit::Token(single_kind(c)->0, LiteralSpec::Nil), n)
    } else if operator_kinds(c) is Some {
        if byte_at_is(src, n, ('=' as u8)) {
            (Unit::Token((operator_kinds(c)->0).1, LiteralSpec::Nil), n + 1)
        } else {
            (Unit::Token((operator_kinds(c)->0).0, LiteralSpec::Nil), n)
        }
    } else if c == ('/' as u8) {
        if byte_at_is(src, n, ('/' as u8)) {
            (Unit::Blank, run_end(src, n + 1, Class::NotNewline))
        } else {
            (Unit::Token(TokenType::SLASH, LiteralSpec::Nil), n)
        }
    } else if is_blank(c) {
        (Unit::Blank, n)
    } else if c == ('"' as u8) {
        let q = run_end(src, n, Class::NotQuote);
        if q < src.len() {
            (Unit::Token(TokenType::STRING, LiteralSpec::Str(src.subrange(n, q))), q + 1)
        } else {
            (Unit::Unterminated, src.len() as int)
        }
    } else if is_digit(c) {
        (Unit::Token(TokenType::NUMBER, number_literal(src, s)), number_end(src, s))
    } else if is_word_start(c) {
        let e = run_end(src, n, Class::Word);
        (Unit::Token(word_kind(src.subrange(s, e)), LiteralSpec::Nil), e)
    } else {
        (Unit::Invalid(c), n)
    }
}

/// The tokens and errors that the unit at `s` contributes. A token's line is
/// the line on which it starts; an unterminated string is reported on the last
/// line.
pub open spec fn unit_output(src: Seq<u8>, s: int) -> (Seq<TokenSpec>, Seq<DiagnosticSpec>) {
    let (u, e) = unit_at(src, s);
    match u {
        Unit::Token(kind, literal) => (
            seq![TokenSpec { kind, lexeme: src.subrange(s, e), literal, line: line_at(src, s) }],
            Seq::empty(),
        ),
        Unit::Blank => (Seq::empty(), Seq::empty()),
        Unit::Invalid(c) => (
            Seq::empty(),
            seq![DiagnosticSpec { line: line_at(src, s), kind: ErrorKind::UnexpectedCharacter(c) }],
        ),
        Unit::Unterminated => (
            Seq::empty(),
            seq![
                DiagnosticSpec {
                    line: line_at(src, src.len() as int),
                    kind: ErrorKind::UnterminatedString,
                },
            ],
        ),
    }
}

/// The final token: `EOF` on the last line, with an empty lexeme.
pub open spec fn eof_token(src: Seq<u8>) -> TokenSpec {
    TokenSpec {
        kind: TokenType::EOF,
        lexeme: Seq::empty(),
        literal: LiteralSpec::Nil,
        line: line_at(src, src.len() as int),
    }
}

/// The tokens and errors of the walk from position `pos` to the end.
pub open spec fn scan_from(src: Seq<u8>, pos: int) -> (Seq<TokenSpec>, Seq<DiagnosticSpec>)
    decreases src.len() - pos,
    via scan_from_decreases
{
    if pos < 0 || pos >= src.len() {
        (seq![eof_token(src)], Seq::empty())
    } else {
        let out = unit_output(src, pos);
        let rest = scan_from(src, unit_at(src, pos).1);
        (out.0 + rest.0, out.1 + rest.1)
    }
}

#[via_fn]
proof fn scan_from_decreases(src: Seq<u8>, pos: int) {
    if 0 <= pos < src.len() {
        lemma_unit_bounds(src, pos);
    }
}

/// The tokens and errors of a whole source.
pub open spec fn scan(src: Seq<u8>) -> (Seq<TokenSpec>, Seq<DiagnosticSpec>) {
    scan_from(src, 0)
}

/// A run ends within the source, holds only bytes of its class, and stops at
/// one that is not.
pub proof fn lemma_run_end(src: Seq<u8>, i: int, c: Class)
    requires
        0 <= i <= src.len(),
    ensures
        i <= run_end(src, i, c) <= src.len(),
        forall|k: int| i <= k < run_end(src, i, c) ==> in_class(c, #[trigger] src[k]),
        run_end(src, i, c) < src.len() ==> !in_class(c, src[run_end(src, i, c)]),
    decreases src.len() - i,
{
    if i < src.len() && in_class(c, src[i]) {
        lemma_run_end(src, i + 1, c);
    }
}

/// Every unit is at least one byte long and ends within the source.
pub proof fn lemma_unit_bounds(src: Seq<u8>, s: int)
    requires
        0 <= s < src.len(),
    ensures
        s < unit_at(src, s).1 <= src.len(),
{
    lemma_run_end(src, s + 1, Class::Digit);
    lemma_run_end(src, s + 1, Class::Word);
    lemma_run_end(src, s + 1, Class::NotQuote);
    if s + 2 <= src.len() {
        lemma_run_end(src, s + 2, Class::NotNewline);
    }
    let w = whole_end(src, s);
    if has_fraction(src, s) {
        lemma_run_end(src, w + 1, Class::Digit);
    }
}

/// Moving one byte forward adds one line exactly when that byte is a newline.
pub proof fn lemma_line_step(src: Seq<u8>, p: int)
    requires
        0 <= p < src.len(),
    ensures
        line_at(src, p + 1) == line_at(src, p) + if src[p] == ('\n' as u8) {
            1nat
        } else {
            0nat
        },
{
    assert(src.take(p + 1).drop_last() == src.take(p));
}

/// Over a stretch without newlines the line stays the same.
pub proof fn lemma_same_line(src: Seq<u8>, a: int, b: int)
    requires
        0 <= a <= b <= src.len(),
        forall|k: int| a <= k < b ==> #[trigger] src[k] != ('\n' as u8),
    ensures
        line_at(src, b) == line_at(src, a),
    decreases b - a,
{
    if a < b {
        lemma_same_line(src, a, b - 1);
        lemma_line_step(src, b - 1);
    }
}

/// There are no more newlines than bytes.
pub proof fn lemma_newlines_bound(s: Seq<u8>)
    ensures
        count_newlines(s) <= s.len(),
    decreases s.len(),
{
    if s.len() > 0 {
        lemma_newlines_bound(s.drop_last());
    }
}

} // verus!

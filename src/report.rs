//! Lexical errors and their one-line diagnostic text.
use crate::token::push_range;
use vstd::prelude::*;
use vstd::utf8::encode_utf8;

verus! {

/// What went wrong.
#[derive(Clone, Copy, Debug, PartialEq, Eq, Structural)]
pub enum ErrorKind {
    /// A byte that starts no lexical unit.
    UnexpectedCharacter(u8),
    /// A string literal that reaches the end of input without its closing quote.
    UnterminatedString,
}

/// A lexical error and the line on which it was found.
#[derive(Clone, Copy, Debug, PartialEq, Eq, Structural)]
pub struct Diagnostic {
    pub line: usize,
    pub kind: ErrorKind,
}

/// The mathematical form of a [`Diagnostic`].
pub struct DiagnosticSpec {
    pub line: nat,
    pub kind: ErrorKind,
}

impl View for Diagnostic {
    type V = DiagnosticSpec;

    open spec fn view(&self) -> DiagnosticSpec {
        DiagnosticSpec { line: self.line as nat, kind: self.kind }
    }
}

/// The UTF-8 form of the character whose code point is the byte `b`.
pub open spec fn byte_char_text(b: u8) -> Seq<u8> {
    if b < 128 {
        seq![b]
    } else {
        seq![(192 + b / 64) as u8, (128 + b % 64) as u8]
    }
}

/// The decimal digits of `n`.
pub open spec fn decimal_digits(n: nat) -> Seq<u8>
    decreases n,
{
    if n < 10 {
        seq![(48 + n) as u8]
    } else {
        decimal_digits(n / 10) + seq![(48 + n % 10) as u8]
    }
}

/// The message that describes an error.
pub open spec fn message_text(k: ErrorKind) -> Seq<u8> {
    match k {
        ErrorKind::UnexpectedCharacter(b) => encode_utf8("Unexpected character: "@) + byte_char_text(b),
        ErrorKind::UnterminatedString => encode_utf8("Unterminated string."@),
    }
}

/// A diagnostic's line of text: `[line <N>] Error: <message>`.
pub open spec fn diagnostic_text(line: nat, message: Seq<u8>) -> Seq<u8> {
    encode_utf8("[line "@) + decimal_digits(line) + encode_utf8("] Error: "@) + message
}

/// Appends a whole string's bytes to `out`.
fn push_str(out: &mut Vec<u8>, s: &str)
    ensures
        final(out)@ == old(out)@ + encode_utf8(s@),
{
    let b = s.as_bytes();
    push_range(out, b, 0, b.len());
    proof {
        assert(b@.subrange(0, b@.len() as int) == b@);
    }
}

/// Appends the decimal digits of `n` to `out`.
fn push_decimal(out: &mut Vec<u8>, n: usize)
    ensures
        final(out)@ == old(out)@ + decimal_digits(n as nat),
    decreases n,
{
    if n < 10 {
        out.push((48 + n) as u8);
    } else {
        push_decimal(out, n / 10);
        out.push((48 + n % 10) as u8);
    }
}

impl ErrorKind {
    /// The message that describes this error.
    pub fn message(&self) -> (r: Vec<u8>)
        ensures
            r@ == message_text(*self),
    {
        let mut out: Vec<u8> = Vec::new();
        match self {
            ErrorKind::UnexpectedCharacter(b) => {
                push_str(&mut out, "Unexpected character: ");
                if *b < 128 {
                    out.push(*b);
                } else {
                    out.push(192 + *b / 64);
                    out.push(128 + *b % 64);
                }
            },
            ErrorKind::UnterminatedString => push_str(&mut out, "Unterminated string."),
        }
        out
    }
}

/// The diagnostic line `[line <N>] Error: <message>` for an error at `line`.
pub fn error_line(line: usize, message: &Vec<u8>) -> (r: Vec<u8>)
    ensures
        r@ == diagnostic_text(line as nat, message@),
{
    let mut out: Vec<u8> = Vec::new();
    push_str(&mut out, "[line ");
    push_decimal(&mut out, line);
    push_str(&mut out, "] Error: ");
    push_range(&mut out, message.as_slice(), 0, message.len());
    proof {
        assert(message@.subrange(0, message@.len() as int) == message@);
    }
    out
}

impl Diagnostic {
    /// This diagnostic's line of text.
    pub fn render(&self) -> (r: Vec<u8>)
        ensures
            r@ == diagnostic_text(self@.line, message_text(self@.kind)),
    {
        error_line(self.line, &self.kind.message())
    }
}

} // verus!

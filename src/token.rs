//! Tokens: their kinds, their decoded literal values, and their one-line
//! textual rendering.
use vstd::prelude::*;
use vstd::utf8::encode_utf8;

verus! {

/// The closed set of token kinds.
#[allow(non_camel_case_types)]
#[derive(Clone, Copy, Debug, PartialEq, Eq, Structural)]
pub enum TokenType {
    // Single-character tokens.
    LEFT_PAREN,
    RIGHT_PAREN,
    LEFT_BRACE,
    RIGHT_BRACE,
    COMMA,
    DOT,
    MINUS,
    PLUS,
    SEMICOLON,
    SLASH,
    STAR,
    // One or two character tokens.
    BANG,
    BANG_EQUAL,
    EQUAL,
    EQUAL_EQUAL,
    GREATER,
    GREATER_EQUAL,
    LESS,
    LESS_EQUAL,
    // Literals.
    IDENTIFIER,
    STRING,
    NUMBER,
    // Keywords.
    AND,
    CLASS,
    ELSE,
    FALSE,
    FUN,
    FOR,
    IF,
    NIL,
    OR,
    PRINT,
    RETURN,
    SUPER,
    THIS,
    TRUE,
    VAR,
    WHILE,
    EOF,
}

impl TokenType {
    /// The upper-case name under which a kind is rendered.
    pub open spec fn spec_name(self) -> Seq<char> {
        match self {
            TokenType::LEFT_PAREN => "LEFT_PAREN"@,
            TokenType::RIGHT_PAREN => "RIGHT_PAREN"@,
            TokenType::LEFT_BRACE => "LEFT_BRACE"@,
            TokenType::RIGHT_BRACE => "RIGHT_BRACE"@,
            TokenType::COMMA => "COMMA"@,
            TokenType::DOT => "DOT"@,
            TokenType::MINUS => "MINUS"@,
            TokenType::PLUS => "PLUS"@,
            TokenType::SEMICOLON => "SEMICOLON"@,
            TokenType::SLASH => "SLASH"@,
            TokenType::STAR => "STAR"@,
            TokenType::BANG => "BANG"@,
            TokenType::BANG_EQUAL => "BANG_EQUAL"@,
            TokenType::EQUAL => "EQUAL"@,
            TokenType::EQUAL_EQUAL => "EQUAL_EQUAL"@,
            TokenType::GREATER => "GREATER"@,
            TokenType::GREATER_EQUAL => "GREATER_EQUAL"@,
            TokenType::LESS => "LESS"@,
            TokenType::LESS_EQUAL => "LESS_EQUAL"@,
            TokenType::IDENTIFIER => "IDENTIFIER"@,
            TokenType::STRING => "STRING"@,
            TokenType::NUMBER => "NUMBER"@,
            TokenType::AND => "AND"@,
            TokenType::CLASS => "CLASS"@,
            TokenType::ELSE => "ELSE"@,
            TokenType::FALSE => "FALSE"@,
            TokenType::FUN => "FUN"@,
            TokenType::FOR => "FOR"@,
            TokenType::IF => "IF"@,
            TokenType::NIL => "NIL"@,
            TokenType::OR => "OR"@,
            TokenType::PRINT => "PRINT"@,
            TokenType::RETURN => "RETURN"@,
            TokenType::SUPER => "SUPER"@,
            TokenType::THIS => "THIS"@,
            TokenType::TRUE => "TRUE"@,
            TokenType::VAR => "VAR"@,
            TokenType::WHILE => "WHILE"@,
            TokenType::EOF => "EOF"@,
        }
    }

    /// The upper-case name of this kind, as rendered in token lines.
    pub fn name(&self) -> (r: &'static str)
        ensures
            r@ == self.spec_name(),
    {
        match self {
            TokenType::LEFT_PAREN => "LEFT_PAREN",
            TokenType::RIGHT_PAREN => "RIGHT_PAREN",
            TokenType::LEFT_BRACE => "LEFT_BRACE",
            TokenType::RIGHT_BRACE => "RIGHT_BRACE",
            TokenType::COMMA => "COMMA",
            TokenType::DOT => "DOT",
            TokenType::MINUS => "MINUS",
            TokenType::PLUS => "PLUS",
            TokenType::SEMICOLON => "SEMICOLON",
            TokenType::SLASH => "SLASH",
            TokenType::STAR => "STAR",
            TokenType::BANG => "BANG",
            TokenType::BANG_EQUAL => "BANG_EQUAL",
            TokenType::EQUAL => "EQUAL",
            TokenType::EQUAL_EQUAL => "EQUAL_EQUAL",
            TokenType::GREATER => "GREATER",
            TokenType::GREATER_EQUAL => "GREATER_EQUAL",
            TokenType::LESS => "LESS",
            TokenType::LESS_EQUAL => "LESS_EQUAL",
            TokenType::IDENTIFIER => "IDENTIFIER",
            TokenType::STRING => "STRING",
            TokenType::NUMBER => "NUMBER",
            TokenType::AND => "AND",
            TokenType::CLASS => "CLASS",
            TokenType::ELSE => "ELSE",
            TokenType::FALSE => "FALSE",
            TokenType::FUN => "FUN",
            TokenType::FOR => "FOR",
            TokenType::IF => "IF",
            TokenType::NIL => "NIL",
            TokenType::OR => "OR",
            TokenType::PRINT => "PRINT",
            TokenType::RETURN => "RETURN",
            TokenType::SUPER => "SUPER",
            TokenType::THIS => "THIS",
            TokenType::TRUE => "TRUE",
            TokenType::VAR => "VAR",
            TokenType::WHILE => "WHILE",
            TokenType::EOF => "EOF",
        }
    }
}

/// A decimal number as written in the source: the digits before the point
/// and the digits after it (empty when there is no fractional part).
#[derive(Clone, Debug, PartialEq, Eq)]
pub struct Decimal {
    pub whole: Vec<u8>,
    pub fraction: Vec<u8>,
}

/// A decoded literal value.
#[derive(Clone, Debug, PartialEq, Eq)]
pub enum Value {
    /// The raw bytes between a string's quotes.
    String(Vec<u8>),
    /// A number literal.
    Number(Decimal),
    /// No literal.
    Nil,
}

/// The mathematical form of a [`Value`].
pub enum LiteralSpec {
    Str(Seq<u8>),
    Num(Seq<u8>, Seq<u8>),
    Nil,
}

impl View for Value {
    type V = LiteralSpec;

    open spec fn view(&self) -> LiteralSpec {
        match self {
            Value::String(s) => LiteralSpec::Str(s@),
            Value::Number(d) => LiteralSpec::Num(d.whole@, d.fraction@),
            Value::Nil => LiteralSpec::Nil,
        }
    }
}

/// One lexical unit: its kind, the exact source bytes it came from, its
/// decoded literal, and the 1-based line on which it starts.
#[derive(Clone, Debug, PartialEq, Eq)]
pub struct Token {
    pub token_type: TokenType,
    pub literal: Value,
    pub lexeme: Vec<u8>,
    pub line: usize,
}

/// The mathematical form of a [`Token`].
pub struct TokenSpec {
    pub kind: TokenType,
    pub lexeme: Seq<u8>,
    pub literal: LiteralSpec,
    pub line: nat,
}

impl View for Token {
    type V = TokenSpec;

    open spec fn view(&self) -> TokenSpec {
        TokenSpec {
            kind: self.token_type,
            lexeme: self.lexeme@,
            literal: self.literal@,
            line: self.line as nat,
        }
    }
}

impl Token {
    /// A token with the given parts.
    pub fn new(token_type: TokenType, lexeme: Vec<u8>, literal: Value, line: usize) -> (r: Token)
        ensures
            r@ == (TokenSpec { kind: token_type, lexeme: lexeme@, literal: literal@, line: line as nat }),
    {
        Token { token_type, literal, lexeme, line }
    }

    /// The token's line of text: kind name, lexeme and literal, separated by
    /// single spaces.
    pub fn render(&self) -> (r: Vec<u8>)
        ensures
            r@ == render_token(self@),
    {
        let mut out: Vec<u8> = Vec::new();
        let name = self.token_type.name().as_bytes();
        push_range(&mut out, name, 0, name.len());
        out.push(32u8);
        push_range(&mut out, self.lexeme.as_slice(), 0, self.lexeme.len());
        out.push(32u8);
        render_value(&self.literal, &mut out);
        proof {
            assert(name@.subrange(0, name@.len() as int) == name@);
            assert(self.lexeme@.subrange(0, self.lexeme@.len() as int) == self.lexeme@);
            assert(out@ == render_token(self@));
        }
        out
    }
}

/// `w` without its leading zeros, keeping at least one digit.
pub open spec fn strip_leading_zeros(w: Seq<u8>) -> Seq<u8>
    decreases w.len(),
{
    if w.len() > 1 && w[0] == 48u8 {
        strip_leading_zeros(w.drop_first())
    } else {
        w
    }
}

/// `f` without its trailing zeros.
pub open spec fn strip_trailing_zeros(f: Seq<u8>) -> Seq<u8>
    decreases f.len(),
{
    if f.len() > 0 && f.last() == 48u8 {
        strip_trailing_zeros(f.drop_last())
    } else {
        f
    }
}

/// The natural decimal form of a number: no leading zeros in the whole part,
/// no trailing zeros in the fraction, and always at least one fractional
/// digit (`7.0`, `123.456`).
pub open spec fn decimal_text(whole: Seq<u8>, fraction: Seq<u8>) -> Seq<u8> {
    let f = strip_trailing_zeros(fraction);
    strip_leading_zeros(whole) + seq![46u8] + if f.len() == 0 {
        seq![48u8]
    } else {
        f
    }
}

/// How a literal is rendered: a string as its raw content, a number in its
/// natural decimal form, no literal as `null`.
pub open spec fn render_literal(l: LiteralSpec) -> Seq<u8> {
    match l {
        LiteralSpec::Str(s) => s,
        LiteralSpec::Num(w, f) => decimal_text(w, f),
        LiteralSpec::Nil => encode_utf8("null"@),
    }
}

/// A token's line of text: `<KIND> <lexeme> <literal>`.
pub open spec fn render_token(t: TokenSpec) -> Seq<u8> {
    encode_utf8(t.kind.spec_name()) + seq![32u8] + t.lexeme + seq![32u8] + render_literal(
        t.literal,
    )
}

/// Appends `s[lo..hi]` to `out`.
pub(crate) fn push_range(out: &mut Vec<u8>, s: &[u8], lo: usize, hi: usize)
    requires
        lo <= hi <= s@.len(),
    ensures
        final(out)@ == old(out)@ + s@.subrange(lo as int, hi as int),
{
    let mut i: usize = lo;
    while i < hi
        invariant
            lo <= i <= hi <= s@.len(),
            out@ == old(out)@ + s@.subrange(lo as int, i as int),
        decreases hi - i,
    {
        out.push(s[i]);
        i = i + 1;
        proof {
            assert(s@.subrange(lo as int, i as int) == s@.subrange(lo as int, i - 1) + seq![
                s@[i - 1],
            ]);
        }
    }
}

/// Appends the natural decimal form of `d` to `out`.
fn render_decimal(d: &Decimal, out: &mut Vec<u8>)
    ensures
        final(out)@ == old(out)@ + decimal_text(d.whole@, d.fraction@),
{
    let w = d.whole.as_slice();
    let f = d.fraction.as_slice();
    let mut lo: usize = 0;
    proof {
        assert(w@.subrange(0, w@.len() as int) == w@);
        assert(f@.subrange(0, f@.len() as int) == f@);
    }
    while w.len() - lo > 1 && w[lo] == 48u8
        invariant
            lo == 0 || lo < w@.len(),
            lo <= w@.len(),
            strip_leading_zeros(w@.subrange(lo as int, w@.len() as int)) == strip_leading_zeros(w@),
        decreases w@.len() - lo,
    {
        proof {
            assert(w@.subrange(lo as int, w@.len() as int).drop_first() == w@.subrange(
                lo + 1,
                w@.len() as int,
            ));
        }
        lo = lo + 1;
    }
    let mut hi: usize = f.len();
    while hi > 0 && f[hi - 1] == 48u8
        invariant
            hi <= f@.len(),
            strip_trailing_zeros(f@.subrange(0, hi as int)) == strip_trailing_zeros(f@),
        decreases hi,
    {
        proof {
            assert(f@.subrange(0, hi as int).drop_last() == f@.subrange(0, hi - 1));
        }
        hi = hi - 1;
    }
    push_range(out, w, lo, w.len());
    out.push(46u8);
    if hi == 0 {
        out.push(48u8);
    } else {
        push_range(out, f, 0, hi);
    }
}

/// Appends the rendering of a literal to `out`.
fn render_value(v: &Value, out: &mut Vec<u8>)
    ensures
        final(out)@ == old(out)@ + render_literal(v@),
{
    match v {
        Value::String(s) => {
            push_range(out, s.as_slice(), 0, s.len());
            assert(s@.subrange(0, s@.len() as int) == s@);
        },
        Value::Number(d) => render_decimal(d, out),
        Value::Nil => {
            let b = "null".as_bytes();
            push_range(out, b, 0, b.len());
            assert(b@.subrange(0, b@.len() as int) == b@);
        },
    }
}

} // verus!

//! The scanner: one left-to-right pass over a source buffer.
use crate::grammar::{
    Class, has_fraction, in_class, is_blank, is_digit, is_word_start, lemma_line_step,
    lemma_newlines_bound, lemma_run_end, lemma_same_line, lemma_unit_bounds, line_at, number_end,
    operator_kinds, run_end, scan, scan_from, single_kind, unit_at, unit_output, whole_end,
    word_kind,
};
use crate::report::{Diagnostic, DiagnosticSpec, ErrorKind};
use crate::source::{buffer_at, buffer_bytes, buffer_from_str, buffer_len, buffer_slice};
use crate::token::{Decimal, Token, TokenSpec, TokenType, Value};
use bytes::BytesMut;
use vstd::prelude::*;
use vstd::utf8::encode_utf8;

verus! {

pub open spec fn token_views(ts: Seq<Token>) -> Seq<TokenSpec> {
    ts.map_values(|t: Token| t@)
}

pub open spec fn diagnostic_views(ds: Seq<Diagnostic>) -> Seq<DiagnosticSpec> {
    ds.map_values(|d: Diagnostic| d@)
}

/// A scanner over one source buffer. `tokenize` fills `tokens` and
/// `diagnostics`, and sets `exit_code` to 65 when any error was found.
pub struct Lexer {
    source: BytesMut,
    pub tokens: Vec<Token>,
    pub diagnostics: Vec<Diagnostic>,
    line: usize,
    curr: usize,
    start: usize,
    pub exit_code: i32,
}

/// Whether `b` is an ASCII digit.
fn digit_byte(b: u8) -> (r: bool)
    ensures
        r == is_digit(b),
{
    '0' as u8 <= b && b <= '9' as u8
}

/// Whether `b` belongs to class `c`.
fn class_has(c: Class, b: u8) -> (r: bool)
    ensures
        r == in_class(c, b),
{
    match c {
        Class::Digit => digit_byte(b),
        Class::Word => word_start_byte(b) || digit_byte(b),
        Class::NotNewline => b != '\n' as u8,
        Class::NotQuote => b != '"' as u8,
    }
}

/// Whether `b` starts a word.
fn word_start_byte(b: u8) -> (r: bool)
    ensures
        r == is_word_start(b),
{
    ('a' as u8 <= b && b <= 'z' as u8) || ('A' as u8 <= b && b <= 'Z' as u8) || b == '_' as u8
}

/// The kind of a one-byte punctuation token.
fn single_kind_of(c: u8) -> (r: Option<TokenType>)
    ensures
        r == single_kind(c),
{
    if c == '(' as u8 {
        Some(TokenType::LEFT_PAREN)
    } else if c == ')' as u8 {
        Some(TokenType::RIGHT_PAREN)
    } else if c == '{' as u8 {
        Some(TokenType::LEFT_BRACE)
    } else if c == '}' as u8 {
        Some(TokenType::RIGHT_BRACE)
    } else if c == ',' as u8 {
        Some(TokenType::COMMA)
    } else if c == '.' as u8 {
        Some(TokenType::DOT)
    } else if c == '-' as u8 {
        Some(TokenType::MINUS)
    } else if c == '+' as u8 {
        Some(TokenType::PLUS)
    } else if c == ';' as u8 {
        Some(TokenType::SEMICOLON)
    } else if c == '*' as u8 {
        Some(TokenType::STAR)
    } else {
        None
    }
}

/// The kinds of an operator byte, alone and followed by `=`.
fn operator_kinds_of(c: u8) -> (r: Option<(TokenType, TokenType)>)
    ensures
        r == operator_kinds(c),
{
    if c == '!' as u8 {
        Some((TokenType::BANG, TokenType::BANG_EQUAL))
    } else if c == '=' as u8 {
        Some((TokenType::EQUAL, TokenType::EQUAL_EQUAL))
    } else if c == '<' as u8 {
        Some((TokenType::LESS, TokenType::LESS_EQUAL))
    } else if c == '>' as u8 {
        Some((TokenType::GREATER, TokenType::GREATER_EQUAL))
    } else {
        None
    }
}

/// Whether two byte sequences are equal.
fn bytes_equal(a: &[u8], b: &[u8]) -> (r: bool)
    ensures
        r == (a@ == b@),
{
    if a.len() != b.len() {
        return false;
    }
    let mut i: usize = 0;
    while i < a.len()
        invariant
            a@.len() == b@.len(),
            i <= a@.len(),
            forall|k: int| 0 <= k < i ==> a@[k] == b@[k],
        decreases a@.len() - i,
    {
        if a[i] != b[i] {
            return false;
        }
        i = i + 1;
    }
    proof {
        assert(a@ == b@);
    }
    true
}

/// Whether `w` spells the word `kw`.
fn spells(w: &Vec<u8>, kw: &str) -> (r: bool)
    ensures
        r == (w@ == encode_utf8(kw@)),
{
    bytes_equal(w.as_slice(), kw.as_bytes())
}

/// The kind of a word: its keyword, or `IDENTIFIER`.
fn word_kind_of(w: &Vec<u8>) -> (r: TokenType)
    ensures
        r == word_kind(w@),
{
    if spells(w, "and") {
        TokenType::AND
    } else if spells(w, "class") {
        TokenType::CLASS
    } else if spells(w, "else") {
        TokenType::ELSE
    } else if spells(w, "false") {
        TokenType::FALSE
    } else if spells(w, "for") {
        TokenType::FOR
    } else if spells(w, "fun") {
        TokenType::FUN
    } else if spells(w, "if") {
        TokenType::IF
    } else if spells(w, "nil") {
        TokenType::NIL
    } else if spells(w, "or") {
        TokenType::OR
    } else if spells(w, "print") {
        TokenType::PRINT
    } else if spells(w, "return") {
        TokenType::RETURN
    } else if spells(w, "super") {
        TokenType::SUPER
    } else if spells(w, "this") {
        TokenType::THIS
    } else if spells(w, "true") {
        TokenType::TRUE
    } else if spells(w, "var") {
        TokenType::VAR
    } else if spells(w, "while") {
        TokenType::WHILE
    } else {
        TokenType::IDENTIFIER
    }
}

impl Lexer {
    /// The bytes being scanned.
    pub closed spec fn src(&self) -> Seq<u8> {
        buffer_bytes(self.source)
    }

    /// The tokens held, as values.
    pub closed spec fn scanned_tokens(&self) -> Seq<TokenSpec> {
        token_views(self.tokens@)
    }

    /// The errors held, as values.
    pub closed spec fn found_errors(&self) -> Seq<DiagnosticSpec> {
        diagnostic_views(self.diagnostics@)
    }

    /// The exit status held.
    pub closed spec fn status(&self) -> i32 {
        self.exit_code
    }

    /// The tokens found by the last scan.
    pub fn tokens(&self) -> (r: &Vec<Token>)
        ensures
            token_views(r@) == self.scanned_tokens(),
    {
        &self.tokens
    }

    /// The errors found by the last scan.
    pub fn diagnostics(&self) -> (r: &Vec<Diagnostic>)
        ensures
            diagnostic_views(r@) == self.found_errors(),
    {
        &self.diagnostics
    }

    /// 65 if the last scan found an error, else 0.
    pub fn exit_code(&self) -> (r: i32)
        ensures
            r == self.status(),
    {
        self.exit_code
    }

    /// The scan state between steps: the cursor lies within the source and
    /// the exit code reflects the errors found so far.
    spec fn wf(&self) -> bool {
        &&& self.src().len() < usize::MAX
        &&& self.start <= self.curr <= self.src().len()
        &&& self.exit_code == if self.diagnostics@.len() > 0 {
            65i32
        } else {
            0i32
        }
    }

    /// Only the cursor moved.
    spec fn moved_only(&self, old: Lexer) -> bool {
        &&& self.source == old.source
        &&& self.tokens == old.tokens
        &&& self.diagnostics == old.diagnostics
        &&& self.line == old.line
        &&& self.start == old.start
        &&& self.exit_code == old.exit_code
    }

    /// One scan step from `self.start` (in `old`) is done in `self`.
    spec fn stepped(&self, old: Lexer) -> bool {
        let src = old.src();
        let s = old.start as int;
        let e = unit_at(src, s).1;
        let out = unit_output(src, s);
        &&& self.source == old.source
        &&& self.start == old.start
        &&& self.curr == e
        &&& self.line == line_at(src, e)
        &&& token_views(self.tokens@) == token_views(old.tokens@) + out.0
        &&& diagnostic_views(self.diagnostics@) == diagnostic_views(old.diagnostics@) + out.1
        &&& self.wf()
    }

    /// The state in which a unit whose first byte was just consumed is scanned.
    spec fn entered(&self) -> bool {
        &&& self.wf()
        &&& self.start < self.src().len()
        &&& self.curr == self.start + 1
        &&& self.line == line_at(self.src(), self.start as int)
    }

    /// A scanner over the UTF-8 bytes of `source`, with nothing scanned yet.
    /// The source must be shorter than `usize::MAX` bytes, so that every line
    /// number fits in a `usize`.
    pub fn new(source: String) -> (r: Lexer)
        requires
            encode_utf8(source@).len() < usize::MAX,
        ensures
            r.src() == encode_utf8(source@),
            r.scanned_tokens().len() == 0,
            r.found_errors().len() == 0,
            r.status() == 0,
    {
        Lexer {
            tokens: Vec::new(),
            diagnostics: Vec::new(),
            source: buffer_from_str(source.as_str()),
            line: 1,
            curr: 0,
            start: 0,
            exit_code: 0,
        }
    }

    fn is_at_end(&self) -> (r: bool)
        ensures
            r == (self.curr >= self.src().len()),
    {
        self.curr >= buffer_len(&self.source)
    }

    fn peek(&self) -> (r: Option<u8>)
        ensures
            r == if self.curr < self.src().len() {
                Some(self.src()[self.curr as int])
            } else {
                None
            },
    {
        if !self.is_at_end() {
            Some(buffer_at(&self.source, self.curr))
        } else {
            None
        }
    }

    fn peek_next(&self) -> (r: Option<u8>)
        ensures
            r == if self.curr + 1 < self.src().len() {
                Some(self.src()[self.curr + 1])
            } else {
                None
            },
    {
        let len = buffer_len(&self.source);
        if self.curr < len && len - self.curr > 1 {
            Some(buffer_at(&self.source, self.curr + 1))
        } else {
            None
        }
    }

    /// Whether the byte under the cursor belongs to class `c`.
    fn peek_in(&self, c: Class) -> (r: bool)
        ensures
            r == (self.curr < self.src().len() && in_class(c, self.src()[self.curr as int])),
    {
        match self.peek() {
            Some(b) => class_has(c, b),
            None => false,
        }
    }

    fn advance(&mut self) -> (r: u8)
        requires
            old(self).curr < old(self).src().len() < usize::MAX,
        ensures
            r == old(self).src()[old(self).curr as int],
            final(self).curr == old(self).curr + 1,
            final(self).moved_only(*old(self)),
    {
        let b = buffer_at(&self.source, self.curr);
        self.curr = self.curr + 1;
        b
    }

    /// Consumes the byte under the cursor if it is `c`.
    fn match_next(&mut self, c: u8) -> (r: bool)
        requires
            old(self).src().len() < usize::MAX,
        ensures
            r == (old(self).curr < old(self).src().len() && old(self).src()[old(self).curr as int]
                == c),
            final(self).curr == if r {
                old(self).curr + 1
            } else {
                old(self).curr as int
            },
            final(self).moved_only(*old(self)),
    {
        match self.peek() {
            Some(x) => {
                if x == c {
                    self.curr = self.curr + 1;
                    true
                } else {
                    false
                }
            },
            None => false,
        }
    }

    /// Consumes the longest run of bytes of class `c`.
    fn advance_while(&mut self, c: Class)
        requires
            old(self).curr <= old(self).src().len() < usize::MAX,
        ensures
            final(self).curr == run_end(old(self).src(), old(self).curr as int, c),
            final(self).moved_only(*old(self)),
    {
        let ghost src = self.src();
        let ghost from = self.curr as int;
        while self.peek_in(c)
            invariant
                self.moved_only(*old(self)),
                src == self.src(),
                from <= self.curr <= src.len() < usize::MAX,
                run_end(src, self.curr as int, c) == run_end(src, from, c),
            decreases src.len() - self.curr,
        {
            self.advance();
        }
    }

    /// Consumes the rest of a line comment, up to the newline.
    fn skip_line(&mut self)
        requires
            old(self).curr <= old(self).src().len() < usize::MAX,
        ensures
            final(self).curr == run_end(old(self).src(), old(self).curr as int, Class::NotNewline),
            final(self).moved_only(*old(self)),
    {
        self.advance_while(Class::NotNewline);
    }

    /// Emits a token whose lexeme is the bytes from `start` to the cursor.
    fn add_token(&mut self, token_type: TokenType, literal: Value)
        requires
            old(self).start <= old(self).curr <= old(self).src().len(),
        ensures
            token_views(final(self).tokens@) == token_views(old(self).tokens@).push(
                TokenSpec {
                    kind: token_type,
                    lexeme: old(self).src().subrange(old(self).start as int, old(self).curr as int),
                    literal: literal@,
                    line: old(self).line as nat,
                },
            ),
            final(self).source == old(self).source,
            final(self).diagnostics == old(self).diagnostics,
            final(self).line == old(self).line,
            final(self).curr == old(self).curr,
            final(self).start == old(self).start,
            final(self).exit_code == old(self).exit_code,
    {
        let text = buffer_slice(&self.source, self.start, self.curr);
        let line = self.line;
        self.tokens.push(Token::new(token_type, text, literal, line));
        proof {
            assert(token_views(self.tokens@) =~= token_views(old(self).tokens@).push(
                self.tokens@.last()@,
            ));
        }
    }

    /// Records an error at `line` and marks the scan as failed.
    fn report(&mut self, line: usize, kind: ErrorKind)
        ensures
            diagnostic_views(final(self).diagnostics@) == diagnostic_views(
                old(self).diagnostics@,
            ).push(DiagnosticSpec { line: line as nat, kind }),
            final(self).diagnostics@.len() > 0,
            final(self).exit_code == 65,
            final(self).source == old(self).source,
            final(self).tokens == old(self).tokens,
            final(self).line == old(self).line,
            final(self).curr == old(self).curr,
            final(self).start == old(self).start,
    {
        self.diagnostics.push(Diagnostic { line, kind });
        self.exit_code = 65;
        proof {
            assert(diagnostic_views(self.diagnostics@) =~= diagnostic_views(
                old(self).diagnostics@,
            ).push(DiagnosticSpec { line: line as nat, kind }));
        }
    }

    /// Scans a string literal whose opening quote was just consumed. Newlines
    /// inside it count as lines; the token carries the line it starts on.
    fn string(&mut self)
        requires
            old(self).entered(),
            old(self).src()[old(self).start as int] == '"' as u8,
        ensures
            final(self).stepped(*old(self)),
    {
        let ghost src = self.src();
        let ghost s = self.start as int;
        let mut newlines: usize = 0;
        proof {
            lemma_run_end(src, s + 1, Class::NotQuote);
            lemma_line_step(src, s);
        }
        while self.peek_in(Class::NotQuote)
            invariant
                self.moved_only(*old(self)),
                src == self.src(),
                self.wf(),
                s + 1 <= self.curr <= src.len() < usize::MAX,
                run_end(src, self.curr as int, Class::NotQuote) == run_end(
                    src,
                    s + 1,
                    Class::NotQuote,
                ),
                self.line + newlines == line_at(src, self.curr as int),
                self.line == line_at(src, s),
            decreases src.len() - self.curr,
        {
            proof {
                lemma_line_step(src, self.curr as int);
                lemma_newlines_bound(src.take(self.curr + 1));
            }
            let b = self.advance();
            if b == '\n' as u8 {
                newlines = newlines + 1;
            }
        }
        proof {
            lemma_newlines_bound(src.take(self.curr as int));
            let c = src[s];
            assert(single_kind(c) is None);
            assert(operator_kinds(c) is None);
            assert(c != ('/' as u8));
            assert(!is_blank(c));
        }
        if self.is_at_end() {
            self.line = self.line + newlines;
            let line = self.line;
            self.report(line, ErrorKind::UnterminatedString);
            proof {
                assert(unit_at(src, s).1 == self.curr);
                assert(self.line == line_at(src, self.curr as int));
                assert(token_views(self.tokens@) =~= token_views(old(self).tokens@) + unit_output(
                    src,
                    s,
                ).0);
                assert(diagnostic_views(self.diagnostics@) =~= diagnostic_views(
                    old(self).diagnostics@,
                ) + unit_output(src, s).1);
            }
        } else {
            proof {
                lemma_line_step(src, self.curr as int);
            }
            self.advance();
            let content = buffer_slice(&self.source, self.start + 1, self.curr - 1);
            self.add_token(TokenType::STRING, Value::String(content));
            self.line = self.line + newlines;
            proof {
                assert(unit_at(src, s).1 == self.curr);
                assert(self.line == line_at(src, self.curr as int));
                assert(token_views(self.tokens@) == token_views(old(self).tokens@) + unit_output(src, s).0);
                assert(diagnostic_views(self.diagnostics@) =~= diagnostic_views(
                    old(self).diagnostics@,
                ) + unit_output(src, s).1);
            }
        }
    }

    /// Scans a number whose first digit was just consumed: a run of digits,
    /// then a fractional part only where a `.` is followed by a digit.
    fn number(&mut self)
        requires
            old(self).entered(),
            is_digit(old(self).src()[old(self).start as int]),
        ensures
            final(self).stepped(*old(self)),
    {
        let ghost src = self.src();
        let ghost s = self.start as int;
        proof {
            lemma_run_end(src, s + 1, Class::Digit);
            lemma_line_step(src, s);
        }
        self.advance_while(Class::Digit);
        let w = self.curr;
        proof {
            lemma_same_line(src, s + 1, w as int);
        }
        let fraction_follows = match (self.peek(), self.peek_next()) {
            (Some(x), Some(y)) => x == '.' as u8 && digit_byte(y),
            _ => false,
        };
        if fraction_follows {
            proof {
                lemma_line_step(src, w as int);
                lemma_run_end(src, w + 1, Class::Digit);
            }
            self.advance();
            self.advance_while(Class::Digit);
            proof {
                lemma_same_line(src, w + 1, self.curr as int);
            }
        }
        let whole = buffer_slice(&self.source, self.start, w);
        let fraction = if fraction_follows {
            buffer_slice(&self.source, w + 1, self.curr)
        } else {
            Vec::new()
        };
        self.add_token(TokenType::NUMBER, Value::Number(Decimal { whole, fraction }));
        proof {
            let c = src[s];
            assert(single_kind(c) is None);
            assert(operator_kinds(c) is None);
            assert(c != ('/' as u8));
            assert(!is_blank(c));
            assert(c != ('"' as u8));
            assert(whole_end(src, s) == w);
            assert(has_fraction(src, s) == fraction_follows);
            assert(number_end(src, s) == self.curr);
            assert(unit_at(src, s).1 == self.curr);
            assert(self.line == line_at(src, self.curr as int));
            assert(token_views(self.tokens@) == token_views(old(self).tokens@) + unit_output(src, s).0);
            assert(diagnostic_views(self.diagnostics@) =~= diagnostic_views(
                old(self).diagnostics@,
            ) + unit_output(src, s).1);
        }
    }

    /// Scans an identifier or keyword whose first byte was just consumed.
    fn identifier(&mut self)
        requires
            old(self).entered(),
            is_word_start(old(self).src()[old(self).start as int]),
        ensures
            final(self).stepped(*old(self)),
    {
        let ghost src = self.src();
        let ghost s = self.start as int;
        proof {
            lemma_run_end(src, s + 1, Class::Word);
            lemma_line_step(src, s);
        }
        self.advance_while(Class::Word);
        proof {
            lemma_same_line(src, s + 1, self.curr as int);
        }
        let word = buffer_slice(&self.source, self.start, self.curr);
        let kind = word_kind_of(&word);
        self.add_token(kind, Value::Nil);
        proof {
            let c = src[s];
            assert(single_kind(c) is None);
            assert(operator_kinds(c) is None);
            assert(c != ('/' as u8));
            assert(!is_blank(c));
            assert(c != ('"' as u8));
            assert(!is_digit(c));
            assert(unit_at(src, s).1 == self.curr);
            assert(self.line == line_at(src, self.curr as int));
            assert(token_views(self.tokens@) == token_views(old(self).tokens@) + unit_output(src, s).0);
            assert(diagnostic_views(self.diagnostics@) =~= diagnostic_views(
                old(self).diagnostics@,
            ) + unit_output(src, s).1);
        }
    }

    /// Scans the unit that starts at the cursor.
    fn scan_token(&mut self)
        requires
            old(self).wf(),
            old(self).start == old(self).curr < old(self).src().len(),
            old(self).line == line_at(old(self).src(), old(self).curr as int),
        ensures
            final(self).stepped(*old(self)),
    {
        let ghost src = self.src();
        let ghost s = self.start as int;
        proof {
            lemma_line_step(src, s);
            lemma_newlines_bound(src.take(s));
            lemma_unit_bounds(src, s);
        }
        let c = self.advance();
        if let Some(k) = single_kind_of(c) {
            self.add_token(k, Value::Nil);
            proof {
                assert(unit_at(src, s).1 == s + 1);
                assert(token_views(self.tokens@) == token_views(old(self).tokens@) + unit_output(src, s).0);
            }
        } else if let Some((one, two)) = operator_kinds_of(c) {
            if self.match_next('=' as u8) {
                proof {
                    lemma_line_step(src, s + 1);
                }
                self.add_token(two, Value::Nil);
                proof {
                    assert(unit_at(src, s).1 == s + 2);
                    assert(self.line == line_at(src, s + 2));
                    assert(token_views(self.tokens@) == token_views(old(self).tokens@) + unit_output(src, s).0);
                }
            } else {
                self.add_token(one, Value::Nil);
                proof {
                    assert(unit_at(src, s).1 == s + 1);
                    assert(token_views(self.tokens@) == token_views(old(self).tokens@) + unit_output(src, s).0);
                }
            }
        } else if c == '/' as u8 {
            if self.match_next('/' as u8) {
                proof {
                    lemma_line_step(src, s + 1);
                    lemma_run_end(src, s + 2, Class::NotNewline);
                }
                self.skip_line();
                proof {
                    lemma_same_line(src, s + 2, self.curr as int);
                    assert(unit_at(src, s).1 == self.curr);
                }
            } else {
                self.add_token(TokenType::SLASH, Value::Nil);
                proof {
                    assert(unit_at(src, s).1 == s + 1);
                    assert(token_views(self.tokens@) == token_views(old(self).tokens@) + unit_output(src, s).0);
                }
            }
        } else if c == ' ' as u8 || c == '\t' as u8 || c == '\r' as u8 {
            proof {
                assert(unit_at(src, s).1 == s + 1);
            }
        } else if c == '\n' as u8 {
            self.line = self.line + 1;
            proof {
                assert(unit_at(src, s).1 == s + 1);
            }
        } else if c == '"' as u8 {
            self.string();
        } else if digit_byte(c) {
            self.number();
        } else if word_start_byte(c) {
            self.identifier();
        } else {
            let line = self.line;
            self.report(line, ErrorKind::UnexpectedCharacter(c));
            proof {
                assert(unit_at(src, s).1 == s + 1);
                assert(diagnostic_views(self.diagnostics@) == diagnostic_views(old(self).diagnostics@) + unit_output(src, s).1);
            }
        }
        proof {
            let out = unit_output(src, s);
            if out.0.len() == 0 {
                assert(token_views(self.tokens@) =~= token_views(old(self).tokens@) + out.0);
            }
            if out.1.len() == 0 {
                assert(diagnostic_views(self.diagnostics@) =~= diagnostic_views(
                    old(self).diagnostics@,
                ) + out.1);
            }
        }
    }

    /// Scans the whole source from its start: afterwards `tokens` holds every
    /// token in source order ending with `EOF`, `diagnostics` every error in
    /// the order found, and `exit_code` is 65 if there was any error, else 0.
    pub fn tokenize(&mut self)
        requires
            old(self).src().len() < usize::MAX,
        ensures
            final(self).src() == old(self).src(),
            final(self).scanned_tokens() == scan(old(self).src()).0,
            final(self).found_errors() == scan(old(self).src()).1,
            final(self).status() == if scan(old(self).src()).1.len() > 0 {
                65i32
            } else {
                0i32
            },
    {
        let ghost src = self.src();
        self.tokens = Vec::new();
        self.diagnostics = Vec::new();
        self.exit_code = 0;
        self.line = 1;
        self.curr = 0;
        self.start = 0;
        proof {
            assert(src.take(0) =~= Seq::<u8>::empty());
            assert(token_views(self.tokens@) =~= Seq::<TokenSpec>::empty());
            assert(diagnostic_views(self.diagnostics@) =~= Seq::<DiagnosticSpec>::empty());
            assert(token_views(self.tokens@) + scan_from(src, 0).0 =~= scan(src).0);
            assert(diagnostic_views(self.diagnostics@) + scan_from(src, 0).1 =~= scan(src).1);
        }
        while !self.is_at_end()
            invariant
                self.wf(),
                self.src() == src,
                self.line == line_at(src, self.curr as int),
                token_views(self.tokens@) + scan_from(src, self.curr as int).0 == scan(src).0,
                diagnostic_views(self.diagnostics@) + scan_from(src, self.curr as int).1 == scan(
                    src,
                ).1,
            decreases src.len() - self.curr,
        {
            self.start = self.curr;
            let ghost before = *self;
            self.scan_token();
            proof {
                lemma_unit_bounds(src, before.curr as int);
                let p = before.curr as int;
                let e = self.curr as int;
                assert(scan_from(src, p).0 == unit_output(src, p).0 + scan_from(src, e).0);
                assert(token_views(before.tokens@) + scan_from(src, p).0 =~= token_views(
                    self.tokens@,
                ) + scan_from(src, e).0);
                assert(diagnostic_views(before.diagnostics@) + scan_from(src, p).1
                    =~= diagnostic_views(self.diagnostics@) + scan_from(src, e).1);
            }
        }
        let line = self.line;
        self.tokens.push(Token::new(TokenType::EOF, Vec::new(), Value::Nil, line));
        proof {
            assert(token_views(self.tokens@) =~= token_views(self.tokens@.drop_last()).push(
                self.tokens@.last()@,
            ));
            assert(diagnostic_views(self.diagnostics@) =~= diagnostic_views(self.diagnostics@)
                + scan_from(src, self.curr as int).1);
        }
    }
}

} // verus!

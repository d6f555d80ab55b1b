//! The front end around the scanner: it scans a whole source and hands back
//! the text to show, one line per token and one per error.
use crate::grammar::scan;
use crate::lexer::{diagnostic_views, token_views, Lexer};
use crate::report::{diagnostic_text, message_text};
use crate::token::render_token;
use vstd::prelude::*;
use vstd::utf8::encode_utf8;

verus! {

/// Owns a scanner and the exit status of its last scan.
pub struct Parser {
    lexer: Lexer,
    pub exit_code: i32,
}

impl Parser {
    /// The bytes to be scanned.
    pub closed spec fn src(&self) -> Seq<u8> {
        self.lexer.src()
    }

    /// The exit status held.
    pub closed spec fn status(&self) -> i32 {
        self.exit_code
    }

    /// A front end over the UTF-8 bytes of `source`, which must be shorter
    /// than `usize::MAX` bytes.
    pub fn new(source: String) -> (r: Parser)
        requires
            encode_utf8(source@).len() < usize::MAX,
        ensures
            r.src() == encode_utf8(source@),
            r.status() == 0,
    {
        Parser { lexer: Lexer::new(source), exit_code: 0 }
    }

    /// Scans the source. Returns the line of text of each token, in order and
    /// ending with `EOF`, and the diagnostic line of each error, in the order
    /// found; records 65 as the exit status if there was any error, else 0.
    pub fn scan_lines(&mut self) -> (r: (Vec<Vec<u8>>, Vec<Vec<u8>>))
        requires
            old(self).src().len() < usize::MAX,
        ensures
            final(self).src() == old(self).src(),
            r.0@.len() == scan(old(self).src()).0.len(),
            forall|i: int|
                0 <= i < r.0@.len() ==> #[trigger] r.0@[i]@ == render_token(
                    scan(old(self).src()).0[i],
                ),
            r.1@.len() == scan(old(self).src()).1.len(),
            forall|i: int|
                0 <= i < r.1@.len() ==> #[trigger] r.1@[i]@ == diagnostic_text(
                    scan(old(self).src()).1[i].line,
                    message_text(scan(old(self).src()).1[i].kind),
                ),
            final(self).status() == if scan(old(self).src()).1.len() > 0 {
                65i32
            } else {
                0i32
            },
    {
        self.lexer.tokenize();
        let tokens = self.lexer.tokens();
        let mut token_lines: Vec<Vec<u8>> = Vec::new();
        let mut i: usize = 0;
        while i < tokens.len()
            invariant
                i <= tokens@.len(),
                token_lines@.len() == i,
                forall|k: int|
                    0 <= k < i ==> #[trigger] token_lines@[k]@ == render_token(
                        token_views(tokens@)[k],
                    ),
            decreases tokens@.len() - i,
        {
            token_lines.push(tokens[i].render());
            i = i + 1;
        }
        let diagnostics = self.lexer.diagnostics();
        let mut error_lines: Vec<Vec<u8>> = Vec::new();
        let mut j: usize = 0;
        while j < diagnostics.len()
            invariant
                j <= diagnostics@.len(),
                error_lines@.len() == j,
                forall|k: int|
                    0 <= k < j ==> #[trigger] error_lines@[k]@ == diagnostic_text(
                        diagnostic_views(diagnostics@)[k].line,
                        message_text(diagnostic_views(diagnostics@)[k].kind),
                    ),
            decreases diagnostics@.len() - j,
        {
            error_lines.push(diagnostics[j].render());
            j = j + 1;
        }
        self.exit_code = self.lexer.exit_code();
        (token_lines, error_lines)
    }
}

} // verus!

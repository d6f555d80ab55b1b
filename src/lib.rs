//! A scanner for a small dynamically-typed scripting language: source bytes
//! in, an ordered sequence of typed tokens out, with line tracking and
//! non-fatal error recovery.
//!
//! - `grammar`: what a scan yields, as mathematics.
//! - `lexer`: the scanner, proved to yield exactly that.
//! - `laws`: facts that hold of every scan.
//! - `token`, `report`: tokens, errors, and their lines of text.
//! - `parser`: scans a source and hands back the lines to show.
//! - `source`: the byte buffer being scanned.
pub mod grammar;
pub mod laws;
pub mod lexer;
pub mod parser;
pub mod report;
pub mod source;
pub mod token;

//! What holds of every scan.
use crate::grammar::{
    Class, byte_at_is, eof_token, is_blank, lemma_line_step, lemma_run_end, lemma_unit_bounds,
    line_at, run_end, scan, scan_from, unit_at, unit_output, Unit,
};
use crate::token::{LiteralSpec, TokenType};
use vstd::prelude::*;

verus! {

/// `src` from position `i` on holds only whitespace and line comments.
pub open spec fn blank_from(src: Seq<u8>, i: int) -> bool
    decreases src.len() - i,
    via blank_from_decreases
{
    if i < 0 || i >= src.len() {
        true
    } else if is_blank(src[i]) {
        blank_from(src, i + 1)
    } else if src[i] == ('/' as u8) && byte_at_is(src, i + 1, '/' as u8) {
        blank_from(src, run_end(src, i + 2, Class::NotNewline))
    } else {
        false
    }
}

#[via_fn]
proof fn blank_from_decreases(src: Seq<u8>, i: int) {
    if 0 <= i < src.len() && i + 2 <= src.len() {
        lemma_run_end(src, i + 2, Class::NotNewline);
    }
}

proof fn lemma_eof_from(src: Seq<u8>, pos: int)
    requires
        0 <= pos,
    ensures
        scan_from(src, pos).0.len() >= 1,
        scan_from(src, pos).0.last() == eof_token(src),
        forall|i: int|
            0 <= i < scan_from(src, pos).0.len() - 1 ==> #[trigger] scan_from(src, pos).0[i].kind
                != TokenType::EOF,
    decreases src.len() - pos,
{
    if pos < src.len() {
        lemma_unit_bounds(src, pos);
        let e = unit_at(src, pos).1;
        lemma_eof_from(src, e);
        let out = unit_output(src, pos);
        let rest = scan_from(src, e);
        assert(scan_from(src, pos).0 == out.0 + rest.0);
        assert forall|i: int| 0 <= i < scan_from(src, pos).0.len() - 1 implies #[trigger] scan_from(
            src,
            pos,
        ).0[i].kind != TokenType::EOF by {
            if i >= out.0.len() {
                assert(scan_from(src, pos).0[i] == rest.0[i - out.0.len()]);
            } else {
                match unit_at(src, pos).0 {
                    Unit::Token(k, l) => {
                        assert(k != TokenType::EOF);
                    },
                    _ => {},
                }
            }
        }
    }
}

/// Every scan ends with exactly one `EOF` token: the last token is `EOF`,
/// with an empty lexeme and no literal, on the last line; no other token is
/// `EOF`.
pub proof fn lemma_ends_with_eof(src: Seq<u8>)
    ensures
        scan(src).0.len() >= 1,
        scan(src).0.last().kind == TokenType::EOF,
        scan(src).0.last().lexeme.len() == 0,
        scan(src).0.last().literal == LiteralSpec::Nil,
        scan(src).0.last().line == line_at(src, src.len() as int),
        forall|i: int| 0 <= i < scan(src).0.len() - 1 ==> #[trigger] scan(src).0[i].kind
            != TokenType::EOF,
{
    lemma_eof_from(src, 0);
}

proof fn lemma_blank_from(src: Seq<u8>, pos: int)
    requires
        0 <= pos,
        blank_from(src, pos),
    ensures
        scan_from(src, pos).0 == seq![eof_token(src)],
        scan_from(src, pos).1.len() == 0,
    decreases src.len() - pos,
{
    if pos < src.len() {
        lemma_unit_bounds(src, pos);
        let e = unit_at(src, pos).1;
        assert(unit_at(src, pos).0 == Unit::Blank);
        lemma_blank_from(src, e);
        assert(scan_from(src, pos).0 =~= scan_from(src, e).0);
    }
}

/// A source of whitespace and line comments only scans to `EOF` alone, with
/// no error.
pub proof fn lemma_blank_source(src: Seq<u8>)
    requires
        blank_from(src, 0),
    ensures
        scan(src).0 == seq![eof_token(src)],
        scan(src).1.len() == 0,
{
    lemma_blank_from(src, 0);
}

/// Scanning is a function of the source alone: the same bytes give the same
/// tokens and the same errors.
pub proof fn lemma_scan_deterministic(a: Seq<u8>, b: Seq<u8>)
    requires
        a == b,
    ensures
        scan(a) == scan(b),
{
}

/// Where each token of the walk from `pos` starts; `EOF` starts at the end.
pub open spec fn token_starts_from(src: Seq<u8>, pos: int) -> Seq<int>
    decreases src.len() - pos,
    via token_starts_from_decreases
{
    if pos < 0 || pos >= src.len() {
        seq![src.len() as int]
    } else {
        let rest = token_starts_from(src, unit_at(src, pos).1);
        if unit_at(src, pos).0 is Token {
            seq![pos] + rest
        } else {
            rest
        }
    }
}

#[via_fn]
proof fn token_starts_from_decreases(src: Seq<u8>, pos: int) {
    if 0 <= pos < src.len() {
        lemma_unit_bounds(src, pos);
    }
}

/// Lines never go back.
pub proof fn lemma_line_monotonic(src: Seq<u8>, p: int, q: int)
    requires
        0 <= p <= q <= src.len(),
    ensures
        line_at(src, p) <= line_at(src, q),
    decreases q - p,
{
    if p < q {
        lemma_line_monotonic(src, p, q - 1);
        lemma_line_step(src, q - 1);
    }
}

proof fn lemma_starts_from(src: Seq<u8>, pos: int)
    requires
        0 <= pos <= src.len(),
    ensures
        ({
            let ts = scan_from(src, pos).0;
            let ps = token_starts_from(src, pos);
            &&& ps.len() == ts.len()
            &&& forall|i: int| 0 <= i < ps.len() ==> pos <= #[trigger] ps[i] <= src.len()
            &&& forall|i: int|
                0 <= i < ps.len() ==> #[trigger] ts[i].lexeme == src.subrange(
                    ps[i],
                    ps[i] + ts[i].lexeme.len(),
                ) && ts[i].line == line_at(src, ps[i])
            &&& forall|i: int, j: int| 0 <= i < j < ps.len() ==> #[trigger] ps[i] <= #[trigger] ps[j]
        }),
    decreases src.len() - pos,
{
    if pos < src.len() {
        lemma_unit_bounds(src, pos);
        let e = unit_at(src, pos).1;
        lemma_starts_from(src, e);
        let out = unit_output(src, pos);
        let ts = scan_from(src, pos).0;
        let rest = scan_from(src, e).0;
        let ps = token_starts_from(src, pos);
        let rps = token_starts_from(src, e);
        assert(ts == out.0 + rest);
        if unit_at(src, pos).0 is Token {
            assert(ps == seq![pos] + rps);
            assert(ts[0].lexeme == src.subrange(pos, e));
            assert forall|i: int| 0 <= i < ps.len() implies #[trigger] ts[i].lexeme == src.subrange(
                ps[i],
                ps[i] + ts[i].lexeme.len(),
            ) && ts[i].line == line_at(src, ps[i]) by {
                if i > 0 {
                    assert(ts[i] == rest[i - 1]);
                    assert(ps[i] == rps[i - 1]);
                }
            }
            assert forall|i: int, j: int| 0 <= i < j < ps.len() implies #[trigger] ps[i]
                <= #[trigger] ps[j] by {
                assert(ps[j] == rps[j - 1]);
                if i > 0 {
                    assert(ps[i] == rps[i - 1]);
                }
            }
        } else {
            assert(ps == rps);
            assert(ts == rest);
        }
    } else {
        assert(src.subrange(src.len() as int, src.len() as int) =~= Seq::<u8>::empty());
    }
}

/// Each token comes from the source where it stands: the tokens start at
/// non-decreasing positions, each lexeme is the source's bytes from its start,
/// each token's line is the line of its start (so a token after a string that
/// spans lines carries the later line), and lines never decrease along the
/// tokens.
pub proof fn lemma_token_positions(src: Seq<u8>)
    ensures
        ({
            let ts = scan(src).0;
            let ps = token_starts_from(src, 0);
            &&& ps.len() == ts.len()
            &&& forall|i: int| 0 <= i < ps.len() ==> 0 <= #[trigger] ps[i] <= src.len()
            &&& forall|i: int|
                0 <= i < ps.len() ==> #[trigger] ts[i].lexeme == src.subrange(
                    ps[i],
                    ps[i] + ts[i].lexeme.len(),
                ) && ts[i].line == line_at(src, ps[i])
            &&& forall|i: int, j: int| 0 <= i < j < ps.len() ==> #[trigger] ps[i] <= #[trigger] ps[j]
            &&& forall|i: int, j: int|
                0 <= i < j < ts.len() ==> #[trigger] ts[i].line <= #[trigger] ts[j].line
        }),
{
    lemma_starts_from(src, 0);
    let ts = scan(src).0;
    let ps = token_starts_from(src, 0);
    assert forall|i: int, j: int| 0 <= i < j < ts.len() implies #[trigger] ts[i].line
        <= #[trigger] ts[j].line by {
        assert(ps[i] <= ps[j]);
        assert(ts[i].lexeme == src.subrange(ps[i], ps[i] + ts[i].lexeme.len()));
        assert(ts[j].lexeme == src.subrange(ps[j], ps[j] + ts[j].lexeme.len()));
        lemma_line_monotonic(src, ps[i], ps[j]);
    }
}

} // verus!

//! Parsing a piece of text inside a longer line: the grammar reads it as it
//! reads the piece alone, up to where the piece ends.
use vstd::prelude::*;

use crate::error::Error;
use crate::lexer::{digits, is_digit, is_space, lemma_digits_bound, lemma_scan_bounds, scan, spaces};
use crate::parser::{
    additive, multiplicative, parse_expr, parse_expr_rest, parse_factor, parse_term,
    parse_term_rest, Node,
};
use crate::token::Token;

verus! {

/// `e` stands in `s` from position `off` on, and the character that follows it
/// in `s` can neither extend a run of whitespace nor a literal.
pub open spec fn frame(s: Seq<char>, e: Seq<char>, off: int) -> bool {
    &&& 0 <= off
    &&& off + e.len() < s.len()
    &&& forall|k: int| 0 <= k < e.len() ==> s[off + k] == #[trigger] e[k]
    &&& !is_space(s[off + e.len()])
    &&& !is_digit(s[off + e.len()])
}

/// Where a parse of `e` stops at its end, the token that follows `e` in `s`
/// does not continue a product.
pub open spec fn closes(s: Seq<char>, e: Seq<char>, off: int, q: int) -> bool {
    scan(e, q).0 != Token::EndOfFile || multiplicative(scan(s, off + e.len()).0) is None
}

proof fn lemma_frame_spaces(s: Seq<char>, e: Seq<char>, off: int, i: int)
    requires
        frame(s, e, off),
        0 <= i <= e.len(),
    ensures
        spaces(s, off + i) == spaces(e, i),
    decreases e.len() - i,
{
    if i < e.len() {
        assert(s[off + i] == e[i]);
        lemma_frame_spaces(s, e, off, i + 1);
    }
}

proof fn lemma_frame_digits(s: Seq<char>, e: Seq<char>, off: int, i: int)
    requires
        frame(s, e, off),
        0 <= i <= e.len(),
    ensures
        digits(s, off + i) == digits(e, i),
    decreases e.len() - i,
{
    if i < e.len() {
        assert(s[off + i] == e[i]);
        lemma_frame_digits(s, e, off, i + 1);
    }
}

/// Inside `e` the tokens of `s` are those of `e`; where `e` ends, `s` goes on
/// with the token that follows it.
pub proof fn lemma_frame_scan(s: Seq<char>, e: Seq<char>, off: int, i: int)
    requires
        frame(s, e, off),
        0 <= i <= e.len(),
    ensures
        scan(e, i).0 != Token::EndOfFile ==> scan(s, off + i) == (scan(e, i).0, off + scan(e, i).1),
        scan(e, i).0 == Token::EndOfFile ==> scan(s, off + i) == scan(s, off + e.len()),
        scan(e, i).0 == Token::EndOfFile ==> scan(e, i).1 == e.len(),
{
    lemma_scan_bounds(e, i);
    lemma_frame_spaces(s, e, off, i);
    let j = i + spaces(e, i);
    if j < e.len() {
        assert(s[off + j] == e[j]);
        lemma_frame_digits(s, e, off, j + 1);
        let k = j + 1 + digits(e, j + 1);
        lemma_digits_bound(e, j + 1);
        assert(s.subrange(off + j, off + k) =~= e.subrange(j, k));
    } else {
        lemma_frame_spaces(s, e, off, e.len() as int);
    }
}

pub proof fn lemma_frame_factor(s: Seq<char>, e: Seq<char>, off: int, i: int)
    requires
        frame(s, e, off),
        0 <= i <= e.len(),
        parse_factor(e, i) is Ok,
    ensures
        parse_factor(e, i) matches Ok((n, q)) ==> parse_factor(s, off + i) == Ok::<(Node, int), Error>(
            (n, off + q),
        ) && i < q <= e.len(),
    decreases e.len() - i, 0int,
{
    lemma_frame_scan(s, e, off, i);
    lemma_scan_bounds(e, i);
    let (tok, j) = scan(e, i);
    match tok {
        Token::Add | Token::Sub => {
            lemma_frame_factor(s, e, off, j);
        },
        Token::LParen => {
            let (n, q) = parse_expr(e, j)->Ok_0;
            lemma_frame_expr(s, e, off, j);
            lemma_frame_scan(s, e, off, q);
            lemma_scan_bounds(e, q);
        },
        _ => {},
    }
}

proof fn lemma_frame_term_rest(s: Seq<char>, e: Seq<char>, off: int, i: int, acc: Node)
    requires
        frame(s, e, off),
        0 <= i <= e.len(),
        parse_term_rest(e, i, acc) is Ok,
    ensures
        parse_term_rest(e, i, acc) matches Ok((n, q)) ==> parse_term_rest(s, off + i, acc)
            == parse_term_rest(s, off + q, n) && i <= q <= e.len() && multiplicative(
            scan(e, q).0,
        ) is None,
    decreases e.len() - i, 1int,
{
    lemma_frame_scan(s, e, off, i);
    lemma_scan_bounds(e, i);
    let (tok, j) = scan(e, i);
    if let Some(op) = multiplicative(tok) {
        lemma_frame_factor(s, e, off, j);
        let (f, q) = parse_factor(e, j)->Ok_0;
        lemma_frame_term_rest(s, e, off, q, crate::parser::binary(op, acc, f));
    }
}

pub proof fn lemma_frame_term(s: Seq<char>, e: Seq<char>, off: int, i: int)
    requires
        frame(s, e, off),
        0 <= i <= e.len(),
        parse_term(e, i) is Ok,
    ensures
        parse_term(e, i) matches Ok((n, q)) ==> parse_term(s, off + i) == parse_term_rest(
            s,
            off + q,
            n,
        ) && i < q <= e.len() && multiplicative(scan(e, q).0) is None,
    decreases e.len() - i, 2int,
{
    lemma_frame_factor(s, e, off, i);
    let (f, q) = parse_factor(e, i)->Ok_0;
    lemma_frame_term_rest(s, e, off, q, f);
}

/// A term of `e` that stops at a token of `e`, or at a token of `s` that does
/// not continue a product, stops at the same place in `s`.
proof fn lemma_term_stops(s: Seq<char>, e: Seq<char>, off: int, q: int, n: Node)
    requires
        frame(s, e, off),
        0 <= q <= e.len(),
        multiplicative(scan(e, q).0) is None,
        closes(s, e, off, q),
    ensures
        parse_term_rest(s, off + q, n) == Ok::<(Node, int), Error>((n, off + q)),
{
    lemma_frame_scan(s, e, off, q);
}

proof fn lemma_frame_expr_rest(s: Seq<char>, e: Seq<char>, off: int, i: int, acc: Node)
    requires
        frame(s, e, off),
        0 <= i <= e.len(),
        parse_expr_rest(e, i, acc) is Ok,
        parse_expr_rest(e, i, acc) matches Ok((n, q)) ==> closes(s, e, off, q),
    ensures
        parse_expr_rest(e, i, acc) matches Ok((n, q)) ==> parse_expr_rest(s, off + i, acc)
            == parse_expr_rest(s, off + q, n) && i <= q <= e.len() && additive(scan(e, q).0) is None,
    decreases e.len() - i, 3int,
{
    lemma_frame_scan(s, e, off, i);
    lemma_scan_bounds(e, i);
    let (tok, j) = scan(e, i);
    if let Some(op) = additive(tok) {
        lemma_frame_term(s, e, off, j);
        let (t, q) = parse_term(e, j)->Ok_0;
        let b = crate::parser::binary(op, acc, t);
        lemma_scan_bounds(e, q);
        if scan(e, q).0 == Token::EndOfFile {
            assert(parse_expr_rest(e, q, b) == Ok::<(Node, int), Error>((b, q)));
        }
        lemma_term_stops(s, e, off, q, t);
        lemma_frame_expr_rest(s, e, off, q, b);
    }
}

pub proof fn lemma_frame_expr(s: Seq<char>, e: Seq<char>, off: int, i: int)
    requires
        frame(s, e, off),
        0 <= i <= e.len(),
        parse_expr(e, i) is Ok,
        parse_expr(e, i) matches Ok((n, q)) ==> closes(s, e, off, q),
    ensures
        parse_expr(e, i) matches Ok((n, q)) ==> parse_expr(s, off + i) == parse_expr_rest(
            s,
            off + q,
            n,
        ) && i < q <= e.len() && additive(scan(e, q).0) is None,
    decreases e.len() - i, 4int,
{
    lemma_frame_term(s, e, off, i);
    let (t, q) = parse_term(e, i)->Ok_0;
    lemma_scan_bounds(e, q);
    if scan(e, q).0 == Token::EndOfFile {
        assert(parse_expr_rest(e, q, t) == Ok::<(Node, int), Error>((t, q)));
    }
    lemma_term_stops(s, e, off, q, t);
    lemma_frame_expr_rest(s, e, off, q, t);
}

} // verus!

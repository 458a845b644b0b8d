//! General properties of evaluation.
use vstd::prelude::*;

use crate::error::Error;
use crate::frame::{frame, lemma_frame_expr, lemma_frame_factor, lemma_frame_scan, lemma_frame_term};
use crate::interpreter::{apply_binary, eval_line, value_of};
use crate::lexer::{
    decimal_value, digit_value, digits, is_digit, lemma_run_length, lemma_scan_bounds, scan, spaces,
};
use crate::parser::{
    binary, literal, parse_expr, parse_expr_rest, parse_factor,
    parse_line, parse_term, parse_term_rest, BinaryOperator, Node, Parsed,
};
use crate::token::Token;

verus! {

pub open spec fn digit_char(d: nat) -> char {
    seq!['0', '1', '2', '3', '4', '5', '6', '7', '8', '9'][d as int]
}

/// The decimal numeral of `n`, without leading zeros.
pub open spec fn decimal(n: nat) -> Seq<char>
    decreases n,
{
    if n < 10 {
        seq![digit_char(n)]
    } else {
        decimal(n / 10).push(digit_char(n % 10))
    }
}

proof fn lemma_digit_char(d: nat)
    requires
        d < 10,
    ensures
        is_digit(digit_char(d)),
        digit_value(digit_char(d)) == d,
{
}

proof fn lemma_decimal(n: nat)
    ensures
        decimal(n).len() >= 1,
        forall|k: int| 0 <= k < decimal(n).len() ==> is_digit(#[trigger] decimal(n)[k]),
        decimal_value(decimal(n)) == n,
    decreases n,
{
    if n < 10 {
        lemma_digit_char(n);
        let d = decimal(n);
        assert(d.drop_last() =~= Seq::<char>::empty());
        assert(decimal_value(d) == decimal_value(d.drop_last()) * 10 + digit_value(d.last()));
    } else {
        lemma_decimal(n / 10);
        lemma_digit_char(n % 10);
        let d = decimal(n);
        assert(d.drop_last() =~= decimal(n / 10));
        assert(d.last() == digit_char(n % 10));
        assert(decimal_value(d) == decimal_value(decimal(n / 10)) * 10 + digit_value(digit_char(n % 10)));
        assert(n == (n / 10) * 10 + n % 10);
    }
}

/// A line that holds only the numeral of `n`, for any `n` that fits in an
/// `i64`, evaluates to `n`.
pub proof fn lemma_literal_evaluates_to_itself(n: i64)
    requires
        n >= 0,
    ensures
        eval_line(decimal(n as nat)) == Ok::<i64, Error>(n),
{
    let s = decimal(n as nat);
    let len = s.len() as int;
    lemma_decimal(n as nat);
    assert(spaces(s, 0) == 0);
    lemma_run_length(s, 1, len, true);
    assert(1 + digits(s, 1) == len);
    assert(s.subrange(0, len) =~= s);
    assert(scan(s, 0) == (Token::Integer(n), len));
    assert(spaces(s, len) == 0);
    assert(scan(s, len).0 == Token::EndOfFile);
    assert(parse_factor(s, 0) == Ok::<_, Error>((literal(n), len)));
    assert(parse_term(s, 0) == Ok::<_, Error>((literal(n), len)));
    assert(parse_expr(s, 0) == Ok::<_, Error>((literal(n), len)));
    assert(parse_line(s) == Ok::<_, Error>(literal(n)));
}

/// Evaluation depends on the text alone: two evaluations of equal lines,
/// each with its own lexer, parser and interpreter, give equal results.
pub proof fn lemma_evaluation_is_repeatable(a: Seq<char>, b: Seq<char>)
    requires
        a == b,
    ensures
        eval_line(a) == eval_line(b),
{
}

pub open spec fn operator_char(op: BinaryOperator) -> char {
    match op {
        BinaryOperator::Add => '+',
        BinaryOperator::Sub => '-',
        BinaryOperator::Mul => '*',
        BinaryOperator::Div => '/',
    }
}

pub open spec fn is_additive(op: BinaryOperator) -> bool {
    op == BinaryOperator::Add || op == BinaryOperator::Sub
}

/// The text `(e1 op e2)`.
pub open spec fn parenthesized(e1: Seq<char>, op: BinaryOperator, e2: Seq<char>) -> Seq<char> {
    seq!['('] + e1 + seq![operator_char(op)] + e2 + seq![')']
}

/// How the left operand of `op` is read: as an expression beside `+` or `-`,
/// as a term beside `*` or `/`.
pub open spec fn left_operand(op: BinaryOperator, e: Seq<char>) -> Parsed {
    if is_additive(op) {
        parse_expr(e, 0)
    } else {
        parse_term(e, 0)
    }
}

/// How the right operand of `op` is read: as a term beside `+` or `-`, as a
/// factor beside `*` or `/`.
pub open spec fn right_operand(op: BinaryOperator, e: Seq<char>) -> Parsed {
    if is_additive(op) {
        parse_term(e, 0)
    } else {
        parse_factor(e, 0)
    }
}

/// The parse `p` of `e` succeeded and used up all of `e`.
pub open spec fn complete(p: Parsed, e: Seq<char>) -> bool {
    p matches Ok((n, q)) && scan(e, q).0 == Token::EndOfFile
}

/// The value of `l op r`, the left operand computed first.
pub open spec fn combined(op: BinaryOperator, l: Node, r: Node) -> Result<i64, Error> {
    match value_of(l) {
        Ok(a) => match value_of(r) {
            Ok(b) => apply_binary(op, a, b),
            Err(e) => Err(e),
        },
        Err(e) => Err(e),
    }
}

pub open spec fn operator_token(op: BinaryOperator) -> Token {
    match op {
        BinaryOperator::Add => Token::Add,
        BinaryOperator::Sub => Token::Sub,
        BinaryOperator::Mul => Token::Mul,
        BinaryOperator::Div => Token::Div,
    }
}

/// Where the parts of `(e1 op e2)` stand, and the tokens around the operands.
proof fn lemma_parenthesized_layout(e1: Seq<char>, op: BinaryOperator, e2: Seq<char>)
    ensures
        ({
            let w = parenthesized(e1, op, e2);
            let o2 = 2 + e1.len() as int;
            let end = 3 + e1.len() as int + e2.len() as int;
            &&& w.len() == end
            &&& frame(w, e1, 1)
            &&& frame(w, e2, o2)
            &&& scan(w, 0) == (Token::LParen, 1int)
            &&& scan(w, 1 + e1.len() as int) == (operator_token(op), o2)
            &&& scan(w, o2 + e2.len() as int) == (Token::RParen, end)
            &&& scan(w, end).0 == Token::EndOfFile
        }),
{
    let w = parenthesized(e1, op, e2);
    let l1 = e1.len() as int;
    let l2 = e2.len() as int;
    let o2 = 2 + l1;
    let end = 3 + l1 + l2;
    assert(w.len() == end);
    assert(w[0] == '(');
    assert(w[1 + l1] == operator_char(op));
    assert(w[o2 + l2] == ')');
    assert forall|k: int| 0 <= k < e1.len() implies w[1 + k] == #[trigger] e1[k] by {}
    assert forall|k: int| 0 <= k < e2.len() implies w[o2 + k] == #[trigger] e2[k] by {}
    assert(spaces(w, 0) == 0);
    assert(spaces(w, 1 + l1) == 0);
    assert(spaces(w, o2 + l2) == 0);
    assert(spaces(w, end) == 0);
}

/// Inside the parentheses, for `+` and `-`: `w` holds `e1`, then `op`, then
/// `e2`, then a right parenthesis.
proof fn lemma_inner_sum(w: Seq<char>, e1: Seq<char>, op: BinaryOperator, e2: Seq<char>)
    requires
        is_additive(op),
        complete(parse_expr(e1, 0), e1),
        complete(parse_term(e2, 0), e2),
        frame(w, e1, 1),
        frame(w, e2, 2 + e1.len() as int),
        scan(w, 1 + e1.len() as int) == (operator_token(op), 2 + e1.len() as int),
        scan(w, 2 + e1.len() as int + e2.len() as int).0 == Token::RParen,
    ensures
        ({
            let (t1, q1) = parse_expr(e1, 0)->Ok_0;
            let (t2, q2) = parse_term(e2, 0)->Ok_0;
            &&& parse_expr(w, 1) == Ok::<(Node, int), Error>((binary(op, t1, t2), 2 + e1.len() + q2))
            &&& scan(w, 2 + e1.len() + q2) == scan(w, 2 + e1.len() as int + e2.len() as int)
        }),
{
    let o2 = 2 + e1.len() as int;
    let (t1, q1) = parse_expr(e1, 0)->Ok_0;
    let (t2, q2) = parse_term(e2, 0)->Ok_0;
    let b = binary(op, t1, t2);
    lemma_frame_expr(w, e1, 1, 0);
    lemma_frame_scan(w, e1, 1, q1);
    lemma_frame_term(w, e2, o2, 0);
    lemma_frame_scan(w, e2, o2, q2);
    lemma_scan_bounds(e1, q1);
    lemma_scan_bounds(e2, q2);
    assert(parse_term_rest(w, o2 + q2, t2) == Ok::<(Node, int), Error>((t2, o2 + q2)));
    assert(parse_term(w, o2) == Ok::<(Node, int), Error>((t2, o2 + q2)));
    assert(parse_expr_rest(w, o2 + q2, b) == Ok::<(Node, int), Error>((b, o2 + q2)));
    assert(parse_expr_rest(w, 1 + q1, t1) == Ok::<(Node, int), Error>((b, o2 + q2)));
}

/// Inside the parentheses, for `*` and `/`.
proof fn lemma_inner_product(w: Seq<char>, e1: Seq<char>, op: BinaryOperator, e2: Seq<char>)
    requires
        !is_additive(op),
        complete(parse_term(e1, 0), e1),
        complete(parse_factor(e2, 0), e2),
        frame(w, e1, 1),
        frame(w, e2, 2 + e1.len() as int),
        scan(w, 1 + e1.len() as int) == (operator_token(op), 2 + e1.len() as int),
        scan(w, 2 + e1.len() as int + e2.len() as int).0 == Token::RParen,
    ensures
        ({
            let (t1, q1) = parse_term(e1, 0)->Ok_0;
            let (t2, q2) = parse_factor(e2, 0)->Ok_0;
            &&& parse_expr(w, 1) == Ok::<(Node, int), Error>((binary(op, t1, t2), 2 + e1.len() + q2))
            &&& scan(w, 2 + e1.len() + q2) == scan(w, 2 + e1.len() as int + e2.len() as int)
        }),
{
    let o2 = 2 + e1.len() as int;
    let (t1, q1) = parse_term(e1, 0)->Ok_0;
    let (t2, q2) = parse_factor(e2, 0)->Ok_0;
    let b = binary(op, t1, t2);
    lemma_frame_term(w, e1, 1, 0);
    lemma_frame_scan(w, e1, 1, q1);
    lemma_frame_factor(w, e2, o2, 0);
    lemma_frame_scan(w, e2, o2, q2);
    lemma_scan_bounds(e1, q1);
    lemma_scan_bounds(e2, q2);
    assert(parse_term_rest(w, o2 + q2, b) == Ok::<(Node, int), Error>((b, o2 + q2)));
    assert(parse_term_rest(w, 1 + q1, t1) == Ok::<(Node, int), Error>((b, o2 + q2)));
    assert(parse_term(w, 1) == Ok::<(Node, int), Error>((b, o2 + q2)));
    assert(parse_expr_rest(w, o2 + q2, b) == Ok::<(Node, int), Error>((b, o2 + q2)));
}

/// A line that is one parenthesized group around an expression that reads as `b`.
proof fn lemma_group_line(w: Seq<char>, b: Node, close: int)
    requires
        scan(w, 0) == (Token::LParen, 1int),
        parse_expr(w, 1) == Ok::<(Node, int), Error>((b, close)),
        scan(w, close) == (Token::RParen, w.len() as int),
        scan(w, w.len() as int).0 == Token::EndOfFile,
    ensures
        parse_line(w) == Ok::<Node, Error>(b),
{
    let end = w.len() as int;
    assert(parse_factor(w, 0) == Ok::<(Node, int), Error>((b, end)));
    assert(parse_term_rest(w, end, b) == Ok::<(Node, int), Error>((b, end)));
    assert(parse_term(w, 0) == Ok::<(Node, int), Error>((b, end)));
    assert(parse_expr_rest(w, end, b) == Ok::<(Node, int), Error>((b, end)));
    assert(parse_expr(w, 0) == Ok::<(Node, int), Error>((b, end)));
}

/// `(e1 op e2)` parses to the binary node of `op` over the trees of `e1` and
/// `e2`, and evaluates to `op` applied to their values (with the division
/// rounded toward zero), whenever each operand reads completely at the level
/// that `op` leaves it: beside `+` or `-` any expression on the left and a
/// term on the right, beside `*` or `/` a term on the left and a factor on the
/// right. (With any other operands precedence or left association regroups
/// the text: `(1 + 2 * 3)` is no product of `1 + 2` and `3`.)
pub proof fn lemma_parenthesized_binary(e1: Seq<char>, op: BinaryOperator, e2: Seq<char>)
    requires
        complete(left_operand(op, e1), e1),
        complete(right_operand(op, e2), e2),
    ensures
        ({
            let t1 = left_operand(op, e1)->Ok_0.0;
            let t2 = right_operand(op, e2)->Ok_0.0;
            &&& parse_line(parenthesized(e1, op, e2)) == Ok::<Node, Error>(binary(op, t1, t2))
            &&& eval_line(parenthesized(e1, op, e2)) == combined(op, t1, t2)
        }),
{
    lemma_parenthesized_layout(e1, op, e2);
    let w = parenthesized(e1, op, e2);
    let (t2, q2) = right_operand(op, e2)->Ok_0;
    let b = binary(op, left_operand(op, e1)->Ok_0.0, t2);
    if is_additive(op) {
        lemma_inner_sum(w, e1, op, e2);
    } else {
        lemma_inner_product(w, e1, op, e2);
    }
    lemma_group_line(w, b, 2 + e1.len() + q2);
}

} // verus!

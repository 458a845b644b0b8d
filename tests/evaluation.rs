use arith_eval::error::{Error, Expected};
use arith_eval::interpreter::evaluate;

#[test]
fn single_literal_evaluates_to_itself() {
    assert_eq!(evaluate("0"), Ok(0));
    assert_eq!(evaluate("42"), Ok(42));
    assert_eq!(evaluate("007"), Ok(7));
    assert_eq!(evaluate("9223372036854775807"), Ok(i64::MAX));
}

#[test]
fn parenthesized_binary_operations() {
    assert_eq!(evaluate("(6 + 4)"), Ok(10));
    assert_eq!(evaluate("(6 - 4)"), Ok(2));
    assert_eq!(evaluate("(6 * 4)"), Ok(24));
    assert_eq!(evaluate("(6 / 4)"), Ok(1));
    assert_eq!(evaluate("((1 + 2) * (7 - 3))"), Ok(12));
}

#[test]
fn subtraction_is_left_associative() {
    assert_eq!(evaluate("8 - 3 - 2"), Ok(3));
    assert_eq!(evaluate("64 / 4 / 2"), Ok(8));
}

#[test]
fn multiplication_binds_tighter_than_addition() {
    assert_eq!(evaluate("2 + 3 * 4"), Ok(14));
    assert_eq!(evaluate("(2 + 3) * 4"), Ok(20));
    assert_eq!(evaluate("1 + 2 * 3 - 4 / 2"), Ok(5));
    assert_eq!(evaluate("(1 + 2 * 3)"), Ok(7));
}

#[test]
fn unary_signs_chain() {
    assert_eq!(evaluate("--5"), Ok(5));
    assert_eq!(evaluate("+-5"), Ok(-5));
    assert_eq!(evaluate("-+-+5"), Ok(5));
    assert_eq!(evaluate("-(2 + 3)"), Ok(-5));
}

#[test]
fn division_truncates_toward_zero() {
    assert_eq!(evaluate("7 / 2"), Ok(3));
    assert_eq!(evaluate("-7 / 2"), Ok(-3));
    assert_eq!(evaluate("7 / -2"), Ok(-3));
    assert_eq!(evaluate("-7 / -2"), Ok(3));
}

#[test]
fn division_by_zero_fails() {
    assert_eq!(evaluate("5 / 0"), Err(Error::DivisionByZero));
    assert_eq!(evaluate("5 / (3 - 3)"), Err(Error::DivisionByZero));
}

#[test]
fn missing_right_operand_is_a_syntax_error() {
    assert_eq!(evaluate("2 + "), Err(Error::Syntax(Expected::Operand)));
}

#[test]
fn missing_closing_parenthesis_is_a_syntax_error() {
    assert_eq!(evaluate("(2 + 3"), Err(Error::Syntax(Expected::RParen)));
}

#[test]
fn illegal_character_is_a_lexical_error() {
    assert_eq!(evaluate("2 $ 3"), Err(Error::Lexical));
    assert_eq!(evaluate("2 + $"), Err(Error::Lexical));
    assert_eq!(evaluate("x"), Err(Error::Lexical));
}

#[test]
fn trailing_input_is_rejected() {
    assert_eq!(evaluate("1 2"), Err(Error::Syntax(Expected::EndOfInput)));
    assert_eq!(evaluate("(1))"), Err(Error::Syntax(Expected::EndOfInput)));
    assert_eq!(evaluate("2 99999999999999999999"), Err(Error::Syntax(Expected::EndOfInput)));
}

#[test]
fn empty_input_is_a_syntax_error() {
    assert_eq!(evaluate(""), Err(Error::Syntax(Expected::Operand)));
    assert_eq!(evaluate("   "), Err(Error::Syntax(Expected::Operand)));
    assert_eq!(evaluate("*3"), Err(Error::Syntax(Expected::Operand)));
}

#[test]
fn whitespace_is_skipped() {
    assert_eq!(evaluate(" \t 3 \n"), Ok(3));
    assert_eq!(evaluate("1\u{a0}+\u{3000}2\n"), Ok(3));
    assert_eq!(evaluate("(1+2)*3"), Ok(9));
}

#[test]
fn overflow_is_reported() {
    assert_eq!(evaluate("9223372036854775808"), Err(Error::Overflow));
    assert_eq!(evaluate("9223372036854775807 + 1"), Err(Error::Overflow));
    assert_eq!(evaluate("-9223372036854775807 - 1"), Ok(i64::MIN));
    assert_eq!(evaluate("-(-9223372036854775807 - 1)"), Err(Error::Overflow));
    assert_eq!(evaluate("(-9223372036854775807 - 1) / -1"), Err(Error::Overflow));
    assert_eq!(evaluate("4294967296 * 4294967296"), Err(Error::Overflow));
    assert_eq!(evaluate("-9223372036854775807 - 2"), Err(Error::Overflow));
}

#[test]
fn left_failure_comes_first() {
    assert_eq!(evaluate("(1 / 0) + (9223372036854775807 + 1)"), Err(Error::DivisionByZero));
    assert_eq!(evaluate("(9223372036854775807 + 1) + (1 / 0)"), Err(Error::Overflow));
}

#[test]
fn evaluating_twice_gives_the_same_result() {
    let expected = [Ok(14), Err(Error::DivisionByZero), Err(Error::Syntax(Expected::RParen)), Err(Error::Lexical)];
    for (line, want) in ["2 + 3 * 4", "5 / 0", "(2 + 3", "2 $ 3"].iter().zip(expected) {
        assert_eq!(evaluate(line), want);
        assert_eq!(evaluate(line), want);
    }
}

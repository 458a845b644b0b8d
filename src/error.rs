//! The ways in which evaluating a line can fail.
use vstd::prelude::*;

verus! {

/// What the parser was looking for when it met an unexpected token.
#[derive(Debug, Clone, Copy, PartialEq, Eq, Structural)]
pub enum Expected {
    /// An integer, a unary sign or a left parenthesis.
    Operand,
    /// The right parenthesis that closes a group.
    RParen,
    /// The end of the input, after a complete expression.
    EndOfInput,
}

/// Why an expression could not be evaluated.
#[derive(Debug, Clone, Copy, PartialEq, Eq, Structural)]
pub enum Error {
    /// The input holds a character that belongs to no token.
    Lexical,
    /// The tokens do not follow the grammar.
    Syntax(Expected),
    /// The right operand of a division is zero.
    DivisionByZero,
    /// A literal or an intermediate result does not fit in an `i64`.
    Overflow,
}

} // verus!

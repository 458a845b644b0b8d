//! Lexical tokens.
use vstd::prelude::*;

verus! {

/// A lexical unit of an arithmetic expression.
#[derive(Debug, Clone, Copy, PartialEq, Eq, Structural)]
pub enum Token {
    /// A character that starts no token.
    Illegal,
    /// The input is exhausted.
    EndOfFile,
    /// A run of decimal digits whose value fits in an `i64`.
    Integer(i64),
    /// A run of decimal digits whose value exceeds `i64::MAX`.
    Overflow,
    Add,
    Sub,
    Mul,
    Div,
    LParen,
    RParen,
}

impl Default for Token {
    fn default() -> (t: Token)
        ensures
            t == Token::Illegal,
    {
        Token::Illegal
    }
}

} // verus!

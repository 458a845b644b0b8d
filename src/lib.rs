//! An evaluator for integer arithmetic expressions: a tokenizer, a
//! recursive-descent parser that builds an expression tree, and an evaluator
//! that reduces the tree with checked 64-bit arithmetic.
pub mod error;
pub mod frame;
pub mod interpreter;
pub mod laws;
pub mod lexer;
pub mod parser;
pub mod token;

//! Evaluation of expression trees with checked 64-bit arithmetic, and the
//! entry point that evaluates one line of text.
use vstd::prelude::*;

use crate::error::{Error, Expected};
use crate::lexer::Lexer;
use crate::token::Token;
use crate::parser::{
    parse_to_end, BinaryOpNode, BinaryOperator, IntegerNode, Node, Parser, UnaryOpNode,
    UnaryOperator,
};

verus! {

pub open spec fn fits(v: int) -> bool {
    i64::MIN <= v <= i64::MAX
}

pub open spec fn abs(v: int) -> int {
    if v < 0 {
        -v
    } else {
        v
    }
}

/// Integer division that rounds toward zero.
pub open spec fn trunc_div(a: int, b: int) -> int {
    let q = abs(a) / abs(b);
    if (a < 0) == (b < 0) {
        q
    } else {
        -q
    }
}

/// `v` as an `i64`, or an overflow where it does not fit.
pub open spec fn checked(v: int) -> Result<i64, Error> {
    if fits(v) {
        Ok(v as i64)
    } else {
        Err(Error::Overflow)
    }
}

pub open spec fn apply_unary(op: UnaryOperator, v: i64) -> Result<i64, Error> {
    match op {
        UnaryOperator::Plus => Ok(v),
        UnaryOperator::Minus => checked(-v),
    }
}

pub open spec fn apply_binary(op: BinaryOperator, a: i64, b: i64) -> Result<i64, Error> {
    match op {
        BinaryOperator::Add => checked(a + b),
        BinaryOperator::Sub => checked(a - b),
        BinaryOperator::Mul => checked(a * b),
        BinaryOperator::Div => if b == 0 {
            Err(Error::DivisionByZero)
        } else {
            checked(trunc_div(a as int, b as int))
        },
    }
}

/// The value of a tree, computed bottom-up with the left operand first; the
/// first failure is the result.
pub open spec fn value_of(n: Node) -> Result<i64, Error>
    decreases n,
{
    match n {
        Node::Integer(x) => Ok(x.value),
        Node::UnaryOp(u) => match value_of(*u.rhs) {
            Ok(v) => apply_unary(u.op, v),
            Err(e) => Err(e),
        },
        Node::BinaryOp(b) => match value_of(*b.lhs) {
            Ok(l) => match value_of(*b.rhs) {
                Ok(r) => apply_binary(b.op, l, r),
                Err(e) => Err(e),
            },
            Err(e) => Err(e),
        },
    }
}

/// The result of evaluating the input from position `i` on.
pub open spec fn eval_to_end(s: Seq<char>, i: int) -> Result<i64, Error> {
    match parse_to_end(s, i) {
        Ok(n) => value_of(n),
        Err(e) => Err(e),
    }
}

/// The result of evaluating a line of text.
pub open spec fn eval_line(s: Seq<char>) -> Result<i64, Error> {
    eval_to_end(s, 0)
}

/// Evaluates what its parser reads.
pub struct Interpreter {
    parser: Parser,
}

impl Interpreter {
    pub closed spec fn wf(&self) -> bool {
        self.parser.wf()
    }

    /// The input, and the position from which the parser reads its next token.
    pub closed spec fn input(&self) -> (Seq<char>, int) {
        self.parser@
    }

    pub fn new(parser: Parser) -> (r: Interpreter)
        requires
            parser.wf(),
        ensures
            r.wf(),
            r.input() == parser@,
    {
        Interpreter { parser }
    }

    /// Parses the rest of the input, which must hold exactly one expression, and evaluates it.
    pub fn interpret(&mut self) -> (r: Result<i64, Error>)
        requires
            old(self).wf(),
        ensures
            r == eval_to_end(old(self).input().0, old(self).input().1),
    {
        let tree = match self.parser.expr() {
            Ok(t) => t,
            Err(e) => return Err(e),
        };
        match self.parser.current() {
            Token::EndOfFile => self.visit(&tree),
            Token::Illegal => Err(Error::Lexical),
            _ => Err(Error::Syntax(Expected::EndOfInput)),
        }
    }

    pub fn visit(&self, tree: &Node) -> (r: Result<i64, Error>)
        ensures
            r == value_of(*tree),
        decreases tree, 1int,
    {
        match tree {
            Node::Integer(x) => self.visit_int(x),
            Node::UnaryOp(u) => self.visit_unop(u),
            Node::BinaryOp(b) => self.visit_binop(b),
        }
    }

    pub fn visit_int(&self, node: &IntegerNode) -> (r: Result<i64, Error>)
        ensures
            r == Ok::<i64, Error>(node.value),
    {
        Ok(node.value)
    }

    pub fn visit_unop(&self, node: &UnaryOpNode) -> (r: Result<i64, Error>)
        ensures
            r == value_of(Node::UnaryOp(*node)),
        decreases Node::UnaryOp(*node), 0int,
    {
        let rhs = match self.visit(&node.rhs) {
            Ok(v) => v,
            Err(e) => return Err(e),
        };
        match node.op {
            UnaryOperator::Plus => Ok(rhs),
            UnaryOperator::Minus => match 0i64.checked_sub(rhs) {
                Some(v) => Ok(v),
                None => Err(Error::Overflow),
            },
        }
    }

    pub fn visit_binop(&self, node: &BinaryOpNode) -> (r: Result<i64, Error>)
        ensures
            r == value_of(Node::BinaryOp(*node)),
        decreases Node::BinaryOp(*node), 0int,
    {
        let lhs = match self.visit(&node.lhs) {
            Ok(v) => v,
            Err(e) => return Err(e),
        };
        let rhs = match self.visit(&node.rhs) {
            Ok(v) => v,
            Err(e) => return Err(e),
        };
        let result = match node.op {
            BinaryOperator::Add => lhs.checked_add(rhs),
            BinaryOperator::Sub => lhs.checked_sub(rhs),
            BinaryOperator::Mul => lhs.checked_mul(rhs),
            BinaryOperator::Div => {
                if rhs == 0 {
                    return Err(Error::DivisionByZero);
                }
                lhs.checked_div(rhs)
            },
        };
        match result {
            Some(v) => Ok(v),
            None => Err(Error::Overflow),
        }
    }
}

/// Evaluates one line of text: the value of the single expression it holds,
/// or the first error met while reading or computing it.
pub fn evaluate(line: &str) -> (r: Result<i64, Error>)
    ensures
        r == eval_line(line@),
{
    let lexer = Lexer::new(line);
    let parser = Parser::new(lexer);
    let mut interpreter = Interpreter::new(parser);
    interpreter.interpret()
}

} // verus!

//! Expression trees, the grammar as spec functions over a line, and the
//! recursive-descent parser that follows it with one token of lookahead.
use vstd::prelude::*;

use crate::error::{Error, Expected};
use crate::lexer::{scan, Lexer, lemma_scan_bounds};
use crate::token::Token;

verus! {

#[derive(Debug, Clone, Copy, PartialEq, Eq, Structural)]
pub enum UnaryOperator {
    /// Identity.
    Plus,
    /// Negation.
    Minus,
}

#[derive(Debug, Clone, Copy, PartialEq, Eq, Structural)]
pub enum BinaryOperator {
    Add,
    Sub,
    Mul,
    Div,
}

/// A literal.
#[derive(Debug, PartialEq, Eq)]
pub struct IntegerNode {
    pub value: i64,
}

/// A sign applied to one operand.
#[derive(Debug, PartialEq, Eq)]
pub struct UnaryOpNode {
    pub op: UnaryOperator,
    pub rhs: Box<Node>,
}

/// An arithmetic operator applied to two operands.
#[derive(Debug, PartialEq, Eq)]
pub struct BinaryOpNode {
    pub op: BinaryOperator,
    pub lhs: Box<Node>,
    pub rhs: Box<Node>,
}

/// An expression tree; each node owns its children.
#[derive(Debug, PartialEq, Eq)]
pub enum Node {
    Integer(IntegerNode),
    UnaryOp(UnaryOpNode),
    BinaryOp(BinaryOpNode),
}

pub open spec fn literal(v: i64) -> Node {
    Node::Integer(IntegerNode { value: v })
}

pub open spec fn unary(op: UnaryOperator, rhs: Node) -> Node {
    Node::UnaryOp(UnaryOpNode { op, rhs: Box::new(rhs) })
}

pub open spec fn binary(op: BinaryOperator, lhs: Node, rhs: Node) -> Node {
    Node::BinaryOp(BinaryOpNode { op, lhs: Box::new(lhs), rhs: Box::new(rhs) })
}

/// The additive operator that a token stands for, if any.
pub open spec fn additive(t: Token) -> Option<BinaryOperator> {
    match t {
        Token::Add => Some(BinaryOperator::Add),
        Token::Sub => Some(BinaryOperator::Sub),
        _ => None,
    }
}

/// The multiplicative operator that a token stands for, if any.
pub open spec fn multiplicative(t: Token) -> Option<BinaryOperator> {
    match t {
        Token::Mul => Some(BinaryOperator::Mul),
        Token::Div => Some(BinaryOperator::Div),
        _ => None,
    }
}

/// A parse that succeeded moved forward from `i` to `q`, within the input.
/// Every successful parse consumes at least one token, so this holds of each
/// of them; the grammar below tests it so that its recursion visibly ends.
pub open spec fn moved(s: Seq<char>, i: int, q: int) -> bool {
    i < q <= s.len()
}

/// The outcome of parsing a part of the grammar: the tree and the position
/// from which the next token is read.
pub type Parsed = Result<(Node, int), Error>;

/// `factor := ('+' | '-') factor | INTEGER | '(' expr ')'`, read from position `i` of `s`.
pub open spec fn parse_factor(s: Seq<char>, i: int) -> Parsed
    decreases s.len() - i, 0int,
{
    let (tok, j) = scan(s, i);
    match tok {
        Token::Add => match parse_factor(s, j) {
            Ok((n, q)) => Ok((unary(UnaryOperator::Plus, n), q)),
            Err(e) => Err(e),
        },
        Token::Sub => match parse_factor(s, j) {
            Ok((n, q)) => Ok((unary(UnaryOperator::Minus, n), q)),
            Err(e) => Err(e),
        },
        Token::Integer(v) => Ok((literal(v), j)),
        Token::LParen => match parse_expr(s, j) {
            Ok((n, q)) => if scan(s, q).0 == Token::RParen {
                Ok((n, scan(s, q).1))
            } else {
                Err(Error::Syntax(Expected::RParen))
            },
            Err(e) => Err(e),
        },
        Token::Illegal => Err(Error::Lexical),
        Token::Overflow => Err(Error::Overflow),
        _ => Err(Error::Syntax(Expected::Operand)),
    }
}

/// `term := factor (('*' | '/') factor)*`.
pub open spec fn parse_term(s: Seq<char>, i: int) -> Parsed
    decreases s.len() - i, 2int,
{
    match parse_factor(s, i) {
        Ok((n, q)) => if moved(s, i, q) {
            parse_term_rest(s, q, n)
        } else {
            Ok((n, q))
        },
        Err(e) => Err(e),
    }
}

/// The repetition of `term`, folded to the left onto `acc`.
pub open spec fn parse_term_rest(s: Seq<char>, i: int, acc: Node) -> Parsed
    decreases s.len() - i, 1int,
{
    let (tok, j) = scan(s, i);
    match multiplicative(tok) {
        Some(op) => match parse_factor(s, j) {
            Ok((n, q)) => if moved(s, i, q) {
                parse_term_rest(s, q, binary(op, acc, n))
            } else {
                Ok((binary(op, acc, n), q))
            },
            Err(e) => Err(e),
        },
        None => Ok((acc, i)),
    }
}

/// `expr := term (('+' | '-') term)*`.
pub open spec fn parse_expr(s: Seq<char>, i: int) -> Parsed
    decreases s.len() - i, 4int,
{
    match parse_term(s, i) {
        Ok((n, q)) => if moved(s, i, q) {
            parse_expr_rest(s, q, n)
        } else {
            Ok((n, q))
        },
        Err(e) => Err(e),
    }
}

/// The repetition of `expr`, folded to the left onto `acc`.
pub open spec fn parse_expr_rest(s: Seq<char>, i: int, acc: Node) -> Parsed
    decreases s.len() - i, 3int,
{
    let (tok, j) = scan(s, i);
    match additive(tok) {
        Some(op) => match parse_term(s, j) {
            Ok((n, q)) => if moved(s, i, q) {
                parse_expr_rest(s, q, binary(op, acc, n))
            } else {
                Ok((binary(op, acc, n), q))
            },
            Err(e) => Err(e),
        },
        None => Ok((acc, i)),
    }
}

/// The input from position `i` on: one expression followed by the end of the
/// input. An illegal character where the input should end is reported as such.
pub open spec fn parse_to_end(s: Seq<char>, i: int) -> Result<Node, Error> {
    match parse_expr(s, i) {
        Ok((n, q)) => match scan(s, q).0 {
            Token::EndOfFile => Ok(n),
            Token::Illegal => Err(Error::Lexical),
            _ => Err(Error::Syntax(Expected::EndOfInput)),
        },
        Err(e) => Err(e),
    }
}

/// A whole line.
pub open spec fn parse_line(s: Seq<char>) -> Result<Node, Error> {
    parse_to_end(s, 0)
}

/// Two tokens of the same kind; the value of an integer does not count.
pub open spec fn same_kind(a: Token, b: Token) -> bool {
    match (a, b) {
        (Token::Integer(_), Token::Integer(_)) => true,
        _ => a == b,
    }
}

/// What a parser that waited for `t` reports when it is missing.
pub open spec fn expectation(t: Token) -> Expected {
    match t {
        Token::RParen => Expected::RParen,
        Token::EndOfFile => Expected::EndOfInput,
        _ => Expected::Operand,
    }
}

/// What an executable parse returned, and the position it left the parser
/// at, agree with the outcome `p` of the grammar.
pub open spec fn agrees(r: Result<Node, Error>, q: int, p: Parsed) -> bool {
    match p {
        Ok((n, k)) => r == Ok::<Node, Error>(n) && q == k,
        Err(e) => r == Err::<Node, Error>(e),
    }
}

/// A recursive-descent parser with one token of lookahead.
pub struct Parser {
    lexer: Lexer,
    current_token: Token,
    /// Where the lookahead token was read from.
    at: Ghost<int>,
}

impl View for Parser {
    type V = (Seq<char>, int);

    /// The input, and the position from which the lookahead token was read.
    closed spec fn view(&self) -> (Seq<char>, int) {
        (self.lexer@.0, self.at@)
    }
}

impl Parser {
    pub closed spec fn wf(&self) -> bool {
        &&& self.lexer.wf()
        &&& 0 <= self.at@ <= self.lexer@.0.len()
        &&& scan(self.lexer@.0, self.at@) == (self.current_token, self.lexer@.1)
    }

    pub fn new(lexer: Lexer) -> (p: Parser)
        requires
            lexer.wf(),
        ensures
            p.wf(),
            p@ == lexer@,
    {
        let ghost at = lexer@.1;
        let mut lexer = lexer;
        let current_token = lexer.next_token();
        Parser { lexer, current_token, at: Ghost(at) }
    }

    /// The lookahead token.
    pub fn current(&self) -> (t: Token)
        requires
            self.wf(),
        ensures
            t == scan(self@.0, self@.1).0,
    {
        self.current_token
    }

    /// Consumes the lookahead token if it is of the kind of `token`.
    fn eat(&mut self, token: Token) -> (r: Result<(), Error>)
        requires
            old(self).wf(),
        ensures
            final(self).wf(),
            final(self)@.0 == old(self)@.0,
            same_kind(scan(old(self)@.0, old(self)@.1).0, token) ==> r is Ok && final(self)@.1
                == scan(old(self)@.0, old(self)@.1).1,
            !same_kind(scan(old(self)@.0, old(self)@.1).0, token) ==> r == Err::<(), Error>(
                Error::Syntax(expectation(token)),
            ) && final(self)@ == old(self)@,
    {
        let same = match (self.current_token, token) {
            (Token::Integer(_), Token::Integer(_)) => true,
            (a, b) => a == b,
        };
        if same {
            self.at = Ghost(self.lexer@.1);
            self.current_token = self.lexer.next_token();
            Ok(())
        } else {
            let e = match token {
                Token::RParen => Expected::RParen,
                Token::EndOfFile => Expected::EndOfInput,
                _ => Expected::Operand,
            };
            Err(Error::Syntax(e))
        }
    }

    fn factor(&mut self) -> (r: Result<Node, Error>)
        requires
            old(self).wf(),
        ensures
            final(self).wf(),
            final(self)@.0 == old(self)@.0,
            agrees(r, final(self)@.1, parse_factor(old(self)@.0, old(self)@.1)),
            r is Ok ==> moved(old(self)@.0, old(self)@.1, final(self)@.1),
        decreases old(self)@.0.len() - old(self)@.1, 0int,
    {
        proof {
            lemma_scan_bounds(self@.0, self@.1);
        }
        match self.current_token {
            Token::Add => {
                let _ = self.eat(Token::Add);
                match self.factor() {
                    Ok(n) => Ok(Node::UnaryOp(UnaryOpNode { op: UnaryOperator::Plus, rhs: Box::new(n) })),
                    Err(e) => Err(e),
                }
            },
            Token::Sub => {
                let _ = self.eat(Token::Sub);
                match self.factor() {
                    Ok(n) => Ok(Node::UnaryOp(UnaryOpNode { op: UnaryOperator::Minus, rhs: Box::new(n) })),
                    Err(e) => Err(e),
                }
            },
            Token::Integer(v) => {
                let _ = self.eat(Token::Integer(0));
                Ok(Node::Integer(IntegerNode { value: v }))
            },
            Token::LParen => {
                let _ = self.eat(Token::LParen);
                match self.expr() {
                    Ok(n) => {
                        proof {
                            lemma_scan_bounds(self@.0, self@.1);
                        }
                        match self.eat(Token::RParen) {
                            Ok(()) => Ok(n),
                            Err(e) => Err(e),
                        }
                    },
                    Err(e) => Err(e),
                }
            },
            Token::Illegal => Err(Error::Lexical),
            Token::Overflow => Err(Error::Overflow),
            _ => Err(Error::Syntax(Expected::Operand)),
        }
    }

    fn term(&mut self) -> (r: Result<Node, Error>)
        requires
            old(self).wf(),
        ensures
            final(self).wf(),
            final(self)@.0 == old(self)@.0,
            agrees(r, final(self)@.1, parse_term(old(self)@.0, old(self)@.1)),
            r is Ok ==> moved(old(self)@.0, old(self)@.1, final(self)@.1),
        decreases old(self)@.0.len() - old(self)@.1, 2int,
    {
        let ghost s = self@.0;
        let ghost i0 = self@.1;
        let mut node = match self.factor() {
            Ok(n) => n,
            Err(e) => return Err(e),
        };
        loop
            invariant
                self.wf(),
                s == old(self)@.0,
                i0 == old(self)@.1,
                self@.0 == s,
                moved(s, i0, self@.1),
                parse_term(s, i0) == parse_term_rest(s, self@.1, node),
            ensures
                self.wf(),
                self@.0 == s,
                moved(s, i0, self@.1),
                parse_term(s, i0) == Ok::<(Node, int), Error>((node, self@.1)),
            decreases s.len() - self@.1,
        {
            let ghost i = self@.1;
            proof {
                lemma_scan_bounds(s, i);
            }
            let op = match self.current_token {
                Token::Mul => BinaryOperator::Mul,
                Token::Div => BinaryOperator::Div,
                _ => break,
            };
            let _ = self.eat(self.current_token);
            match self.factor() {
                Ok(rhs) => {
                    node = Node::BinaryOp(BinaryOpNode { op, lhs: Box::new(node), rhs: Box::new(rhs) });
                },
                Err(e) => return Err(e),
            }
        }
        Ok(node)
    }

    /// Parses an expression from the lookahead token on; tokens after it are left unread.
    pub fn expr(&mut self) -> (r: Result<Node, Error>)
        requires
            old(self).wf(),
        ensures
            final(self).wf(),
            final(self)@.0 == old(self)@.0,
            agrees(r, final(self)@.1, parse_expr(old(self)@.0, old(self)@.1)),
            r is Ok ==> moved(old(self)@.0, old(self)@.1, final(self)@.1),
        decreases old(self)@.0.len() - old(self)@.1, 4int,
    {
        let ghost s = self@.0;
        let ghost i0 = self@.1;
        let mut node = match self.term() {
            Ok(n) => n,
            Err(e) => return Err(e),
        };
        loop
            invariant
                self.wf(),
                s == old(self)@.0,
                i0 == old(self)@.1,
                self@.0 == s,
                moved(s, i0, self@.1),
                parse_expr(s, i0) == parse_expr_rest(s, self@.1, node),
            ensures
                self.wf(),
                self@.0 == s,
                moved(s, i0, self@.1),
                parse_expr(s, i0) == Ok::<(Node, int), Error>((node, self@.1)),
            decreases s.len() - self@.1,
        {
            let ghost i = self@.1;
            proof {
                lemma_scan_bounds(s, i);
            }
            let op = match self.current_token {
                Token::Add => BinaryOperator::Add,
                Token::Sub => BinaryOperator::Sub,
                _ => break,
            };
            let _ = self.eat(self.current_token);
            match self.term() {
                Ok(rhs) => {
                    node = Node::BinaryOp(BinaryOpNode { op, lhs: Box::new(node), rhs: Box::new(rhs) });
                },
                Err(e) => return Err(e),
            }
        }
        Ok(node)
    }
}

} // verus!

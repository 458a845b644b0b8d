use arith_eval::interpreter::Interpreter;
use arith_eval::lexer::Lexer;
use arith_eval::parser::{BinaryOpNode, BinaryOperator, IntegerNode, Node, Parser, UnaryOpNode, UnaryOperator};
use arith_eval::token::Token;

fn lit(v: i64) -> Box<Node> {
    Box::new(Node::Integer(IntegerNode { value: v }))
}

fn bin(op: BinaryOperator, lhs: Box<Node>, rhs: Box<Node>) -> Box<Node> {
    Box::new(Node::BinaryOp(BinaryOpNode { op, lhs, rhs }))
}

#[test]
fn lexer_produces_tokens_then_end_of_file() {
    let line = String::from(" 12+(3 )-*/ ");
    let mut lexer = Lexer::new(&line);
    let expected = [
        Token::Integer(12),
        Token::Add,
        Token::LParen,
        Token::Integer(3),
        Token::RParen,
        Token::Sub,
        Token::Mul,
        Token::Div,
        Token::EndOfFile,
        Token::EndOfFile,
    ];
    for t in expected {
        assert_eq!(lexer.next_token(), t);
    }
}

#[test]
fn illegal_token_consumes_one_character() {
    let mut lexer = Lexer::new("$5");
    assert_eq!(lexer.next_token(), Token::Illegal);
    assert_eq!(lexer.next_token(), Token::Integer(5));
    assert_eq!(lexer.next_token(), Token::EndOfFile);
}

#[test]
fn oversized_literal_is_one_overflow_token() {
    let mut lexer = Lexer::new("99999999999999999999+1");
    assert_eq!(lexer.next_token(), Token::Overflow);
    assert_eq!(lexer.next_token(), Token::Add);
    assert_eq!(lexer.next_token(), Token::Integer(1));
}

#[test]
fn default_token_is_illegal() {
    assert_eq!(Token::default(), Token::Illegal);
}

#[test]
fn parser_builds_left_associated_tree() {
    let mut parser = Parser::new(Lexer::new("8 - 3 - 2"));
    let tree = parser.expr();
    let expected = bin(BinaryOperator::Sub, bin(BinaryOperator::Sub, lit(8), lit(3)), lit(2));
    assert_eq!(tree, Ok(*expected));
    assert_eq!(parser.current(), Token::EndOfFile);
}

#[test]
fn parser_builds_binary_node_for_parenthesized_pair() {
    let mut parser = Parser::new(Lexer::new("(2 * -3)"));
    let tree = parser.expr();
    let minus_three = Box::new(Node::UnaryOp(UnaryOpNode { op: UnaryOperator::Minus, rhs: lit(3) }));
    assert_eq!(tree, Ok(*bin(BinaryOperator::Mul, lit(2), minus_three)));
}

#[test]
fn parser_leaves_trailing_tokens_unread() {
    let mut parser = Parser::new(Lexer::new("1 2"));
    assert_eq!(parser.expr(), Ok(*lit(1)));
    assert_eq!(parser.current(), Token::Integer(2));
}

#[test]
fn interpreter_visits_each_node_kind() {
    let mut interpreter = Interpreter::new(Parser::new(Lexer::new("0")));
    assert_eq!(interpreter.visit_int(&IntegerNode { value: 7 }), Ok(7));
    let neg = UnaryOpNode { op: UnaryOperator::Minus, rhs: lit(7) };
    assert_eq!(interpreter.visit_unop(&neg), Ok(-7));
    let plus = UnaryOpNode { op: UnaryOperator::Plus, rhs: lit(7) };
    assert_eq!(interpreter.visit_unop(&plus), Ok(7));
    let div = BinaryOpNode { op: BinaryOperator::Div, lhs: lit(-9), rhs: lit(2) };
    assert_eq!(interpreter.visit_binop(&div), Ok(-4));
    let tree = bin(BinaryOperator::Add, lit(1), lit(2));
    assert_eq!(interpreter.visit(&tree), Ok(3));
    assert_eq!(interpreter.interpret(), Ok(0));
}

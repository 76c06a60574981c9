use exprlang::ast::{
    AssignmentStmt, BlockStmt, CallStmt, ConditionalStmt, FnLiteral, Identifier, IntegerNode, Node,
    ReturnStmt,
};
use exprlang::lexer::tokenize;
use exprlang::parser::{ParseError, Parser, Precedence};
use exprlang::token::{Operator, Token};

fn parse_source(src: &str) -> Result<Node, ParseError> {
    let tokens: Vec<Token> = tokenize(src).unwrap().into_iter().map(|(_, t)| t).collect();
    Parser::new(tokens).parse(Precedence::Lowest)
}

fn lit(v: i32) -> Box<Node> {
    Box::new(Node::Integer(IntegerNode::new(Token::IntLiteral(v)).unwrap()))
}

fn ident(name: &str) -> Identifier {
    Identifier::new(name.to_string())
}

#[test]
fn multiplication_binds_tighter_than_addition() {
    assert_eq!(parse_source("1 + 2 * 3").unwrap().repr(), "(1 + (2 * 3))");
    assert_eq!(parse_source("1 * 2 + 3").unwrap().repr(), "((1 * 2) + 3)");
}

#[test]
fn parentheses_group_first() {
    assert_eq!(parse_source("(1 + 2) * 3").unwrap().repr(), "((1 + 2) * 3)");
}

#[test]
fn closing_parenthesis_ends_only_its_own_group() {
    assert_eq!(parse_source("2 * (1 + 3) + 4").unwrap().repr(), "((2 * (1 + 3)) + 4)");
    assert_eq!(parse_source("(1 * 2) - (3 - 4) / x").unwrap().repr(), "((1 * 2) - ((3 - 4) / x))");
    assert_eq!(parse_source("((1 + 2)) * 3").unwrap().repr(), "((1 + 2) * 3)");
}

#[test]
fn subtraction_groups_to_the_left() {
    assert_eq!(parse_source("1 - 2 - 3").unwrap().repr(), "((1 - 2) - 3)");
    assert_eq!(parse_source("8 / 4 / 2").unwrap().repr(), "((8 / 4) / 2)");
    assert_eq!(parse_source("a * b / c * d").unwrap().repr(), "(((a * b) / c) * d)");
    assert_eq!(parse_source("1 + x - 3 + 4").unwrap().repr(), "(((1 + x) - 3) + 4)");
}

#[test]
fn assignment_takes_the_whole_right_side() {
    let tokens = vec![
        Token::Ident("x".to_string()),
        Token::Eq,
        Token::IntLiteral(1),
        Token::Add,
        Token::IntLiteral(2),
    ];
    let node = Parser::new(tokens).parse(Precedence::Lowest).unwrap();
    assert_eq!(node.repr(), "x = (1 + 2)");
}

#[test]
fn unexpected_end_is_reported() {
    assert!(matches!(parse_source("1 +"), Err(ParseError::ReachedEnd)));
    assert!(matches!(parse_source("1 * 2 - x /"), Err(ParseError::ReachedEnd)));
    assert!(matches!(parse_source(""), Err(ParseError::ReachedEnd)));
}

#[test]
fn non_operand_is_invalid() {
    assert!(matches!(parse_source(")"), Err(ParseError::InvalidTypeData)));
    assert!(matches!(
        IntegerNode::new(Token::Add),
        Err(ParseError::InvalidTypeData)
    ));
}

#[test]
fn single_operands_parse() {
    assert_eq!(parse_source("42").unwrap().repr(), "42");
    assert_eq!(parse_source("abc").unwrap().repr(), "abc");
    assert_eq!(parse_source("((7))").unwrap().repr(), "7");
}

#[test]
fn operand_resolution_skips_open_parens() {
    let mut p = Parser::new(vec![Token::LParen, Token::LParen, Token::Ident("v".to_string())]);
    assert_eq!(p.get_operand_node().unwrap().repr(), "v");
    let mut q = Parser::new(vec![Token::LParen]);
    assert!(matches!(q.get_operand_node(), Err(ParseError::ReachedEnd)));
}

#[test]
fn binary_node_renders_its_operator() {
    let n = Parser::get_binary_node(Token::Mul, *lit(6), *lit(7)).unwrap();
    assert_eq!(n.repr(), "(6 * 7)");
}

#[test]
fn operator_precedence_levels() {
    assert_eq!(Operator::Add.precedence(), Precedence::AddSub);
    assert_eq!(Operator::Sub.precedence(), Precedence::AddSub);
    assert_eq!(Operator::Mul.precedence(), Precedence::MulDiv);
    assert_eq!(Operator::Div.precedence(), Precedence::MulDiv);
    assert_eq!(Token::Div.as_operator(), Some(Operator::Div));
    assert_eq!(Token::Eq.as_operator(), None);
    assert_eq!(Operator::Sub.text(), "-");
}

#[test]
fn statements_render() {
    let ret = Node::Return(ReturnStmt::new(lit(5)));
    assert_eq!(ret.repr(), "return 5");
    let call = Node::Call(CallStmt::new(ident("f"), vec![*lit(1), Node::Ident(ident("y"))]));
    assert_eq!(call.repr(), "f(1, y)");
    let empty_call = Node::Call(CallStmt::new(ident("g"), vec![]));
    assert_eq!(empty_call.repr(), "g()");
    let assign = Node::Assignment(AssignmentStmt::new(ident("z"), lit(-3)));
    assert_eq!(assign.repr(), "z = -3");
}

#[test]
fn blocks_indent_each_statement() {
    let block = Node::Block(BlockStmt::new(
        2,
        vec![Node::Return(ReturnStmt::new(lit(1))), Node::Ident(ident("a"))],
    ));
    assert_eq!(block.repr(), "        return 1\n        a");
}

#[test]
fn conditional_renders_both_branches() {
    let pass = Box::new(BlockStmt::new(1, vec![Node::Ident(ident("a"))]));
    let fail = Box::new(BlockStmt::new(1, vec![Node::Ident(ident("b"))]));
    let cond = Node::Conditional(ConditionalStmt::new(lit(1), pass, Some(fail)));
    assert_eq!(cond.repr(), "if (1):\n    a\nelse:\n    b");
    let pass = Box::new(BlockStmt::new(1, vec![Node::Ident(ident("a"))]));
    let only = Node::Conditional(ConditionalStmt::new(lit(0), pass, None));
    assert_eq!(only.repr(), "if (0):\n    a\n");
}

#[test]
fn function_literal_renders_header_and_body() {
    let body = Box::new(BlockStmt::new(1, vec![Node::Return(ReturnStmt::new(lit(0)))]));
    let f = Node::Function(FnLiteral::new(ident("main"), vec![ident("a"), ident("b")], body));
    assert_eq!(f.repr(), "def main(a, b):\n    return 0");
}

#[test]
fn eval_returns_the_node_unchanged() {
    let n = parse_source("1 + 2").unwrap();
    assert_eq!(n.eval().repr(), "(1 + 2)");
}

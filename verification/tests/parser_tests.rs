use exprlang::ast::{BinaryOp, Expr, LiteralValue};
use exprlang::lexer::LexError;
use exprlang::parser::{ParseError, Parser};

fn parse(source: &str) -> Result<Expr, ParseError> {
    Parser::new(source).parse_expression()
}

fn num(n: i64) -> Expr {
    Expr::Literal(LiteralValue::Number(n))
}

fn var(name: &str) -> Expr {
    Expr::Variable(name.to_string())
}

fn bin(left: Expr, op: BinaryOp, right: Expr) -> Expr {
    Expr::Binary { left: Box::new(left), op, right: Box::new(right) }
}

fn assign(name: &str, value: Expr) -> Expr {
    Expr::Assign { name: name.to_string(), value: Box::new(value) }
}

#[test]
fn factors_parse_to_leaves() {
    assert_eq!(parse("42"), Ok(num(42)));
    assert_eq!(parse("count"), Ok(var("count")));
    assert_eq!(parse("((7))"), Ok(num(7)));
}

#[test]
fn operators_of_one_level_nest_to_the_left() {
    assert_eq!(
        parse("10 - 3 - 2"),
        Ok(bin(bin(num(10), BinaryOp::Subtract, num(3)), BinaryOp::Subtract, num(2)))
    );
    assert_eq!(
        parse("20 / 2 * 5"),
        Ok(bin(bin(num(20), BinaryOp::Divide, num(2)), BinaryOp::Multiply, num(5)))
    );
    assert_eq!(
        parse("1 + 2 - 3"),
        Ok(bin(bin(num(1), BinaryOp::Add, num(2)), BinaryOp::Subtract, num(3)))
    );
}

#[test]
fn products_are_operands_of_sums() {
    assert_eq!(
        parse("1 * 2 + 3 * 4"),
        Ok(bin(
            bin(num(1), BinaryOp::Multiply, num(2)),
            BinaryOp::Add,
            bin(num(3), BinaryOp::Multiply, num(4))
        ))
    );
}

#[test]
fn parentheses_override_precedence() {
    assert_eq!(
        parse("(2 + 3) * 4"),
        Ok(bin(bin(num(2), BinaryOp::Add, num(3)), BinaryOp::Multiply, num(4)))
    );
}

#[test]
fn assignment_takes_the_whole_right_side() {
    assert_eq!(parse("x = 5 + 3"), Ok(assign("x", bin(num(5), BinaryOp::Add, num(3)))));
}

#[test]
fn assignment_may_stand_in_parentheses() {
    assert_eq!(
        parse("1 + (x = 2)"),
        Ok(bin(num(1), BinaryOp::Add, assign("x", num(2))))
    );
}

#[test]
fn parenthesized_variable_is_an_assignment_target() {
    assert_eq!(parse("(x) = 3"), Ok(assign("x", num(3))));
}

#[test]
fn missing_operand_is_an_unexpected_token() {
    assert_eq!(parse(""), Err(ParseError::UnexpectedToken));
    assert_eq!(parse("1 +"), Err(ParseError::UnexpectedToken));
    assert_eq!(parse("* 2"), Err(ParseError::UnexpectedToken));
    assert_eq!(parse("1 + * 2"), Err(ParseError::UnexpectedToken));
    assert_eq!(parse("()"), Err(ParseError::UnexpectedToken));
    assert_eq!(parse("x ="), Err(ParseError::UnexpectedToken));
    assert_eq!(ParseError::UnexpectedToken.message(), "Unexpected token");
}

#[test]
fn unclosed_parenthesis_is_reported() {
    assert_eq!(parse("(1 + 2"), Err(ParseError::ExpectedClosingParen));
    assert_eq!(parse("(1 2)"), Err(ParseError::ExpectedClosingParen));
    assert_eq!(parse("((1)"), Err(ParseError::ExpectedClosingParen));
}

#[test]
fn assignment_target_must_be_a_variable() {
    assert_eq!(parse("1 + 2 = 3"), Err(ParseError::InvalidAssignmentTarget));
    assert_eq!(parse("5 = 3"), Err(ParseError::InvalidAssignmentTarget));
    assert_eq!(parse("x = 1 = 2"), Err(ParseError::InvalidAssignmentTarget));
    assert_eq!(parse("x + y = 2"), Err(ParseError::InvalidAssignmentTarget));
}

#[test]
fn tokens_after_the_expression_are_an_error() {
    assert_eq!(parse("1 2"), Err(ParseError::TrailingInput));
    assert_eq!(parse("1 + 2 )"), Err(ParseError::TrailingInput));
    assert_eq!(parse("x y"), Err(ParseError::TrailingInput));
    assert_eq!(ParseError::TrailingInput.message(), "Unexpected token after expression");
}

#[test]
fn lexical_errors_pass_through_the_parser() {
    assert_eq!(parse("1 + $"), Err(ParseError::Lexical(LexError::UnexpectedCharacter('$'))));
    assert_eq!(
        parse("+ 99999999999999999999"),
        Err(ParseError::Lexical(LexError::NumberTooLarge))
    );
    assert_eq!(
        ParseError::Lexical(LexError::UnexpectedCharacter('$')).message(),
        "Unexpected character: $"
    );
}

#[test]
fn a_spent_parser_has_nothing_left_to_read() {
    let mut parser = Parser::new("1 + 2");
    assert!(parser.parse_expression().is_ok());
    assert_eq!(parser.parse_expression(), Err(ParseError::UnexpectedToken));
}

#[test]
fn a_parser_stays_at_the_token_it_could_not_use() {
    let mut parser = Parser::new("1 2");
    assert_eq!(parser.parse_expression(), Err(ParseError::TrailingInput));
    assert_eq!(parser.parse_expression(), Ok(num(2)));
}

#[test]
fn clone_of_a_tree_is_equal_to_it() {
    let tree = parse("a = (b + 1) * 2").unwrap();
    assert_eq!(tree.clone(), tree);
}

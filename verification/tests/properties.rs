use exprlang::ast::{BinaryOp, Expr, LiteralValue};
use exprlang::evaluator::{Environment, EvalError};
use exprlang::parser::{ParseError, Parser};
use exprlang::session::evaluate;

fn value_of(source: &str, env: &mut Environment) -> Result<i64, EvalError> {
    evaluate(source, env).expect("the text is an expression").result
}

fn fresh(source: &str) -> Result<i64, EvalError> {
    value_of(source, &mut Environment::new())
}

fn parse(source: &str) -> Result<Expr, ParseError> {
    Parser::new(source).parse_expression()
}

fn number(n: i64) -> Box<Expr> {
    Box::new(Expr::Literal(LiteralValue::Number(n)))
}

#[test]
fn multiplication_binds_tighter_than_addition() {
    assert_eq!(fresh("2 + 3 * 4"), Ok(14));
    assert_eq!(fresh("(2 + 3) * 4"), Ok(20));
}

#[test]
fn subtraction_and_division_associate_to_the_left() {
    assert_eq!(fresh("10 - 3 - 2"), Ok(5));
    assert_eq!(fresh("20 / 2 / 2"), Ok(5));
}

#[test]
fn division_by_zero_is_an_error() {
    assert_eq!(fresh("5 / 0"), Err(EvalError::DivisionByZero));
}

#[test]
fn variables_persist_across_statements() {
    let mut env = Environment::new();
    assert_eq!(value_of("x = 10", &mut env), Ok(10));
    assert_eq!(value_of("y = x + 5", &mut env), Ok(15));
    assert_eq!(value_of("z = x * y", &mut env), Ok(150));
    assert_eq!(env.get("z"), Ok(150));
}

#[test]
fn chained_assignment_binds_every_name() {
    let mut env = Environment::new();
    assert_eq!(value_of("a = b = c = 5", &mut env), Ok(5));
    assert_eq!(env.get("a"), Ok(5));
    assert_eq!(env.get("b"), Ok(5));
    assert_eq!(env.get("c"), Ok(5));
}

#[test]
fn chained_assignment_nests_to_the_right() {
    let expected = Expr::Assign {
        name: "a".to_string(),
        value: Box::new(Expr::Assign {
            name: "b".to_string(),
            value: Box::new(Expr::Assign { name: "c".to_string(), value: number(5) }),
        }),
    };
    assert_eq!(parse("a = b = c = 5"), Ok(expected));
}

#[test]
fn assignment_reads_the_old_value_of_its_target() {
    let mut env = Environment::new();
    env.set("x".to_string(), 3);
    assert_eq!(value_of("x = x + 1", &mut env), Ok(4));
    assert_eq!(env.get("x"), Ok(4));
}

#[test]
fn undefined_variable_is_an_error() {
    assert_eq!(fresh("x + 1"), Err(EvalError::UndefinedVariable("x".to_string())));
}

#[test]
fn parsing_twice_gives_equal_trees() {
    let first = parse("a = (1 + 2) * b - 4 / c");
    let second = parse("a = (1 + 2) * b - 4 / c");
    assert!(first.is_ok());
    assert_eq!(first, second);
    assert_eq!(parse("1 +"), parse("1 +"));
}

#[test]
fn different_texts_give_different_trees() {
    assert_ne!(parse("1 + 2"), parse("1 - 2"));
    assert_ne!(parse("x"), parse("y"));
    assert_ne!(parse("1 + 2 * 3"), parse("(1 + 2) * 3"));
}

#[test]
fn assignment_to_a_sum_is_a_parse_error() {
    let mut env = Environment::new();
    assert_eq!(
        evaluate("1 + 2 = 3", &mut env).err(),
        Some(ParseError::InvalidAssignmentTarget)
    );
    assert_eq!(
        ParseError::InvalidAssignmentTarget.message(),
        "Left side of assignment must be a variable"
    );
}

#[test]
fn missing_closing_parenthesis_is_a_parse_error() {
    let mut env = Environment::new();
    assert_eq!(evaluate("(1 + 2", &mut env).err(), Some(ParseError::ExpectedClosingParen));
    assert_eq!(ParseError::ExpectedClosingParen.message(), "Expected closing parenthesis");
}

#[test]
fn left_operand_is_evaluated_before_the_right() {
    let mut env = Environment::new();
    assert_eq!(value_of("(x = 2) * (x + 1)", &mut env), Ok(6));
    assert_eq!(fresh("(x + 1) * (x = 2)"), Err(EvalError::UndefinedVariable("x".to_string())));
}

#[test]
fn precedence_shapes_the_tree() {
    let expected = Expr::Binary {
        left: number(2),
        op: BinaryOp::Add,
        right: Box::new(Expr::Binary { left: number(3), op: BinaryOp::Multiply, right: number(4) }),
    };
    assert_eq!(parse("2 + 3 * 4"), Ok(expected));
}

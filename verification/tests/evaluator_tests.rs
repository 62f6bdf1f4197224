use exprlang::ast::{BinaryOp, Expr, LiteralValue};
use exprlang::evaluator::{eval, Environment, EvalError};
use exprlang::parser::ParseError;
use exprlang::session::evaluate;

fn num(n: i64) -> Expr {
    Expr::Literal(LiteralValue::Number(n))
}

fn bin(left: Expr, op: BinaryOp, right: Expr) -> Expr {
    Expr::Binary { left: Box::new(left), op, right: Box::new(right) }
}

fn apply(a: i64, op: BinaryOp, b: i64) -> Result<i64, EvalError> {
    eval(&bin(num(a), op, num(b)), &mut Environment::new())
}

#[test]
fn fresh_environment_binds_nothing() {
    let env = Environment::new();
    assert_eq!(env.get("x"), Err(EvalError::UndefinedVariable("x".to_string())));
}

#[test]
fn set_binds_and_overwrites() {
    let mut env = Environment::new();
    env.set("x".to_string(), 1);
    env.set("y".to_string(), 2);
    assert_eq!(env.get("x"), Ok(1));
    env.set("x".to_string(), 7);
    assert_eq!(env.get("x"), Ok(7));
    assert_eq!(env.get("y"), Ok(2));
}

#[test]
fn literal_evaluates_to_its_number() {
    assert_eq!(eval(&num(42), &mut Environment::new()), Ok(42));
}

#[test]
fn arithmetic_is_exact() {
    assert_eq!(apply(7, BinaryOp::Add, 5), Ok(12));
    assert_eq!(apply(7, BinaryOp::Subtract, 9), Ok(-2));
    assert_eq!(apply(-6, BinaryOp::Multiply, 7), Ok(-42));
    assert_eq!(apply(42, BinaryOp::Divide, 6), Ok(7));
}

#[test]
fn division_rounds_toward_zero() {
    assert_eq!(apply(7, BinaryOp::Divide, 2), Ok(3));
    assert_eq!(apply(-7, BinaryOp::Divide, 2), Ok(-3));
    assert_eq!(apply(7, BinaryOp::Divide, -2), Ok(-3));
    assert_eq!(apply(-7, BinaryOp::Divide, -2), Ok(3));
    assert_eq!(apply(0, BinaryOp::Divide, -5), Ok(0));
}

#[test]
fn zero_divisor_is_reported() {
    assert_eq!(apply(5, BinaryOp::Divide, 0), Err(EvalError::DivisionByZero));
    assert_eq!(apply(0, BinaryOp::Divide, 0), Err(EvalError::DivisionByZero));
    assert_eq!(EvalError::DivisionByZero.message(), "Division by zero");
}

#[test]
fn results_beyond_the_range_are_overflow() {
    assert_eq!(apply(i64::MAX, BinaryOp::Add, 1), Err(EvalError::Overflow));
    assert_eq!(apply(i64::MIN, BinaryOp::Subtract, 1), Err(EvalError::Overflow));
    assert_eq!(apply(i64::MAX, BinaryOp::Multiply, 2), Err(EvalError::Overflow));
    assert_eq!(apply(i64::MIN, BinaryOp::Divide, -1), Err(EvalError::Overflow));
    assert_eq!(apply(i64::MAX, BinaryOp::Add, 0), Ok(i64::MAX));
    assert_eq!(apply(i64::MIN, BinaryOp::Divide, 1), Ok(i64::MIN));
    assert_eq!(EvalError::Overflow.message(), "Integer overflow");
}

#[test]
fn undefined_variable_names_the_variable() {
    let error = eval(&Expr::Variable("total".to_string()), &mut Environment::new());
    assert_eq!(error, Err(EvalError::UndefinedVariable("total".to_string())));
    assert_eq!(error.unwrap_err().message(), "Undefined variable: total");
}

#[test]
fn assignment_yields_and_stores_the_value() {
    let mut env = Environment::new();
    let tree = Expr::Assign { name: "x".to_string(), value: Box::new(num(9)) };
    assert_eq!(eval(&tree, &mut env), Ok(9));
    assert_eq!(env.get("x"), Ok(9));
}

#[test]
fn failed_assignment_binds_nothing() {
    let mut env = Environment::new();
    let tree = Expr::Assign {
        name: "x".to_string(),
        value: Box::new(bin(num(1), BinaryOp::Divide, num(0))),
    };
    assert_eq!(eval(&tree, &mut env), Err(EvalError::DivisionByZero));
    assert_eq!(env.get("x"), Err(EvalError::UndefinedVariable("x".to_string())));
}

#[test]
fn bindings_made_before_an_error_stay() {
    let mut env = Environment::new();
    let outcome = evaluate("(x = 1) + (2 / 0)", &mut env).unwrap();
    assert_eq!(outcome.result, Err(EvalError::DivisionByZero));
    assert_eq!(env.get("x"), Ok(1));
}

#[test]
fn first_failing_operand_ends_the_evaluation() {
    let mut env = Environment::new();
    let outcome = evaluate("(1 / 0) + (x = 1)", &mut env).unwrap();
    assert_eq!(outcome.result, Err(EvalError::DivisionByZero));
    assert_eq!(env.get("x"), Err(EvalError::UndefinedVariable("x".to_string())));
}

#[test]
fn evaluate_returns_the_tree_beside_the_value() {
    let mut env = Environment::new();
    let outcome = evaluate("1 + 2", &mut env).unwrap();
    assert_eq!(outcome.ast, bin(num(1), BinaryOp::Add, num(2)));
    assert_eq!(outcome.result, Ok(3));
}

#[test]
fn parse_error_leaves_the_environment_alone() {
    let mut env = Environment::new();
    env.set("x".to_string(), 1);
    assert_eq!(evaluate("x = ", &mut env).err(), Some(ParseError::UnexpectedToken));
    assert_eq!(env.get("x"), Ok(1));
}

#[test]
fn errors_compare_by_kind_and_name() {
    assert_eq!(EvalError::Overflow, EvalError::Overflow);
    assert_ne!(EvalError::Overflow, EvalError::DivisionByZero);
    assert_ne!(
        EvalError::UndefinedVariable("a".to_string()),
        EvalError::UndefinedVariable("b".to_string())
    );
    assert_eq!(
        EvalError::UndefinedVariable("a".to_string()).clone(),
        EvalError::UndefinedVariable("a".to_string())
    );
}

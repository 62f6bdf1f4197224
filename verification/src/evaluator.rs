use crate::ast::{BinaryOp, Expr, ExprView, LiteralValue};
use vstd::hash_map::StringHashMap;
use vstd::prelude::*;
use vstd::string::StringExecFns;

verus! {

/// Why an evaluation stopped without a value.
#[derive(Debug)]
pub enum EvalError {
    /// A variable was read that no assignment has bound.
    UndefinedVariable(String),
    /// The right operand of a division was zero.
    DivisionByZero,
    /// The exact result of an operation does not fit a 64-bit signed integer.
    Overflow,
}

/// An [`EvalError`] with the variable's name as a sequence of characters.
pub enum EvalErrorView {
    UndefinedVariable(Seq<char>),
    DivisionByZero,
    Overflow,
}

impl View for EvalError {
    type V = EvalErrorView;

    open spec fn view(&self) -> EvalErrorView {
        match self {
            EvalError::UndefinedVariable(name) => EvalErrorView::UndefinedVariable(name@),
            EvalError::DivisionByZero => EvalErrorView::DivisionByZero,
            EvalError::Overflow => EvalErrorView::Overflow,
        }
    }
}

impl EvalErrorView {
    /// The text of the diagnostic.
    pub open spec fn message_text(self) -> Seq<char> {
        match self {
            EvalErrorView::UndefinedVariable(name) => "Undefined variable: "@ + name,
            EvalErrorView::DivisionByZero => "Division by zero"@,
            EvalErrorView::Overflow => "Integer overflow"@,
        }
    }
}

impl EvalError {
    /// A diagnostic for a reader.
    pub fn message(&self) -> (text: String)
        ensures
            text@ == self@.message_text(),
    {
        match self {
            EvalError::UndefinedVariable(name) => {
                let mut text = "Undefined variable: ".to_owned();
                text.append(name.as_str());
                text
            },
            EvalError::DivisionByZero => "Division by zero".to_owned(),
            EvalError::Overflow => "Integer overflow".to_owned(),
        }
    }
}

impl Clone for EvalError {
    fn clone(&self) -> (r: EvalError)
        ensures
            r@ == self@,
    {
        match self {
            EvalError::UndefinedVariable(name) => EvalError::UndefinedVariable(name.clone()),
            EvalError::DivisionByZero => EvalError::DivisionByZero,
            EvalError::Overflow => EvalError::Overflow,
        }
    }
}

impl PartialEq for EvalError {
    /// Two errors are equal when they are of the same kind and name the same variable.
    fn eq(&self, other: &EvalError) -> (r: bool) {
        match self {
            EvalError::UndefinedVariable(a) => match other {
                EvalError::UndefinedVariable(b) => *a == *b,
                _ => false,
            },
            EvalError::DivisionByZero => match other {
                EvalError::DivisionByZero => true,
                _ => false,
            },
            EvalError::Overflow => match other {
                EvalError::Overflow => true,
                _ => false,
            },
        }
    }
}

impl vstd::std_specs::cmp::PartialEqSpecImpl for EvalError {
    open spec fn obeys_eq_spec() -> bool {
        true
    }

    open spec fn eq_spec(&self, other: &EvalError) -> bool {
        self@ == other@
    }
}

/// The outcome of an evaluation as contracts speak of it.
pub open spec fn outcome_view(r: Result<i64, EvalError>) -> Result<i64, EvalErrorView> {
    match r {
        Ok(v) => Ok(v),
        Err(e) => Err(e@),
    }
}

/// The variables of one evaluation session: each name is bound to at most one integer.
pub struct Environment {
    variables: StringHashMap<i64>,
}

impl View for Environment {
    type V = Map<Seq<char>, i64>;

    closed spec fn view(&self) -> Map<Seq<char>, i64> {
        self.variables@
    }
}

impl Environment {
    /// An environment that binds no variable.
    pub fn new() -> (env: Environment)
        ensures
            env@ == Map::<Seq<char>, i64>::empty(),
    {
        Environment { variables: StringHashMap::new() }
    }

    /// Binds `name` to `value`, replacing an earlier binding of `name`.
    pub fn set(&mut self, name: String, value: i64)
        ensures
            final(self)@ == old(self)@.insert(name@, value),
    {
        self.variables.insert(name, value);
    }

    /// The value bound to `name`, or `UndefinedVariable` with that name if there is none.
    pub fn get(&self, name: &str) -> (r: Result<i64, EvalError>)
        ensures
            outcome_view(r) == lookup(self@, name@),
    {
        match self.variables.get(name) {
            Some(value) => Ok(*value),
            None => Err(EvalError::UndefinedVariable(name.to_owned())),
        }
    }
}

/// What reading `name` in `env` gives.
pub open spec fn lookup(env: Map<Seq<char>, i64>, name: Seq<char>) -> Result<i64, EvalErrorView> {
    if env.contains_key(name) {
        Ok(env[name])
    } else {
        Err(EvalErrorView::UndefinedVariable(name))
    }
}

/// `v` as a 64-bit value, or `Overflow` if it has none.
pub open spec fn in_range(v: int) -> Result<i64, EvalErrorView> {
    if i64::MIN <= v <= i64::MAX {
        Ok(v as i64)
    } else {
        Err(EvalErrorView::Overflow)
    }
}

/// The quotient of `a` by a nonzero `b`, rounded toward zero.
pub open spec fn truncated_quotient(a: int, b: int) -> int {
    let q = (if a < 0 { -a } else { a }) / (if b < 0 { -b } else { b });
    if (a < 0) == (b < 0) {
        q
    } else {
        -q
    }
}

/// The result of applying `op` to two values: exact integer arithmetic, with division rounded
/// toward zero. Division by zero and results outside the 64-bit range are errors.
pub open spec fn apply(op: BinaryOp, a: i64, b: i64) -> Result<i64, EvalErrorView> {
    match op {
        BinaryOp::Add => in_range(a + b),
        BinaryOp::Subtract => in_range(a - b),
        BinaryOp::Multiply => in_range(a * b),
        BinaryOp::Divide => if b == 0 {
            Err(EvalErrorView::DivisionByZero)
        } else {
            in_range(truncated_quotient(a as int, b as int))
        },
    }
}

/// What an evaluation leaves behind: its result, and the environment after it.
pub struct Evaluated {
    pub result: Result<i64, EvalErrorView>,
    pub env: Map<Seq<char>, i64>,
}

/// The meaning of an expression in an environment.
///
/// A literal is its number. A variable is read from the environment. An assignment evaluates
/// its right side first, then binds the name to that value and yields it. A binary node
/// evaluates its left operand, then its right operand in the environment that the left one
/// left behind, then applies the operator. The first error ends the evaluation; bindings made
/// before it stay.
pub open spec fn eval_spec(expr: ExprView, env: Map<Seq<char>, i64>) -> Evaluated
    decreases expr,
{
    match expr {
        ExprView::Literal(n) => Evaluated { result: Ok(n), env },
        ExprView::Variable(name) => Evaluated { result: lookup(env, name), env },
        ExprView::Assign { name, value } => {
            let right = eval_spec(*value, env);
            match right.result {
                Ok(v) => Evaluated { result: Ok(v), env: right.env.insert(name, v) },
                Err(_) => right,
            }
        },
        ExprView::Binary { left, op, right } => {
            let first = eval_spec(*left, env);
            match first.result {
                Ok(a) => {
                    let second = eval_spec(*right, first.env);
                    match second.result {
                        Ok(b) => Evaluated { result: apply(op, a, b), env: second.env },
                        Err(_) => second,
                    }
                },
                Err(_) => first,
            }
        },
    }
}

/// Applies `op` to two values.
fn apply_op(op: BinaryOp, a: i64, b: i64) -> (r: Result<i64, EvalError>)
    ensures
        outcome_view(r) == apply(op, a, b),
{
    let exact = match op {
        BinaryOp::Add => a.checked_add(b),
        BinaryOp::Subtract => a.checked_sub(b),
        BinaryOp::Multiply => a.checked_mul(b),
        BinaryOp::Divide => {
            if b == 0 {
                return Err(EvalError::DivisionByZero);
            }
            a.checked_div(b)
        },
    };
    match exact {
        Some(v) => Ok(v),
        None => Err(EvalError::Overflow),
    }
}

/// Evaluates `expr` in `env`, which assignments in `expr` update.
pub fn eval(expr: &Expr, env: &mut Environment) -> (r: Result<i64, EvalError>)
    ensures
        outcome_view(r) == eval_spec(expr@, old(env)@).result,
        final(env)@ == eval_spec(expr@, old(env)@).env,
    decreases expr,
{
    match expr {
        Expr::Literal(LiteralValue::Number(n)) => Ok(*n),
        Expr::Variable(name) => env.get(name.as_str()),
        Expr::Assign { name, value } => {
            let v = eval(value, env)?;
            env.set(name.clone(), v);
            Ok(v)
        },
        Expr::Binary { left, op, right } => {
            let a = eval(left, env)?;
            let b = eval(right, env)?;
            apply_op(*op, a, b)
        },
    }
}

/// Whether an assignment stands anywhere in `expr`.
pub open spec fn has_assignment(expr: ExprView) -> bool
    decreases expr,
{
    match expr {
        ExprView::Literal(_) => false,
        ExprView::Variable(_) => false,
        ExprView::Assign { .. } => true,
        ExprView::Binary { left, op, right } => has_assignment(*left) || has_assignment(*right),
    }
}

/// Assignment is the only way in which an evaluation changes the environment: a tree
/// without one leaves it as it was, whether the evaluation succeeds or fails.
pub proof fn lemma_eval_without_assignment_keeps_env(expr: ExprView, env: Map<Seq<char>, i64>)
    requires
        !has_assignment(expr),
    ensures
        eval_spec(expr, env).env == env,
    decreases expr,
{
    match expr {
        ExprView::Binary { left, op, right } => {
            lemma_eval_without_assignment_keeps_env(*left, env);
            lemma_eval_without_assignment_keeps_env(*right, env);
        },
        _ => {},
    }
}

/// An evaluation never unbinds a variable: what was bound before is bound after, and new
/// bindings only come from assignments.
pub proof fn lemma_eval_keeps_bindings(expr: ExprView, env: Map<Seq<char>, i64>, name: Seq<char>)
    requires
        env.contains_key(name),
    ensures
        eval_spec(expr, env).env.contains_key(name),
    decreases expr,
{
    match expr {
        ExprView::Binary { left, op, right } => {
            lemma_eval_keeps_bindings(*left, env, name);
            lemma_eval_keeps_bindings(*right, eval_spec(*left, env).env, name);
        },
        ExprView::Assign { name: target, value } => {
            lemma_eval_keeps_bindings(*value, env, name);
        },
        _ => {},
    }
}

/// A successful assignment binds its target to the value it yields.
pub proof fn lemma_assignment_binds_its_value(
    name: Seq<char>,
    value: ExprView,
    env: Map<Seq<char>, i64>,
)
    requires
        eval_spec(ExprView::Assign { name, value: Box::new(value) }, env).result is Ok,
    ensures
        ({
            let after = eval_spec(ExprView::Assign { name, value: Box::new(value) }, env);
            &&& after.result == eval_spec(value, env).result
            &&& lookup(after.env, name) == after.result
        }),
{
}

} // verus!

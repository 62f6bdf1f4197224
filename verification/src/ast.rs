use vstd::prelude::*;

verus! {

/// The arithmetic operator of a binary node.
#[derive(Debug, Clone, Copy, PartialEq, Eq, Structural)]
pub enum BinaryOp {
    Add,
    Subtract,
    Multiply,
    Divide,
}

/// The value of a literal node.
#[derive(Debug, Clone, Copy, PartialEq, Eq, Structural)]
pub enum LiteralValue {
    Number(i64),
}

/// An expression tree. A node owns its subtrees, so a tree is finite and has no sharing.
#[derive(Debug)]
pub enum Expr {
    /// `left op right`.
    Binary { left: Box<Expr>, op: BinaryOp, right: Box<Expr> },
    /// A constant.
    Literal(LiteralValue),
    /// A reference to a variable, resolved when the tree is evaluated.
    Variable(String),
    /// `name = value`: stores the value of `value` under `name` and yields it.
    Assign { name: String, value: Box<Expr> },
}

/// The mathematical tree that an [`Expr`] stands for: names are sequences of characters.
pub enum ExprView {
    Binary { left: Box<ExprView>, op: BinaryOp, right: Box<ExprView> },
    Literal(i64),
    Variable(Seq<char>),
    Assign { name: Seq<char>, value: Box<ExprView> },
}

impl View for Expr {
    type V = ExprView;

    open spec fn view(&self) -> ExprView {
        self.tree()
    }
}

impl Expr {
    /// The mathematical tree of this expression; `e@` is short for `e.tree()`.
    pub open spec fn tree(&self) -> ExprView
        decreases self,
    {
        match self {
            Expr::Binary { left, op, right } => ExprView::Binary {
                left: Box::new(left.tree()),
                op: *op,
                right: Box::new(right.tree()),
            },
            Expr::Literal(LiteralValue::Number(n)) => ExprView::Literal(*n),
            Expr::Variable(name) => ExprView::Variable(name@),
            Expr::Assign { name, value } => ExprView::Assign {
                name: name@,
                value: Box::new(value.tree()),
            },
        }
    }
}

impl Clone for Expr {
    /// Copies the tree node by node.
    fn clone(&self) -> (r: Expr)
        ensures
            r@ == self@,
        decreases self,
    {
        match self {
            Expr::Binary { left, op, right } => Expr::Binary {
                left: Box::new((&**left).clone()),
                op: *op,
                right: Box::new((&**right).clone()),
            },
            Expr::Literal(LiteralValue::Number(n)) => Expr::Literal(LiteralValue::Number(*n)),
            Expr::Variable(name) => Expr::Variable(name.clone()),
            Expr::Assign { name, value } => Expr::Assign {
                name: name.clone(),
                value: Box::new((&**value).clone()),
            },
        }
    }
}

impl PartialEq for Expr {
    /// Structural equality: two trees are equal when they have the same shape, operators,
    /// numbers and names.
    fn eq(&self, other: &Expr) -> (r: bool)
        decreases self,
    {
        match self {
            Expr::Binary { left: l1, op: o1, right: r1 } => match other {
                Expr::Binary { left: l2, op: o2, right: r2 } => {
                    *o1 == *o2 && **l1 == **l2 && **r1 == **r2
                },
                _ => false,
            },
            Expr::Literal(LiteralValue::Number(a)) => match other {
                Expr::Literal(LiteralValue::Number(b)) => *a == *b,
                _ => false,
            },
            Expr::Variable(a) => match other {
                Expr::Variable(b) => *a == *b,
                _ => false,
            },
            Expr::Assign { name: n1, value: v1 } => match other {
                Expr::Assign { name: n2, value: v2 } => *n1 == *n2 && **v1 == **v2,
                _ => false,
            },
        }
    }
}

impl vstd::std_specs::cmp::PartialEqSpecImpl for Expr {
    open spec fn obeys_eq_spec() -> bool {
        true
    }

    open spec fn eq_spec(&self, other: &Expr) -> bool {
        self@ == other@
    }
}

} // verus!

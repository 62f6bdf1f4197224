use crate::ast::{BinaryOp, ExprView};
use crate::lexer::TokenView;
use crate::parser::{
    additive_op, additive_tail, multiplicative_op, multiplicative_tail, parse_additive,
    parse_assignment, parse_factor, parse_multiplicative, parse_tokens, token_at, ParseError,
    Parsed,
};
use vstd::prelude::*;

verus! {

/// How tightly an operator binds: 1 for `+` and `-`, 2 for `*` and `/`.
pub open spec fn op_level(op: BinaryOp) -> nat {
    match op {
        BinaryOp::Add => 1,
        BinaryOp::Subtract => 1,
        BinaryOp::Multiply => 2,
        BinaryOp::Divide => 2,
    }
}

/// The token that writes an operator.
pub open spec fn op_token(op: BinaryOp) -> TokenView {
    match op {
        BinaryOp::Add => TokenView::Plus,
        BinaryOp::Subtract => TokenView::Minus,
        BinaryOp::Multiply => TokenView::Star,
        BinaryOp::Divide => TokenView::Slash,
    }
}

/// How tightly the top of a tree binds: 0 for an assignment, the level of its operator for a
/// binary node, 3 for a number or a variable.
pub open spec fn binding(expr: ExprView) -> nat {
    match expr {
        ExprView::Assign { .. } => 0,
        ExprView::Binary { left, op, right } => op_level(op),
        ExprView::Literal(_) => 3,
        ExprView::Variable(_) => 3,
    }
}

/// A tree written as tokens without parentheses around it.
///
/// The left operand of an operator is written for the operator's own level, the right one
/// for the next level, so that a chain of operators of one level reads from left to right.
pub open spec fn bare(expr: ExprView) -> Seq<TokenView>
    decreases expr, 0nat,
{
    match expr {
        ExprView::Literal(n) => seq![TokenView::Number(n)],
        ExprView::Variable(name) => seq![TokenView::Identifier(name)],
        ExprView::Binary { left, op, right } => render(*left, op_level(op)) + seq![op_token(op)]
            + render(*right, op_level(op) + 1),
        ExprView::Assign { name, value } => seq![TokenView::Identifier(name), TokenView::Assign]
            + render(*value, 0),
    }
}

/// A tree written as tokens for a place that takes trees of binding `level` and above: in
/// parentheses if the tree binds less tightly, bare otherwise.
pub open spec fn render(expr: ExprView, level: nat) -> Seq<TokenView>
    decreases expr, 1nat,
{
    if binding(expr) < level {
        seq![TokenView::LParen] + bare(expr) + seq![TokenView::RParen]
    } else {
        bare(expr)
    }
}

/// Whether `part` stands in `ts` from position `pos` on.
spec fn stands_at(ts: Seq<TokenView>, pos: int, part: Seq<TokenView>) -> bool {
    &&& 0 <= pos
    &&& pos + part.len() <= ts.len()
    &&& forall|i: int| 0 <= i < part.len() ==> ts[pos + i] == #[trigger] part[i]
}

/// Whether a product ends before position `pos`: no `*` or `/` stands there.
spec fn ends_product(ts: Seq<TokenView>, pos: int) -> bool {
    pos >= ts.len() || multiplicative_op(ts[pos]) is None
}

/// Whether a sum ends before position `pos`: no operator stands there.
spec fn ends_sum(ts: Seq<TokenView>, pos: int) -> bool {
    pos >= ts.len() || (multiplicative_op(ts[pos]) is None && additive_op(ts[pos]) is None)
}

/// Whether an assignment ends before position `pos`: no operator and no `=` stands there.
spec fn ends_assignment(ts: Seq<TokenView>, pos: int) -> bool {
    ends_sum(ts, pos) && !token_at(ts, pos, TokenView::Assign)
}

/// `parsed` with `by` more tokens read before it.
spec fn shifted(parsed: Parsed, by: nat) -> Parsed {
    Parsed { result: parsed.result, consumed: by + parsed.consumed }
}

/// The number of levels from `level` up to the binding of `expr`, going round from 3 to 0.
spec fn steps(expr: ExprView, level: nat) -> nat {
    if binding(expr) >= level {
        (binding(expr) - level) as nat
    } else {
        (binding(expr) + 4 - level) as nat
    }
}

/// Where a sequence stands, its two halves stand.
proof fn lemma_stands_split(
    ts: Seq<TokenView>,
    pos: int,
    head: Seq<TokenView>,
    tail: Seq<TokenView>,
)
    requires
        stands_at(ts, pos, head + tail),
    ensures
        stands_at(ts, pos, head),
        stands_at(ts, pos + head.len(), tail),
{
    let whole = head + tail;
    assert forall|i: int| 0 <= i < head.len() implies ts[pos + i] == #[trigger] head[i] by {
        assert(whole[i] == head[i]);
    }
    assert forall|i: int| 0 <= i < tail.len() implies ts[pos + head.len() + i]
        == #[trigger] tail[i] by {
        assert(whole[head.len() + i] == tail[i]);
    }
}

/// A tree written for the place of a factor is read back as a factor.
proof fn lemma_factor(ts: Seq<TokenView>, pos: int, expr: ExprView)
    requires
        stands_at(ts, pos, render(expr, 3)),
    ensures
        parse_factor(ts, pos) == (Parsed { result: Ok(expr), consumed: render(expr, 3).len() }),
    decreases expr, steps(expr, 3),
{
    if binding(expr) < 3 {
        let inner = bare(expr);
        let open = seq![TokenView::LParen];
        let close = seq![TokenView::RParen];
        lemma_stands_split(ts, pos, open + inner, close);
        lemma_stands_split(ts, pos, open, inner);
        assert(open[0] == TokenView::LParen);
        assert(close[0] == TokenView::RParen);
        assert(ts[pos] == TokenView::LParen);
        assert(ts[pos + 1 + inner.len()] == TokenView::RParen);
        assert(render(expr, 0) == inner);
        lemma_assignment(ts, pos + 1, expr);
    } else {
        assert(render(expr, 3)[0] == ts[pos]);
    }
}

/// A tree written for the place of a product is read as the start of a chain of factors,
/// which goes on with what follows it.
proof fn lemma_product(ts: Seq<TokenView>, pos: int, expr: ExprView)
    requires
        stands_at(ts, pos, render(expr, 2)),
    ensures
        parse_multiplicative(ts, pos) == shifted(
            multiplicative_tail(ts, pos + render(expr, 2).len(), expr),
            render(expr, 2).len(),
        ),
    decreases expr, steps(expr, 2),
{
    match expr {
        ExprView::Binary { left, op, right } if op_level(op) == 2 => {
            let first = render(*left, 2);
            let sign = seq![op_token(op)];
            let second = render(*right, 3);
            lemma_stands_split(ts, pos, first + sign, second);
            lemma_stands_split(ts, pos, first, sign);
            assert(sign[0] == op_token(op));
            lemma_product(ts, pos, *left);
            lemma_factor(ts, pos + first.len() + 1, *right);
        },
        _ => {
            assert(render(expr, 2) == render(expr, 3));
            lemma_factor(ts, pos, expr);
        },
    }
}

/// A tree written for the place of a sum is read as the start of a chain of products, which
/// goes on with what follows it.
proof fn lemma_sum(ts: Seq<TokenView>, pos: int, expr: ExprView)
    requires
        stands_at(ts, pos, render(expr, 1)),
        ends_product(ts, pos + render(expr, 1).len()),
    ensures
        parse_additive(ts, pos) == shifted(
            additive_tail(ts, pos + render(expr, 1).len(), expr),
            render(expr, 1).len(),
        ),
    decreases expr, steps(expr, 1),
{
    match expr {
        ExprView::Binary { left, op, right } if op_level(op) == 1 => {
            let first = render(*left, 1);
            let sign = seq![op_token(op)];
            let second = render(*right, 2);
            lemma_stands_split(ts, pos, first + sign, second);
            lemma_stands_split(ts, pos, first, sign);
            assert(sign[0] == op_token(op));
            lemma_sum(ts, pos, *left);
            lemma_product(ts, pos + first.len() + 1, *right);
        },
        _ => {
            assert(render(expr, 1) == render(expr, 2));
            lemma_product(ts, pos, expr);
        },
    }
}

/// A tree written bare, with nothing after it that would go on with it, is read back whole.
proof fn lemma_assignment(ts: Seq<TokenView>, pos: int, expr: ExprView)
    requires
        stands_at(ts, pos, render(expr, 0)),
        ends_assignment(ts, pos + render(expr, 0).len()),
    ensures
        parse_assignment(ts, pos) == (Parsed { result: Ok(expr), consumed: render(expr, 0).len() }),
    decreases expr, steps(expr, 0),
{
    match expr {
        ExprView::Assign { name, value } => {
            let target = seq![TokenView::Identifier(name), TokenView::Assign];
            lemma_stands_split(ts, pos, target, render(*value, 0));
            assert(target[0] == ts[pos]);
            assert(target[1] == ts[pos + 1]);
            lemma_assignment(ts, pos + 2, *value);
        },
        _ => {
            assert(render(expr, 0) == render(expr, 1));
            lemma_sum(ts, pos, expr);
        },
    }
}

/// The parser reads back what `render` writes: for every tree, parsing the tokens that write
/// it with only the parentheses that precedence and association from the left make
/// necessary gives that tree. So `*` and `/` bind more tightly than `+` and `-`, operators
/// of one level associate to the left, and assignment takes all that follows it.
pub proof fn lemma_parse_inverts_render(expr: ExprView)
    ensures
        parse_tokens(render(expr, 0)) == Ok::<ExprView, ParseError>(expr),
{
    lemma_assignment(render(expr, 0), 0, expr);
}

} // verus!

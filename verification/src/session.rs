use crate::ast::{Expr, ExprView};
use crate::evaluator::{eval, eval_spec, outcome_view, Environment, EvalError, EvalErrorView};
use crate::lexer::chars_of;
use crate::parser::{parse, parse_text, ParseError};
use vstd::prelude::*;

verus! {

/// An expression that was parsed, and what evaluating it gave.
#[derive(Debug)]
pub struct Evaluation {
    pub ast: Expr,
    pub result: Result<i64, EvalError>,
}

/// An [`Evaluation`] over mathematical trees and names.
pub struct EvaluationView {
    pub ast: ExprView,
    pub result: Result<i64, EvalErrorView>,
}

impl View for Evaluation {
    type V = EvaluationView;

    open spec fn view(&self) -> EvaluationView {
        EvaluationView { ast: self.ast@, result: outcome_view(self.result) }
    }
}

/// What running one statement gives, and the environment after it.
pub struct Ran {
    pub outcome: Result<EvaluationView, ParseError>,
    pub env: Map<Seq<char>, i64>,
}

/// The meaning of a text as one statement: a text that is no expression leaves the
/// environment as it was; an expression is evaluated in it.
pub open spec fn run(text: Seq<char>, env: Map<Seq<char>, i64>) -> Ran {
    match parse_text(text) {
        Ok(ast) => Ran {
            outcome: Ok(EvaluationView { ast, result: eval_spec(ast, env).result }),
            env: eval_spec(ast, env).env,
        },
        Err(e) => Ran { outcome: Err(e), env },
    }
}

/// The outcome of a statement as contracts speak of it.
pub open spec fn ran_view(r: Result<Evaluation, ParseError>) -> Result<EvaluationView, ParseError> {
    match r {
        Ok(evaluation) => Ok(evaluation@),
        Err(e) => Err(e),
    }
}

/// Parses `source` as one expression and evaluates it in `env`.
///
/// A parse error is returned before anything is evaluated. An evaluation error stands in the
/// `result` of the evaluation, beside the tree that was parsed.
pub fn evaluate(source: &str, env: &mut Environment) -> (r: Result<Evaluation, ParseError>)
    ensures
        ran_view(r) == run(source@, old(env)@).outcome,
        final(env)@ == run(source@, old(env)@).env,
{
    let ast = parse(source)?;
    let result = eval(&ast, env);
    Ok(Evaluation { ast, result })
}

/// The characters that count as blank at the ends of a statement: those with the Unicode
/// property `White_Space`.
pub open spec fn is_blank(c: char) -> bool {
    ||| '\u{9}' <= c <= '\u{d}'
    ||| c == ' '
    ||| c == '\u{85}'
    ||| c == '\u{a0}'
    ||| c == '\u{1680}'
    ||| '\u{2000}' <= c <= '\u{200a}'
    ||| c == '\u{2028}'
    ||| c == '\u{2029}'
    ||| c == '\u{202f}'
    ||| c == '\u{205f}'
    ||| c == '\u{3000}'
}

/// The number of characters of `s` from `from` up to the next `;` or the end.
pub open spec fn piece_length(s: Seq<char>, from: int) -> nat
    decreases s.len() - from,
{
    if 0 <= from < s.len() && s[from] != ';' {
        1 + piece_length(s, from + 1)
    } else {
        0
    }
}

/// The pieces of `s` from `from` on that `;` separates: one more than there are separators,
/// empty ones included.
pub open spec fn pieces_from(s: Seq<char>, from: int) -> Seq<Seq<char>>
    decreases crate::lexer::remaining(s, from),
{
    let end = from + piece_length(s, from);
    if 0 <= from && end < s.len() {
        seq![s.subrange(from, end)] + pieces_from(s, end + 1)
    } else {
        seq![s.subrange(from, end)]
    }
}

/// The number of blank characters at the start of `s`.
pub open spec fn leading_blanks(s: Seq<char>) -> nat
    decreases s.len(),
{
    if s.len() > 0 && is_blank(s.first()) {
        1 + leading_blanks(s.drop_first())
    } else {
        0
    }
}

/// The number of blank characters at the end of `s`.
pub open spec fn trailing_blanks(s: Seq<char>) -> nat
    decreases s.len(),
{
    if s.len() > 0 && is_blank(s.last()) {
        1 + trailing_blanks(s.drop_last())
    } else {
        0
    }
}

/// `s` without the blank characters at its start and at its end.
pub open spec fn trimmed(s: Seq<char>) -> Seq<char> {
    let rest = s.skip(leading_blanks(s) as int);
    rest.take(rest.len() - trailing_blanks(rest))
}

/// The statements among `pieces`: each piece trimmed, and those left out of which nothing
/// remains.
pub open spec fn statements_among(pieces: Seq<Seq<char>>) -> Seq<Seq<char>>
    decreases pieces.len(),
{
    if pieces.len() == 0 {
        Seq::empty()
    } else if trimmed(pieces.last()).len() == 0 {
        statements_among(pieces.drop_last())
    } else {
        statements_among(pieces.drop_last()).push(trimmed(pieces.last()))
    }
}

/// The statements of a text, in order: what stands between the `;` of the text, trimmed,
/// without the empty ones.
pub open spec fn statements(s: Seq<char>) -> Seq<Seq<char>> {
    statements_among(pieces_from(s, 0))
}

/// The texts that a sequence of strings holds.
pub open spec fn texts(strings: Seq<String>) -> Seq<Seq<char>> {
    strings.map_values(|text: String| text@)
}

/// Whether `c` is blank.
fn is_blank_char(c: char) -> (r: bool)
    ensures
        r == is_blank(c),
{
    ('\u{9}' <= c && c <= '\u{d}') || c == ' ' || c == '\u{85}' || c == '\u{a0}' || c
        == '\u{1680}' || ('\u{2000}' <= c && c <= '\u{200a}') || c == '\u{2028}' || c
        == '\u{2029}' || c == '\u{202f}' || c == '\u{205f}' || c == '\u{3000}'
}

/// The position of the first `;` at or after `from`, or the length of `chars` if there is
/// none.
fn piece_end(chars: &Vec<char>, from: usize) -> (end: usize)
    requires
        from <= chars.len(),
    ensures
        from <= end <= chars.len(),
        end == from + piece_length(chars@, from as int),
{
    let mut end = from;
    while end < chars.len() && chars[end] != ';'
        invariant
            from <= end <= chars.len(),
            from + piece_length(chars@, from as int) == end + piece_length(chars@, end as int),
        decreases chars.len() - end,
    {
        end = end + 1;
    }
    end
}

/// The bounds of what trimming leaves of the characters from `from` to `to`.
fn trim_bounds(chars: &Vec<char>, from: usize, to: usize) -> (r: (usize, usize))
    requires
        from <= to <= chars.len(),
    ensures
        from <= r.0 <= r.1 <= to,
        chars@.subrange(r.0 as int, r.1 as int) == trimmed(chars@.subrange(from as int, to as int)),
{
    let ghost piece = chars@.subrange(from as int, to as int);
    let mut first = from;
    while first < to && is_blank_char(chars[first])
        invariant
            from <= first <= to <= chars.len(),
            leading_blanks(chars@.subrange(from as int, to as int)) == (first - from)
                + leading_blanks(chars@.subrange(first as int, to as int)),
        decreases to - first,
    {
        proof {
            assert(chars@.subrange(first as int, to as int).drop_first() =~= chars@.subrange(
                first + 1,
                to as int,
            ));
        }
        first = first + 1;
    }
    let ghost rest = chars@.subrange(first as int, to as int);
    proof {
        assert(piece.skip(first - from) =~= rest);
    }
    let mut last = to;
    while last > first && is_blank_char(chars[last - 1])
        invariant
            first <= last <= to <= chars.len(),
            trailing_blanks(chars@.subrange(first as int, to as int)) == (to - last)
                + trailing_blanks(chars@.subrange(first as int, last as int)),
        decreases last - first,
    {
        proof {
            assert(chars@.subrange(first as int, last as int).drop_last() =~= chars@.subrange(
                first as int,
                last - 1,
            ));
        }
        last = last - 1;
    }
    proof {
        assert(rest.take(rest.len() - trailing_blanks(rest)) =~= chars@.subrange(
            first as int,
            last as int,
        ));
    }
    (first, last)
}

/// The characters from `from` to `to` as a string.
fn text_between(chars: &Vec<char>, from: usize, to: usize) -> (text: String)
    requires
        from <= to <= chars.len(),
    ensures
        text@ == chars@.subrange(from as int, to as int),
{
    let mut text = String::new();
    let mut at = from;
    proof {
        assert(text@ =~= chars@.subrange(from as int, at as int));
    }
    while at < to
        invariant
            from <= at <= to <= chars.len(),
            text@ == chars@.subrange(from as int, at as int),
        decreases to - at,
    {
        text.push(chars[at]);
        proof {
            assert(text@ =~= chars@.subrange(from as int, at + 1));
        }
        at = at + 1;
    }
    text
}

/// Splits a text at each `;` into its statements, trimmed, and leaves out the empty ones.
pub fn split_statements(source: &str) -> (list: Vec<String>)
    ensures
        texts(list@) == statements(source@),
{
    let chars = chars_of(source);
    let mut list: Vec<String> = Vec::new();
    let mut start: usize = 0;
    let ghost mut done: Seq<Seq<char>> = Seq::empty();
    proof {
        assert(done + pieces_from(chars@, 0) =~= pieces_from(chars@, 0));
        assert(texts(list@) =~= statements_among(done));
    }
    loop
        invariant_except_break
            pieces_from(chars@, 0) == done + pieces_from(chars@, start as int),
            texts(list@) == statements_among(done),
        invariant
            start <= chars.len(),
            chars@ == source@,
        ensures
            texts(list@) == statements(source@),
        decreases chars.len() - start,
    {
        let end = piece_end(&chars, start);
        let (first, last) = trim_bounds(&chars, start, end);
        let ghost piece = chars@.subrange(start as int, end as int);
        let ghost before = texts(list@);
        proof {
            assert(done.push(piece).drop_last() =~= done);
            assert(done.push(piece).last() == piece);
        }
        if first < last {
            let text = text_between(&chars, first, last);
            list.push(text);
            proof {
                assert(texts(list@) =~= before.push(trimmed(piece)));
            }
        }
        proof {
            assert(texts(list@) == statements_among(done.push(piece)));
            if end < chars.len() {
                assert(done + (seq![piece] + pieces_from(chars@, end + 1)) =~= done.push(piece)
                    + pieces_from(chars@, end + 1));
            } else {
                assert(done + seq![piece] =~= done.push(piece));
            }
            done = done.push(piece);
        }
        if end >= chars.len() {
            break ;
        }
        start = end + 1;
    }
    list
}

/// A statement of a program and what running it gave.
#[derive(Debug)]
pub struct StatementOutcome {
    pub statement: String,
    pub outcome: Result<Evaluation, ParseError>,
}

/// A [`StatementOutcome`] over mathematical trees and texts.
pub struct StatementOutcomeView {
    pub statement: Seq<char>,
    pub outcome: Result<EvaluationView, ParseError>,
}

impl View for StatementOutcome {
    type V = StatementOutcomeView;

    open spec fn view(&self) -> StatementOutcomeView {
        StatementOutcomeView { statement: self.statement@, outcome: ran_view(self.outcome) }
    }
}

/// The views of a sequence of outcomes.
pub open spec fn outcome_views(outcomes: Seq<StatementOutcome>) -> Seq<StatementOutcomeView> {
    outcomes.map_values(|outcome: StatementOutcome| outcome@)
}

/// What running a sequence of statements gives, and the environment after the last.
pub struct RanAll {
    pub outcomes: Seq<StatementOutcomeView>,
    pub env: Map<Seq<char>, i64>,
}

/// The meaning of a sequence of statements: each runs in the environment that those before
/// it left behind, whether they failed or not.
pub open spec fn run_all(list: Seq<Seq<char>>, env: Map<Seq<char>, i64>) -> RanAll
    decreases list.len(),
{
    if list.len() == 0 {
        RanAll { outcomes: Seq::empty(), env }
    } else {
        let before = run_all(list.drop_last(), env);
        let last = run(list.last(), before.env);
        RanAll {
            outcomes: before.outcomes.push(
                StatementOutcomeView { statement: list.last(), outcome: last.outcome },
            ),
            env: last.env,
        }
    }
}

/// Runs the statements of `source`, which `;` separates, in order in `env`, and returns what
/// each gave. A statement that fails does not keep those after it from running.
pub fn evaluate_multiple(source: &str, env: &mut Environment) -> (outcomes: Vec<StatementOutcome>)
    ensures
        outcome_views(outcomes@) == run_all(statements(source@), old(env)@).outcomes,
        final(env)@ == run_all(statements(source@), old(env)@).env,
{
    let list = split_statements(source);
    let mut outcomes: Vec<StatementOutcome> = Vec::new();
    let mut at: usize = 0;
    proof {
        assert(texts(list@).take(0) =~= Seq::<Seq<char>>::empty());
        assert(outcome_views(outcomes@) =~= Seq::<StatementOutcomeView>::empty());
    }
    while at < list.len()
        invariant
            at <= list.len(),
            outcome_views(outcomes@) == run_all(texts(list@).take(at as int), old(env)@).outcomes,
            env@ == run_all(texts(list@).take(at as int), old(env)@).env,
        decreases list.len() - at,
    {
        let ghost before = outcome_views(outcomes@);
        let outcome = evaluate(list[at].as_str(), env);
        let report = StatementOutcome { statement: list[at].clone(), outcome };
        let ghost view = report@;
        outcomes.push(report);
        proof {
            let read = texts(list@).take(at + 1);
            assert(read.drop_last() =~= texts(list@).take(at as int));
            assert(read.last() == list[at as int]@);
            assert(outcome_views(outcomes@) =~= before.push(view));
        }
        at = at + 1;
    }
    proof {
        assert(texts(list@).take(at as int) =~= texts(list@));
    }
    outcomes
}

} // verus!

use crate::ast::{BinaryOp, Expr, ExprView, LiteralValue};
use crate::lexer::{lex, token_views, tokenize, LexError, Token, TokenView};
use vstd::prelude::*;
use vstd::std_specs::cmp::PartialEqSpec;

verus! {

/// Why a text is not an expression.
#[derive(Debug, Clone, Copy, PartialEq, Eq, Structural)]
pub enum ParseError {
    /// The text is not a sequence of tokens.
    Lexical(LexError),
    /// An operand was expected where the input ends or another token stands.
    UnexpectedToken,
    /// A parenthesized expression is not followed by `)`.
    ExpectedClosingParen,
    /// The left side of `=` is not a variable.
    InvalidAssignmentTarget,
    /// Tokens follow the expression.
    TrailingInput,
}

impl ParseError {
    /// The text of the diagnostic.
    pub open spec fn message_text(self) -> Seq<char> {
        match self {
            ParseError::Lexical(e) => e.message_text(),
            ParseError::UnexpectedToken => "Unexpected token"@,
            ParseError::ExpectedClosingParen => "Expected closing parenthesis"@,
            ParseError::InvalidAssignmentTarget => "Left side of assignment must be a variable"@,
            ParseError::TrailingInput => "Unexpected token after expression"@,
        }
    }

    /// A diagnostic for a reader.
    pub fn message(&self) -> (text: String)
        ensures
            text@ == self.message_text(),
    {
        match self {
            ParseError::Lexical(e) => e.message(),
            ParseError::UnexpectedToken => "Unexpected token".to_owned(),
            ParseError::ExpectedClosingParen => "Expected closing parenthesis".to_owned(),
            ParseError::InvalidAssignmentTarget => {
                "Left side of assignment must be a variable".to_owned()
            },
            ParseError::TrailingInput => "Unexpected token after expression".to_owned(),
        }
    }
}

/// What parsing from some position gives: the tree or the error, and the number of tokens
/// read on the way.
pub struct Parsed {
    pub result: Result<ExprView, ParseError>,
    pub consumed: nat,
}

/// The number of tokens of `ts` from `pos` on.
pub open spec fn tokens_left(ts: Seq<TokenView>, pos: int) -> nat {
    if pos < ts.len() {
        (ts.len() - pos) as nat
    } else {
        0
    }
}

/// Whether `token` stands at position `pos` of `ts`.
pub open spec fn token_at(ts: Seq<TokenView>, pos: int, token: TokenView) -> bool {
    0 <= pos < ts.len() && ts[pos] == token
}

/// `factor := Number | Identifier | '(' expression ')'`
pub open spec fn parse_factor(ts: Seq<TokenView>, pos: int) -> Parsed
    decreases tokens_left(ts, pos), 0nat,
{
    if pos < 0 || pos >= ts.len() {
        Parsed { result: Err(ParseError::UnexpectedToken), consumed: 0 }
    } else {
        match ts[pos] {
            TokenView::Number(n) => Parsed { result: Ok(ExprView::Literal(n)), consumed: 1 },
            TokenView::Identifier(name) => Parsed {
                result: Ok(ExprView::Variable(name)),
                consumed: 1,
            },
            TokenView::LParen => {
                let inner = parse_assignment(ts, pos + 1);
                if inner.result is Ok && !token_at(ts, pos + 1 + inner.consumed, TokenView::RParen) {
                    Parsed {
                        result: Err(ParseError::ExpectedClosingParen),
                        consumed: 1 + inner.consumed,
                    }
                } else if inner.result is Ok {
                    Parsed { result: inner.result, consumed: 2 + inner.consumed }
                } else {
                    Parsed { result: inner.result, consumed: 1 + inner.consumed }
                }
            },
            _ => Parsed { result: Err(ParseError::UnexpectedToken), consumed: 0 },
        }
    }
}

/// The operator that `token` is between two factors.
pub open spec fn multiplicative_op(token: TokenView) -> Option<BinaryOp> {
    match token {
        TokenView::Star => Some(BinaryOp::Multiply),
        TokenView::Slash => Some(BinaryOp::Divide),
        _ => None,
    }
}

/// The operator that `token` is between two products.
pub open spec fn additive_op(token: TokenView) -> Option<BinaryOp> {
    match token {
        TokenView::Plus => Some(BinaryOp::Add),
        TokenView::Minus => Some(BinaryOp::Subtract),
        _ => None,
    }
}

/// `( ('*'|'/') factor )*` after the operand `left`: each operator takes all that stands to
/// its left as its left operand.
pub open spec fn multiplicative_tail(ts: Seq<TokenView>, pos: int, left: ExprView) -> Parsed
    decreases tokens_left(ts, pos), 1nat,
{
    if 0 <= pos < ts.len() && multiplicative_op(ts[pos]) is Some {
        let right = parse_factor(ts, pos + 1);
        match right.result {
            Ok(operand) => {
                let node = ExprView::Binary {
                    left: Box::new(left),
                    op: multiplicative_op(ts[pos])->0,
                    right: Box::new(operand),
                };
                let rest = multiplicative_tail(ts, pos + 1 + right.consumed, node);
                Parsed { result: rest.result, consumed: 1 + right.consumed + rest.consumed }
            },
            Err(_) => Parsed { result: right.result, consumed: 1 + right.consumed },
        }
    } else {
        Parsed { result: Ok(left), consumed: 0 }
    }
}

/// `multiplicative := factor ( ('*'|'/') factor )*`
pub open spec fn parse_multiplicative(ts: Seq<TokenView>, pos: int) -> Parsed
    decreases tokens_left(ts, pos), 2nat,
{
    let first = parse_factor(ts, pos);
    match first.result {
        Ok(left) => {
            let rest = multiplicative_tail(ts, pos + first.consumed, left);
            Parsed { result: rest.result, consumed: first.consumed + rest.consumed }
        },
        Err(_) => first,
    }
}

/// `( ('+'|'-') multiplicative )*` after the operand `left`: each operator takes all that
/// stands to its left as its left operand.
pub open spec fn additive_tail(ts: Seq<TokenView>, pos: int, left: ExprView) -> Parsed
    decreases tokens_left(ts, pos), 3nat,
{
    if 0 <= pos < ts.len() && additive_op(ts[pos]) is Some {
        let right = parse_multiplicative(ts, pos + 1);
        match right.result {
            Ok(operand) => {
                let node = ExprView::Binary {
                    left: Box::new(left),
                    op: additive_op(ts[pos])->0,
                    right: Box::new(operand),
                };
                let rest = additive_tail(ts, pos + 1 + right.consumed, node);
                Parsed { result: rest.result, consumed: 1 + right.consumed + rest.consumed }
            },
            Err(_) => Parsed { result: right.result, consumed: 1 + right.consumed },
        }
    } else {
        Parsed { result: Ok(left), consumed: 0 }
    }
}

/// `additive := multiplicative ( ('+'|'-') multiplicative )*`
pub open spec fn parse_additive(ts: Seq<TokenView>, pos: int) -> Parsed
    decreases tokens_left(ts, pos), 4nat,
{
    let first = parse_multiplicative(ts, pos);
    match first.result {
        Ok(left) => {
            let rest = additive_tail(ts, pos + first.consumed, left);
            Parsed { result: rest.result, consumed: first.consumed + rest.consumed }
        },
        Err(_) => first,
    }
}

/// `assignment := additive ( '=' assignment )?`, where the left side of `=` must have been
/// read as a variable. The right side is an assignment again, so `a = b = 1` assigns
/// `b = 1` to `a`.
pub open spec fn parse_assignment(ts: Seq<TokenView>, pos: int) -> Parsed
    decreases tokens_left(ts, pos), 5nat,
{
    let left = parse_additive(ts, pos);
    if left.result is Ok && token_at(ts, pos + left.consumed, TokenView::Assign) {
        match left.result->Ok_0 {
            ExprView::Variable(name) => {
                let right = parse_assignment(ts, pos + left.consumed + 1);
                Parsed {
                    result: match right.result {
                        Ok(value) => Ok(ExprView::Assign { name, value: Box::new(value) }),
                        Err(e) => Err(e),
                    },
                    consumed: left.consumed + 1 + right.consumed,
                }
            },
            _ => Parsed {
                result: Err(ParseError::InvalidAssignmentTarget),
                consumed: left.consumed,
            },
        }
    } else {
        left
    }
}

/// `expression := assignment`, and nothing may follow it.
pub open spec fn parse_from(ts: Seq<TokenView>, pos: int) -> Parsed {
    let whole = parse_assignment(ts, pos);
    if whole.result is Ok && pos + whole.consumed != ts.len() {
        Parsed { result: Err(ParseError::TrailingInput), consumed: whole.consumed }
    } else {
        whole
    }
}

/// The expression that a sequence of tokens is, or the first error.
pub open spec fn parse_tokens(ts: Seq<TokenView>) -> Result<ExprView, ParseError> {
    parse_from(ts, 0).result
}

/// The expression that a text is, or the first error: a lexical error if the text is not a
/// sequence of tokens.
pub open spec fn parse_text(s: Seq<char>) -> Result<ExprView, ParseError> {
    match lex(s) {
        Ok(ts) => parse_tokens(ts),
        Err(e) => Err(ParseError::Lexical(e)),
    }
}

/// The outcome of parsing as contracts speak of it.
pub open spec fn parsed_view(r: Result<Expr, ParseError>) -> Result<ExprView, ParseError> {
    match r {
        Ok(e) => Ok(e@),
        Err(e) => Err(e),
    }
}

/// A cursor over the tokens of one text, from which an expression is read.
pub struct Parser {
    tokens: Vec<Token>,
    pos: usize,
    lexical: Option<LexError>,
}

impl Parser {
    #[verifier::type_invariant]
    spec fn well_formed(&self) -> bool {
        &&& self.pos <= self.tokens.len()
        &&& self.lexical is Some ==> self.tokens.len() == 0
    }

    /// What tokenizing the text gave: its tokens, or the lexical error.
    pub closed spec fn input(&self) -> Result<Seq<TokenView>, LexError> {
        match self.lexical {
            Some(e) => Err(e),
            None => Ok(token_views(self.tokens@)),
        }
    }

    /// The number of tokens read so far.
    pub closed spec fn position(&self) -> nat {
        self.pos as nat
    }

    /// The tokens as the grammar sees them.
    spec fn stream(&self) -> Seq<TokenView> {
        token_views(self.tokens@)
    }

    /// A parser at the start of `source`.
    pub fn new(source: &str) -> (parser: Parser)
        ensures
            parser.input() == lex(source@),
            parser.position() == 0,
    {
        match tokenize(source) {
            Ok(tokens) => Parser { tokens, pos: 0, lexical: None },
            Err(e) => Parser { tokens: Vec::new(), pos: 0, lexical: Some(e) },
        }
    }

    /// Reads the rest of the input as one expression.
    ///
    /// A text that is not a sequence of tokens gives its lexical error. Otherwise the result
    /// is what the grammar gives from the current position, and tokens left over after the
    /// expression are an error.
    pub fn parse_expression(&mut self) -> (r: Result<Expr, ParseError>)
        ensures
            final(self).input() == old(self).input(),
            match old(self).input() {
                Ok(ts) => {
                    &&& parsed_view(r) == parse_from(ts, old(self).position() as int).result
                    &&& final(self).position() == old(self).position() + parse_from(
                        ts,
                        old(self).position() as int,
                    ).consumed
                },
                Err(e) => {
                    &&& r == Err::<Expr, ParseError>(ParseError::Lexical(e))
                    &&& final(self).position() == old(self).position()
                },
            },
    {
        proof {
            use_type_invariant(&*self);
        }
        match self.lexical {
            Some(e) => Err(ParseError::Lexical(e)),
            None => {
                let expr = self.parse_assignment()?;
                proof {
                    use_type_invariant(&*self);
                }
                if self.pos < self.tokens.len() {
                    Err(ParseError::TrailingInput)
                } else {
                    Ok(expr)
                }
            },
        }
    }

    /// Reads an assignment, or an additive expression that no `=` follows.
    fn parse_assignment(&mut self) -> (r: Result<Expr, ParseError>)
        ensures
            final(self).tokens == old(self).tokens,
            final(self).lexical == old(self).lexical,
            parsed_view(r) == parse_assignment(old(self).stream(), old(self).pos as int).result,
            final(self).pos == old(self).pos + parse_assignment(
                old(self).stream(),
                old(self).pos as int,
            ).consumed,
        decreases old(self).tokens.len() - old(self).pos, 5nat,
    {
        let left = self.parse_additive()?;
        proof {
            use_type_invariant(&*self);
        }
        if self.pos < self.tokens.len() && self.at_assign() {
            match left {
                Expr::Variable(name) => {
                    self.consume_token();
                    let value = self.parse_assignment()?;
                    Ok(Expr::Assign { name, value: Box::new(value) })
                },
                _ => Err(ParseError::InvalidAssignmentTarget),
            }
        } else {
            Ok(left)
        }
    }

    /// Whether the current token is `=`.
    fn at_assign(&self) -> (r: bool)
        requires
            self.pos < self.tokens.len(),
        ensures
            r == (self.stream()[self.pos as int] == TokenView::Assign),
    {
        match &self.tokens[self.pos] {
            Token::Assign => true,
            _ => false,
        }
    }

    /// Whether the current token is `)`.
    fn at_closing_paren(&self) -> (r: bool)
        requires
            self.pos < self.tokens.len(),
        ensures
            r == (self.stream()[self.pos as int] == TokenView::RParen),
    {
        match &self.tokens[self.pos] {
            Token::RParen => true,
            _ => false,
        }
    }

    /// The additive operator that the current token is, if there is a token and it is one.
    fn additive_operator(&self) -> (r: Option<BinaryOp>)
        requires
            self.pos <= self.tokens.len(),
        ensures
            r == if self.pos < self.tokens.len() {
                additive_op(self.stream()[self.pos as int])
            } else {
                None
            },
    {
        if self.pos < self.tokens.len() {
            match &self.tokens[self.pos] {
                Token::Plus => Some(BinaryOp::Add),
                Token::Minus => Some(BinaryOp::Subtract),
                _ => None,
            }
        } else {
            None
        }
    }

    /// The multiplicative operator that the current token is, if there is a token and it is
    /// one.
    fn multiplicative_operator(&self) -> (r: Option<BinaryOp>)
        requires
            self.pos <= self.tokens.len(),
        ensures
            r == if self.pos < self.tokens.len() {
                multiplicative_op(self.stream()[self.pos as int])
            } else {
                None
            },
    {
        if self.pos < self.tokens.len() {
            match &self.tokens[self.pos] {
                Token::Star => Some(BinaryOp::Multiply),
                Token::Slash => Some(BinaryOp::Divide),
                _ => None,
            }
        } else {
            None
        }
    }

    /// Reads a chain of products joined by `+` and `-`.
    fn parse_additive(&mut self) -> (r: Result<Expr, ParseError>)
        ensures
            final(self).tokens == old(self).tokens,
            final(self).lexical == old(self).lexical,
            parsed_view(r) == parse_additive(old(self).stream(), old(self).pos as int).result,
            final(self).pos == old(self).pos + parse_additive(
                old(self).stream(),
                old(self).pos as int,
            ).consumed,
        decreases old(self).tokens.len() - old(self).pos, 4nat,
    {
        let ghost ts = self.stream();
        let ghost start = self.pos as int;
        let mut left = self.parse_multiplicative()?;
        let ghost first = parse_multiplicative(ts, start);
        proof {
            use_type_invariant(&*self);
        }
        loop
            invariant
                self.tokens == old(self).tokens,
                self.lexical == old(self).lexical,
                ts == old(self).stream(),
                start == old(self).pos,
                start + first.consumed <= self.pos <= self.tokens.len(),
                first == parse_multiplicative(ts, start),
                first.result is Ok,
                additive_tail(ts, start + first.consumed, first.result->Ok_0).result
                    == additive_tail(ts, self.pos as int, left@).result,
                start + first.consumed + additive_tail(
                    ts,
                    start + first.consumed,
                    first.result->Ok_0,
                ).consumed == self.pos + additive_tail(ts, self.pos as int, left@).consumed,
            decreases self.tokens.len() - self.pos,
        {
            proof {
                use_type_invariant(&*self);
            }
            match self.additive_operator() {
                Some(op) => {
                    self.consume_token();
                    let right = self.parse_multiplicative()?;
                    proof {
                        use_type_invariant(&*self);
                    }
                    left = Expr::Binary { left: Box::new(left), op, right: Box::new(right) };
                },
                None => {
                    return Ok(left);
                },
            }
        }
    }

    /// Reads a chain of factors joined by `*` and `/`.
    fn parse_multiplicative(&mut self) -> (r: Result<Expr, ParseError>)
        ensures
            final(self).tokens == old(self).tokens,
            final(self).lexical == old(self).lexical,
            parsed_view(r) == parse_multiplicative(old(self).stream(), old(self).pos as int).result,
            final(self).pos == old(self).pos + parse_multiplicative(
                old(self).stream(),
                old(self).pos as int,
            ).consumed,
        decreases old(self).tokens.len() - old(self).pos, 2nat,
    {
        let ghost ts = self.stream();
        let ghost start = self.pos as int;
        let mut left = self.parse_factor()?;
        let ghost first = parse_factor(ts, start);
        proof {
            use_type_invariant(&*self);
        }
        loop
            invariant
                self.tokens == old(self).tokens,
                self.lexical == old(self).lexical,
                ts == old(self).stream(),
                start == old(self).pos,
                start + first.consumed <= self.pos <= self.tokens.len(),
                first == parse_factor(ts, start),
                first.result is Ok,
                multiplicative_tail(ts, start + first.consumed, first.result->Ok_0).result
                    == multiplicative_tail(ts, self.pos as int, left@).result,
                start + first.consumed + multiplicative_tail(
                    ts,
                    start + first.consumed,
                    first.result->Ok_0,
                ).consumed == self.pos + multiplicative_tail(ts, self.pos as int, left@).consumed,
            decreases self.tokens.len() - self.pos,
        {
            proof {
                use_type_invariant(&*self);
            }
            match self.multiplicative_operator() {
                Some(op) => {
                    self.consume_token();
                    let right = self.parse_factor()?;
                    proof {
                        use_type_invariant(&*self);
                    }
                    left = Expr::Binary { left: Box::new(left), op, right: Box::new(right) };
                },
                None => {
                    return Ok(left);
                },
            }
        }
    }

    /// Reads a number, a variable or a parenthesized expression.
    fn parse_factor(&mut self) -> (r: Result<Expr, ParseError>)
        ensures
            final(self).tokens == old(self).tokens,
            final(self).lexical == old(self).lexical,
            parsed_view(r) == parse_factor(old(self).stream(), old(self).pos as int).result,
            final(self).pos == old(self).pos + parse_factor(
                old(self).stream(),
                old(self).pos as int,
            ).consumed,
        decreases old(self).tokens.len() - old(self).pos, 0nat,
    {
        proof {
            use_type_invariant(&*self);
        }
        if self.pos >= self.tokens.len() {
            return Err(ParseError::UnexpectedToken);
        }
        match &self.tokens[self.pos] {
            Token::Number(n) => {
                let expr = Expr::Literal(LiteralValue::Number(*n));
                self.consume_token();
                Ok(expr)
            },
            Token::Identifier(name) => {
                let expr = Expr::Variable(name.clone());
                self.consume_token();
                Ok(expr)
            },
            Token::LParen => {
                self.consume_token();
                let expr = self.parse_assignment()?;
                proof {
                    use_type_invariant(&*self);
                }
                if self.pos < self.tokens.len() && self.at_closing_paren() {
                    self.consume_token();
                    Ok(expr)
                } else {
                    Err(ParseError::ExpectedClosingParen)
                }
            },
            _ => Err(ParseError::UnexpectedToken),
        }
    }

    /// Moves past the current token.
    fn consume_token(&mut self)
        requires
            old(self).pos < old(self).tokens.len(),
        ensures
            final(self).tokens == old(self).tokens,
            final(self).lexical == old(self).lexical,
            final(self).pos == old(self).pos + 1,
    {
        proof {
            use_type_invariant(&*self);
        }
        self.pos = self.pos + 1;
    }
}

/// Parses `source` as one expression.
pub fn parse(source: &str) -> (r: Result<Expr, ParseError>)
    ensures
        parsed_view(r) == parse_text(source@),
{
    let mut parser = Parser::new(source);
    parser.parse_expression()
}

/// Parsing depends on the text alone: whatever two parses of one text return, both fail with
/// the same error or both give the same tree, which `==` on trees then confirms.
pub proof fn lemma_parse_twice_same_tree(
    source: Seq<char>,
    first: Result<Expr, ParseError>,
    second: Result<Expr, ParseError>,
)
    requires
        parsed_view(first) == parse_text(source),
        parsed_view(second) == parse_text(source),
    ensures
        parsed_view(first) == parsed_view(second),
        first is Err ==> second == first,
        first is Ok ==> second is Ok && first->Ok_0@ == second->Ok_0@ && first->Ok_0.eq_spec(
            &second->Ok_0,
        ),
{
}

/// Whether `parsed`, read from `pos`, stays within `ts` and, where it gives a tree, has read
/// at least one token for it.
pub open spec fn within_input(ts: Seq<TokenView>, pos: int, parsed: Parsed) -> bool {
    &&& pos + parsed.consumed <= ts.len()
    &&& parsed.result is Ok ==> parsed.consumed >= 1
}

proof fn lemma_factor_within_input(ts: Seq<TokenView>, pos: int)
    requires
        0 <= pos <= ts.len(),
    ensures
        within_input(ts, pos, parse_factor(ts, pos)),
    decreases tokens_left(ts, pos), 0nat,
{
    if pos < ts.len() && ts[pos] is LParen {
        lemma_assignment_within_input(ts, pos + 1);
    }
}

proof fn lemma_multiplicative_tail_within_input(ts: Seq<TokenView>, pos: int, left: ExprView)
    requires
        0 <= pos <= ts.len(),
    ensures
        pos + multiplicative_tail(ts, pos, left).consumed <= ts.len(),
    decreases tokens_left(ts, pos), 1nat,
{
    if pos < ts.len() && multiplicative_op(ts[pos]) is Some {
        lemma_factor_within_input(ts, pos + 1);
        let right = parse_factor(ts, pos + 1);
        if let Ok(operand) = right.result {
            let node = ExprView::Binary {
                left: Box::new(left),
                op: multiplicative_op(ts[pos])->0,
                right: Box::new(operand),
            };
            lemma_multiplicative_tail_within_input(ts, pos + 1 + right.consumed, node);
        }
    }
}

proof fn lemma_multiplicative_within_input(ts: Seq<TokenView>, pos: int)
    requires
        0 <= pos <= ts.len(),
    ensures
        within_input(ts, pos, parse_multiplicative(ts, pos)),
    decreases tokens_left(ts, pos), 2nat,
{
    lemma_factor_within_input(ts, pos);
    let first = parse_factor(ts, pos);
    if let Ok(left) = first.result {
        lemma_multiplicative_tail_within_input(ts, pos + first.consumed, left);
    }
}

proof fn lemma_additive_tail_within_input(ts: Seq<TokenView>, pos: int, left: ExprView)
    requires
        0 <= pos <= ts.len(),
    ensures
        pos + additive_tail(ts, pos, left).consumed <= ts.len(),
    decreases tokens_left(ts, pos), 3nat,
{
    if pos < ts.len() && additive_op(ts[pos]) is Some {
        lemma_multiplicative_within_input(ts, pos + 1);
        let right = parse_multiplicative(ts, pos + 1);
        if let Ok(operand) = right.result {
            let node = ExprView::Binary {
                left: Box::new(left),
                op: additive_op(ts[pos])->0,
                right: Box::new(operand),
            };
            lemma_additive_tail_within_input(ts, pos + 1 + right.consumed, node);
        }
    }
}

proof fn lemma_additive_within_input(ts: Seq<TokenView>, pos: int)
    requires
        0 <= pos <= ts.len(),
    ensures
        within_input(ts, pos, parse_additive(ts, pos)),
    decreases tokens_left(ts, pos), 4nat,
{
    lemma_multiplicative_within_input(ts, pos);
    let first = parse_multiplicative(ts, pos);
    if let Ok(left) = first.result {
        lemma_additive_tail_within_input(ts, pos + first.consumed, left);
    }
}

proof fn lemma_assignment_within_input(ts: Seq<TokenView>, pos: int)
    requires
        0 <= pos <= ts.len(),
    ensures
        within_input(ts, pos, parse_assignment(ts, pos)),
    decreases tokens_left(ts, pos), 5nat,
{
    lemma_additive_within_input(ts, pos);
    let left = parse_additive(ts, pos);
    if left.result is Ok && token_at(ts, pos + left.consumed, TokenView::Assign) {
        lemma_assignment_within_input(ts, pos + left.consumed + 1);
    }
}

/// Parsing never reads beyond the input, and no expression is made of no tokens: from any
/// position within `ts`, the tokens read end within `ts`, and a tree takes at least one.
pub proof fn lemma_parse_within_input(ts: Seq<TokenView>, pos: int)
    requires
        0 <= pos <= ts.len(),
    ensures
        within_input(ts, pos, parse_from(ts, pos)),
{
    lemma_assignment_within_input(ts, pos);
}

} // verus!

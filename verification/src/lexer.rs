use vstd::prelude::*;
use vstd::std_specs::iter::IteratorSpec;

verus! {

/// A lexical unit of the language.
#[derive(Debug)]
pub enum Token {
    Plus,
    Minus,
    Star,
    Slash,
    LParen,
    RParen,
    Assign,
    /// A run of decimal digits, read as a number.
    Number(i64),
    /// A name: a letter or `_`, then letters, digits and `_`.
    Identifier(String),
}

/// A [`Token`] with an identifier's name as a sequence of characters.
pub enum TokenView {
    Plus,
    Minus,
    Star,
    Slash,
    LParen,
    RParen,
    Assign,
    Number(i64),
    Identifier(Seq<char>),
}

impl View for Token {
    type V = TokenView;

    open spec fn view(&self) -> TokenView {
        match self {
            Token::Plus => TokenView::Plus,
            Token::Minus => TokenView::Minus,
            Token::Star => TokenView::Star,
            Token::Slash => TokenView::Slash,
            Token::LParen => TokenView::LParen,
            Token::RParen => TokenView::RParen,
            Token::Assign => TokenView::Assign,
            Token::Number(n) => TokenView::Number(*n),
            Token::Identifier(name) => TokenView::Identifier(name@),
        }
    }
}

impl Clone for Token {
    fn clone(&self) -> (r: Token)
        ensures
            r@ == self@,
    {
        match self {
            Token::Plus => Token::Plus,
            Token::Minus => Token::Minus,
            Token::Star => Token::Star,
            Token::Slash => Token::Slash,
            Token::LParen => Token::LParen,
            Token::RParen => Token::RParen,
            Token::Assign => Token::Assign,
            Token::Number(n) => Token::Number(*n),
            Token::Identifier(name) => Token::Identifier(name.clone()),
        }
    }
}

impl PartialEq for Token {
    /// Two tokens are equal when they are of the same kind and hold the same number or name.
    fn eq(&self, other: &Token) -> (r: bool) {
        match self {
            Token::Plus => matches!(other, Token::Plus),
            Token::Minus => matches!(other, Token::Minus),
            Token::Star => matches!(other, Token::Star),
            Token::Slash => matches!(other, Token::Slash),
            Token::LParen => matches!(other, Token::LParen),
            Token::RParen => matches!(other, Token::RParen),
            Token::Assign => matches!(other, Token::Assign),
            Token::Number(a) => match other {
                Token::Number(b) => *a == *b,
                _ => false,
            },
            Token::Identifier(a) => match other {
                Token::Identifier(b) => *a == *b,
                _ => false,
            },
        }
    }
}

impl vstd::std_specs::cmp::PartialEqSpecImpl for Token {
    open spec fn obeys_eq_spec() -> bool {
        true
    }

    open spec fn eq_spec(&self, other: &Token) -> bool {
        self@ == other@
    }
}

/// Why a text is not a sequence of tokens.
#[derive(Debug, Clone, Copy, PartialEq, Eq, Structural)]
pub enum LexError {
    /// A character that starts no token and is not whitespace.
    UnexpectedCharacter(char),
    /// A run of digits whose value does not fit a 64-bit signed integer.
    NumberTooLarge,
}

impl LexError {
    /// The text of the diagnostic.
    pub open spec fn message_text(self) -> Seq<char> {
        match self {
            LexError::UnexpectedCharacter(c) => "Unexpected character: "@.push(c),
            LexError::NumberTooLarge => "Number too large"@,
        }
    }

    /// A diagnostic for a reader.
    pub fn message(&self) -> (text: String)
        ensures
            text@ == self.message_text(),
    {
        match self {
            LexError::UnexpectedCharacter(c) => {
                let mut text = "Unexpected character: ".to_owned();
                text.push(*c);
                text
            },
            LexError::NumberTooLarge => "Number too large".to_owned(),
        }
    }
}

/// The views of a sequence of tokens.
pub open spec fn token_views(tokens: Seq<Token>) -> Seq<TokenView> {
    tokens.map_values(|t: Token| t@)
}

/// The decimal digits `0` to `9`.
pub open spec fn is_digit(c: char) -> bool {
    '0' <= c <= '9'
}

/// The letters `a` to `z` and `A` to `Z`.
pub open spec fn is_letter(c: char) -> bool {
    'a' <= c <= 'z' || 'A' <= c <= 'Z'
}

/// The characters that separate tokens: space, tab, line feed and form feed.
pub open spec fn is_space(c: char) -> bool {
    c == ' ' || c == '\t' || c == '\n' || c == '\x0c'
}

/// The characters with which an identifier may start.
pub open spec fn starts_identifier(c: char) -> bool {
    is_letter(c) || c == '_'
}

/// The characters of which an identifier may consist after its first.
pub open spec fn continues_identifier(c: char) -> bool {
    is_letter(c) || is_digit(c) || c == '_'
}

/// The token that a single character is, if it is one.
pub open spec fn symbol(c: char) -> Option<TokenView> {
    if c == '+' {
        Some(TokenView::Plus)
    } else if c == '-' {
        Some(TokenView::Minus)
    } else if c == '*' {
        Some(TokenView::Star)
    } else if c == '/' {
        Some(TokenView::Slash)
    } else if c == '(' {
        Some(TokenView::LParen)
    } else if c == ')' {
        Some(TokenView::RParen)
    } else if c == '=' {
        Some(TokenView::Assign)
    } else {
        None
    }
}

/// The number of digits that stand in `s` from `from` on, up to the first other character.
pub open spec fn digit_run(s: Seq<char>, from: int) -> nat
    decreases s.len() - from,
{
    if 0 <= from < s.len() && is_digit(s[from]) {
        1 + digit_run(s, from + 1)
    } else {
        0
    }
}

/// The number of letters, digits and `_` that stand in `s` from `from` on, up to the first
/// other character.
pub open spec fn name_run(s: Seq<char>, from: int) -> nat
    decreases s.len() - from,
{
    if 0 <= from < s.len() && continues_identifier(s[from]) {
        1 + name_run(s, from + 1)
    } else {
        0
    }
}

/// The number that a sequence of digits writes in base ten.
pub open spec fn decimal_value(digits: Seq<char>) -> nat
    decreases digits.len(),
{
    if digits.len() == 0 {
        0
    } else {
        (10 * decimal_value(digits.drop_last()) + (digits.last() as int - '0' as int)) as nat
    }
}

/// The number of characters of `s` from `from` on.
pub open spec fn remaining(s: Seq<char>, from: int) -> nat {
    if from < s.len() {
        (s.len() - from) as nat
    } else {
        0
    }
}

/// `tokens` in front of the tokens of `rest`, or the error of `rest`.
pub open spec fn tokens_then(
    tokens: Seq<TokenView>,
    rest: Result<Seq<TokenView>, LexError>,
) -> Result<Seq<TokenView>, LexError> {
    match rest {
        Ok(more) => Ok(tokens + more),
        Err(e) => Err(e),
    }
}

/// The tokens of `s` from position `from` on, or the first lexical error.
///
/// Whitespace separates tokens and gives none. A digit starts a number, which runs to the
/// first character that is no digit; a letter or `_` starts an identifier, which runs to the
/// first character that is no letter, digit or `_`. Each of `+ - * / ( ) =` is a token by
/// itself. Any other character is an error, and so is a number beyond the 64-bit range.
pub open spec fn lex_from(s: Seq<char>, from: int) -> Result<Seq<TokenView>, LexError>
    decreases remaining(s, from),
{
    if from < 0 || from >= s.len() {
        Ok(Seq::empty())
    } else if is_space(s[from]) {
        lex_from(s, from + 1)
    } else if is_digit(s[from]) {
        let end = from + 1 + digit_run(s, from + 1);
        let value = decimal_value(s.subrange(from, end));
        if value <= i64::MAX {
            tokens_then(seq![TokenView::Number(value as i64)], lex_from(s, end))
        } else {
            Err(LexError::NumberTooLarge)
        }
    } else if starts_identifier(s[from]) {
        let end = from + 1 + name_run(s, from + 1);
        tokens_then(seq![TokenView::Identifier(s.subrange(from, end))], lex_from(s, end))
    } else {
        match symbol(s[from]) {
            Some(token) => tokens_then(seq![token], lex_from(s, from + 1)),
            None => Err(LexError::UnexpectedCharacter(s[from])),
        }
    }
}

/// The tokens of a text, or its first lexical error.
pub open spec fn lex(s: Seq<char>) -> Result<Seq<TokenView>, LexError> {
    lex_from(s, 0)
}

/// The outcome of tokenizing as contracts speak of it.
pub open spec fn lexed_view(r: Result<Vec<Token>, LexError>) -> Result<Seq<TokenView>, LexError> {
    match r {
        Ok(tokens) => Ok(token_views(tokens@)),
        Err(e) => Err(e),
    }
}

/// The characters of `source`, in order.
pub fn chars_of(source: &str) -> (chars: Vec<char>)
    ensures
        chars@ == source@,
{
    let mut rest = source.chars();
    let mut chars: Vec<char> = Vec::new();
    loop
        invariant
            rest.obeys_prophetic_iter_laws(),
            rest.decrease() is Some,
            chars@ + rest.remaining() == source@,
        ensures
            chars@ == source@,
        decreases rest.decrease()->0,
    {
        match rest.next() {
            Some(c) => {
                chars.push(c);
            },
            None => {
                break ;
            },
        }
    }
    chars
}

/// What the standard library's `String::push` is taken to do, without proof: afterwards the
/// string is what it was before with `ch` at its end.
pub assume_specification[ String::push ](s: &mut String, ch: char)
    ensures
        final(s)@ == old(s)@.push(ch),
;

/// A longer run of digits writes a number that is no smaller.
proof fn lemma_decimal_value_grows(s: Seq<char>, from: int, mid: int, end: int)
    requires
        0 <= from <= mid <= end <= s.len(),
        forall|k: int| from <= k < end ==> is_digit(#[trigger] s[k]),
    ensures
        decimal_value(s.subrange(from, mid)) <= decimal_value(s.subrange(from, end)),
    decreases end - mid,
{
    if mid < end {
        lemma_decimal_value_grows(s, from, mid, end - 1);
        assert(s.subrange(from, end).drop_last() =~= s.subrange(from, end - 1));
        assert(s.subrange(from, end).last() == s[end - 1]);
    }
}

/// Reads the number that starts at `from`: its value and the position after its last digit,
/// or `None` if the value is beyond the 64-bit range.
fn read_number(chars: &Vec<char>, from: usize) -> (r: Option<(i64, usize)>)
    requires
        from < chars.len(),
        is_digit(chars[from as int]),
    ensures
        match r {
            Some((value, end)) => {
                &&& end <= chars.len()
                &&& end == from + 1 + digit_run(chars@, from + 1)
                &&& value == decimal_value(chars@.subrange(from as int, end as int))
            },
            None => decimal_value(
                chars@.subrange(from as int, from + 1 + digit_run(chars@, from + 1)),
            ) > i64::MAX,
        },
{
    let n = chars.len();
    let mut value: i64 = 0;
    let mut end: usize = from;
    proof {
        assert(chars@.subrange(from as int, from as int) =~= Seq::<char>::empty());
    }
    while end < n && '0' <= chars[end] && chars[end] <= '9'
        invariant
            n == chars.len(),
            from <= end <= n,
            from < n,
            is_digit(chars[from as int]),
            forall|k: int| from <= k < end ==> is_digit(#[trigger] chars[k]),
            end > from ==> from + 1 + digit_run(chars@, from + 1) == end + digit_run(
                chars@,
                end as int,
            ),
            0 <= value == decimal_value(chars@.subrange(from as int, end as int)),
        decreases n - end,
    {
        let digit: i64 = (chars[end] as i64) - 48;
        let ghost longer = chars@.subrange(from as int, end + 1);
        let ghost whole_end = from + 1 + digit_run(chars@, from + 1);
        proof {
            assert(longer.drop_last() =~= chars@.subrange(from as int, end as int));
            assert(longer.last() == chars[end as int]);
            assert(decimal_value(longer) == 10 * value + digit);
            if end > from {
                assert(whole_end == end + 1 + digit_run(chars@, end + 1));
            }
            lemma_digit_run_bound(chars@, end + 1);
            assert forall|k: int| from <= k < whole_end implies is_digit(#[trigger] chars[k]) by {
                if k > end {
                    lemma_digit_run_covers(chars@, end + 1, k);
                }
            }
            lemma_decimal_value_grows(chars@, from as int, end + 1, whole_end);
        }
        if value > (i64::MAX - digit) / 10 {
            return None;
        }
        value = value * 10 + digit;
        end = end + 1;
    }
    Some((value, end))
}

/// A run ends within the text.
proof fn lemma_digit_run_bound(s: Seq<char>, from: int)
    requires
        0 <= from <= s.len(),
    ensures
        from + digit_run(s, from) <= s.len(),
    decreases s.len() - from,
{
    if from < s.len() && is_digit(s[from]) {
        lemma_digit_run_bound(s, from + 1);
    }
}

/// Every character within a run of digits is a digit.
proof fn lemma_digit_run_covers(s: Seq<char>, from: int, k: int)
    requires
        0 <= from <= k < from + digit_run(s, from),
    ensures
        k < s.len(),
        is_digit(s[k]),
    decreases k - from,
{
    if from < k {
        lemma_digit_run_covers(s, from + 1, k);
    }
}

/// Reads the identifier that starts at `from`: its name and the position after its last
/// character.
fn read_name(chars: &Vec<char>, from: usize) -> (r: (String, usize))
    requires
        from < chars.len(),
        starts_identifier(chars[from as int]),
    ensures
        r.1 == from + 1 + name_run(chars@, from + 1),
        r.1 <= chars.len(),
        r.0@ == chars@.subrange(from as int, r.1 as int),
{
    let n = chars.len();
    let mut name = String::new();
    name.push(chars[from]);
    let mut end: usize = from + 1;
    proof {
        assert(name@ =~= chars@.subrange(from as int, end as int));
    }
    while end < n && is_name_char(chars[end])
        invariant
            n == chars.len(),
            from < end <= n,
            from + 1 + name_run(chars@, from + 1) == end + name_run(chars@, end as int),
            name@ == chars@.subrange(from as int, end as int),
        decreases n - end,
    {
        name.push(chars[end]);
        proof {
            assert(name@ =~= chars@.subrange(from as int, end + 1));
        }
        end = end + 1;
    }
    (name, end)
}

/// Whether `c` is a letter, a digit or `_`.
fn is_name_char(c: char) -> (r: bool)
    ensures
        r == continues_identifier(c),
{
    ('a' <= c && c <= 'z') || ('A' <= c && c <= 'Z') || ('0' <= c && c <= '9') || c == '_'
}

/// The token that the single character `c` is, if it is one.
fn symbol_token(c: char) -> (r: Option<Token>)
    ensures
        match r {
            Some(token) => symbol(c) == Some(token@),
            None => symbol(c) is None,
        },
{
    if c == '+' {
        Some(Token::Plus)
    } else if c == '-' {
        Some(Token::Minus)
    } else if c == '*' {
        Some(Token::Star)
    } else if c == '/' {
        Some(Token::Slash)
    } else if c == '(' {
        Some(Token::LParen)
    } else if c == ')' {
        Some(Token::RParen)
    } else if c == '=' {
        Some(Token::Assign)
    } else {
        None
    }
}

/// Splits a sequence of characters into tokens.
pub fn tokenize_chars(chars: &Vec<char>) -> (r: Result<Vec<Token>, LexError>)
    ensures
        lexed_view(r) == lex(chars@),
{
    let n = chars.len();
    let mut tokens: Vec<Token> = Vec::new();
    let mut at: usize = 0;
    proof {
        assert(token_views(tokens@) =~= Seq::<TokenView>::empty());
        assert(tokens_then(Seq::empty(), lex_from(chars@, 0)) == lex_from(chars@, 0)) by {
            match lex_from(chars@, 0) {
                Ok(more) => {
                    assert(Seq::<TokenView>::empty() + more =~= more);
                },
                Err(_) => {},
            }
        }
    }
    while at < n
        invariant
            n == chars.len(),
            at <= n,
            lex(chars@) == tokens_then(token_views(tokens@), lex_from(chars@, at as int)),
        decreases n - at,
    {
        let c = chars[at];
        let ghost before = token_views(tokens@);
        if c == ' ' || c == '\t' || c == '\n' || c == '\x0c' {
            at = at + 1;
        } else if '0' <= c && c <= '9' {
            match read_number(chars, at) {
                Some((value, end)) => {
                    tokens.push(Token::Number(value));
                    proof {
                        lemma_tokens_then_push(
                            before,
                            TokenView::Number(value),
                            lex_from(chars@, end as int),
                        );
                        assert(token_views(tokens@) =~= before.push(TokenView::Number(value)));
                    }
                    at = end;
                },
                None => {
                    return Err(LexError::NumberTooLarge);
                },
            }
        } else if ('a' <= c && c <= 'z') || ('A' <= c && c <= 'Z') || c == '_' {
            let (name, end) = read_name(chars, at);
            let ghost token = TokenView::Identifier(name@);
            tokens.push(Token::Identifier(name));
            proof {
                lemma_tokens_then_push(before, token, lex_from(chars@, end as int));
                assert(token_views(tokens@) =~= before.push(token));
            }
            at = end;
        } else {
            match symbol_token(c) {
                Some(token) => {
                    let ghost view = token@;
                    tokens.push(token);
                    proof {
                        lemma_tokens_then_push(before, view, lex_from(chars@, at + 1));
                        assert(token_views(tokens@) =~= before.push(view));
                    }
                    at = at + 1;
                },
                None => {
                    return Err(LexError::UnexpectedCharacter(c));
                },
            }
        }
    }
    proof {
        assert(token_views(tokens@) + Seq::<TokenView>::empty() =~= token_views(tokens@));
    }
    Ok(tokens)
}

/// Putting `token` in front of `rest` after `tokens` is putting `rest` after `tokens` with
/// `token` at their end.
proof fn lemma_tokens_then_push(
    tokens: Seq<TokenView>,
    token: TokenView,
    rest: Result<Seq<TokenView>, LexError>,
)
    ensures
        tokens_then(tokens, tokens_then(seq![token], rest)) == tokens_then(
            tokens.push(token),
            rest,
        ),
{
    match rest {
        Ok(more) => {
            assert(tokens + (seq![token] + more) =~= tokens.push(token) + more);
        },
        Err(_) => {},
    }
}

/// Splits a text into tokens.
pub fn tokenize(source: &str) -> (r: Result<Vec<Token>, LexError>)
    ensures
        lexed_view(r) == lex(source@),
{
    let chars = chars_of(source);
    tokenize_chars(&chars)
}

} // verus!

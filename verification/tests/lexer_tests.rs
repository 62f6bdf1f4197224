use exprlang::lexer::{tokenize, tokenize_chars, LexError, Token};

fn name(text: &str) -> Token {
    Token::Identifier(text.to_string())
}

#[test]
fn single_characters_are_tokens() {
    assert_eq!(
        tokenize("+-*/()="),
        Ok(vec![
            Token::Plus,
            Token::Minus,
            Token::Star,
            Token::Slash,
            Token::LParen,
            Token::RParen,
            Token::Assign,
        ])
    );
}

#[test]
fn empty_text_has_no_tokens() {
    assert_eq!(tokenize(""), Ok(vec![]));
    assert_eq!(tokenize(" \t\n\x0c "), Ok(vec![]));
}

#[test]
fn a_number_is_the_longest_run_of_digits() {
    assert_eq!(tokenize("123"), Ok(vec![Token::Number(123)]));
    assert_eq!(tokenize("12 3"), Ok(vec![Token::Number(12), Token::Number(3)]));
    assert_eq!(tokenize("007"), Ok(vec![Token::Number(7)]));
    assert_eq!(tokenize("12abc"), Ok(vec![Token::Number(12), name("abc")]));
}

#[test]
fn an_identifier_is_the_longest_run_of_name_characters() {
    assert_eq!(tokenize("foo_1"), Ok(vec![name("foo_1")]));
    assert_eq!(tokenize("_x9 y"), Ok(vec![name("_x9"), name("y")]));
    assert_eq!(tokenize("a+b"), Ok(vec![name("a"), Token::Plus, name("b")]));
    assert_eq!(tokenize("Zz"), Ok(vec![name("Zz")]));
}

#[test]
fn whitespace_separates_tokens() {
    assert_eq!(
        tokenize("x =\t10\n+\x0c2"),
        Ok(vec![name("x"), Token::Assign, Token::Number(10), Token::Plus, Token::Number(2)])
    );
}

#[test]
fn largest_number_is_accepted() {
    assert_eq!(tokenize("9223372036854775807"), Ok(vec![Token::Number(i64::MAX)]));
    assert_eq!(tokenize("0000000000000000000000009"), Ok(vec![Token::Number(9)]));
}

#[test]
fn number_beyond_the_range_is_an_error() {
    assert_eq!(tokenize("9223372036854775808"), Err(LexError::NumberTooLarge));
    assert_eq!(tokenize("1 + 99999999999999999999"), Err(LexError::NumberTooLarge));
    assert_eq!(LexError::NumberTooLarge.message(), "Number too large");
}

#[test]
fn unknown_character_is_an_error() {
    assert_eq!(tokenize("1 $ 2"), Err(LexError::UnexpectedCharacter('$')));
    assert_eq!(tokenize("x\r"), Err(LexError::UnexpectedCharacter('\r')));
    assert_eq!(tokenize("é"), Err(LexError::UnexpectedCharacter('é')));
    assert_eq!(tokenize("a;b"), Err(LexError::UnexpectedCharacter(';')));
    assert_eq!(LexError::UnexpectedCharacter('$').message(), "Unexpected character: $");
}

#[test]
fn first_lexical_error_wins() {
    assert_eq!(tokenize("# 99999999999999999999"), Err(LexError::UnexpectedCharacter('#')));
    assert_eq!(tokenize("99999999999999999999 #"), Err(LexError::NumberTooLarge));
}

#[test]
fn tokenizing_characters_agrees_with_tokenizing_text() {
    let text = "a1 = (b + 20) * 3";
    let chars: Vec<char> = text.chars().collect();
    assert_eq!(tokenize_chars(&chars), tokenize(text));
}

#[test]
fn tokens_compare_by_kind_and_content() {
    assert_eq!(Token::Number(1), Token::Number(1));
    assert_ne!(Token::Number(1), Token::Number(2));
    assert_ne!(name("a"), name("b"));
    assert_ne!(Token::Plus, Token::Minus);
    assert_eq!(name("a").clone(), name("a"));
}

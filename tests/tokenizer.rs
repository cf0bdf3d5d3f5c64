use chalk::tokenizer::{tokenize, Decimal, InvalidToken, Token, Tokenizable};

fn real_token(mantissa: u64, scale: u32) -> Token {
    Token::Real(Decimal { mantissa, scale })
}

#[test]
fn tokenization() {
    let tokens = "(1+1)".tokenize().expect("Tokenize statement");

    assert_eq!(
        tokens,
        [
            Token::OpenParen,
            Token::Integer(1),
            Token::Plus,
            Token::Integer(1),
            Token::CloseParen,
            Token::EOF
        ]
    )
}

#[test]
fn tokenize_real_numbers() {
    let tokens = "3.1415".tokenize().expect("Tokenize statement");

    assert_eq!(tokens, [real_token(31415, 4), Token::EOF])
}

#[test]
fn tokenize_double_eq() {
    let tokens = "==".tokenize().expect("Tokenize statement");

    assert_eq!(tokens, [Token::Eq, Token::EOF])
}

#[test]
fn tokenize_not_eq() {
    let tokens = "!=".tokenize().expect("Tokenize statement");

    assert_eq!(tokens, [Token::NEq, Token::EOF])
}

#[test]
fn tokenize_with_whitespace() {
    let tokens = " 1024              /           1.23 "
        .tokenize()
        .expect("Tokenize statement");

    assert_eq!(tokens, [Token::Integer(1024), Token::Divide, real_token(123, 2), Token::EOF])
}

#[test]
fn tokenize_identifier() {
    let tokens = "hello".tokenize().expect("Tokenize statement");

    assert_eq!(tokens, [Token::Ident("hello".to_string()), Token::EOF])
}

#[test]
fn practical_identifiers() {
    let tokens = "gcd(1, 2)".tokenize().expect("Tokenize statement");

    let expected = [
        Token::Ident("gcd".to_string()),
        Token::OpenParen,
        Token::Integer(1),
        Token::Comma,
        Token::Integer(2),
        Token::CloseParen,
        Token::EOF,
    ];

    assert_eq!(tokens, expected)
}

#[test]
fn more_identifiers() {
    let tokens = "hello these are many identifiers and 1 2 3 numbers"
        .tokenize()
        .expect("Tokenize statement");

    let expected = [
        Token::Ident("hello".to_string()),
        Token::Ident("these".to_string()),
        Token::Ident("are".to_string()),
        Token::Ident("many".to_string()),
        Token::Ident("identifiers".to_string()),
        Token::Ident("and".to_string()),
        Token::Integer(1),
        Token::Integer(2),
        Token::Integer(3),
        Token::Ident("numbers".to_string()),
        Token::EOF,
    ];

    assert_eq!(tokens, expected)
}

#[test]
fn tokenize_larger_numbers() {
    let tokens = "1024".tokenize().expect("Tokenize statement");

    assert_eq!(tokens, [Token::Integer(1024), Token::EOF])
}

#[test]
fn tokenize_lte() {
    let tokens = "1<=2".tokenize().expect("Tokenize statement");

    assert_eq!(tokens, [Token::Integer(1), Token::Lte, Token::Integer(2), Token::EOF])
}

#[test]
fn tokenize_gte() {
    let tokens = "1>=2".tokenize().expect("Tokenize statement");

    assert_eq!(tokens, [Token::Integer(1), Token::Gte, Token::Integer(2), Token::EOF])
}

#[test]
fn tokenize_lt() {
    let tokens = "1<2".tokenize().expect("Tokenize statement");

    assert_eq!(tokens, [Token::Integer(1), Token::Lt, Token::Integer(2), Token::EOF])
}

#[test]
fn tokenize_gt() {
    let tokens = "1>2".tokenize().expect("Tokenize statement");

    assert_eq!(tokens, [Token::Integer(1), Token::Gt, Token::Integer(2), Token::EOF])
}

#[test]
fn invalid_tokenization() {
    let tokens = "1.2.3".tokenize();

    assert!(tokens.is_err())
}

#[test]
fn variables() {
    let tokens = "x".tokenize().expect("Tokenize");

    assert_eq!(tokens, [Token::Variable('x'), Token::EOF])
}

#[test]
fn go_crazy() {
    let tokens = "((360 * 9.2) / 0.25) - (5 + 5.0)"
        .tokenize()
        .expect("Tokenize valid statement");

    assert_eq!(
        tokens,
        [
            Token::OpenParen,
            Token::OpenParen,
            Token::Integer(360),
            Token::Multiply,
            real_token(92, 1),
            Token::CloseParen,
            Token::Divide,
            real_token(25, 2),
            Token::CloseParen,
            Token::Minus,
            Token::OpenParen,
            Token::Integer(5),
            Token::Plus,
            real_token(50, 1),
            Token::CloseParen,
            Token::EOF
        ]
    )
}

#[test]
fn empty_input_is_end_of_input() {
    assert_eq!(tokenize("").unwrap(), [Token::EOF]);
    assert_eq!(tokenize("   \t ").unwrap(), [Token::EOF]);
}

#[test]
fn two_character_operators_and_singles() {
    let tokens = tokenize("a&&b||c|d!e=f").unwrap();
    assert_eq!(
        tokens,
        [
            Token::Variable('a'),
            Token::And,
            Token::Variable('b'),
            Token::Or,
            Token::Variable('c'),
            Token::Bar,
            Token::Variable('d'),
            Token::Exclamation,
            Token::Variable('e'),
            Token::Assign,
            Token::Variable('f'),
            Token::EOF
        ]
    );
    assert_eq!(tokenize("2^3, 4\u{f7}2").unwrap()[1], Token::Caret);
    assert_eq!(tokenize("4\u{f7}2").unwrap()[1], Token::Divide);
}

#[test]
fn lone_ampersand_and_unknown_characters_fail() {
    assert_eq!(tokenize("1 & 2"), Err(InvalidToken));
    assert_eq!(tokenize("1 # 2"), Err(InvalidToken));
    assert_eq!(tokenize(".5"), Err(InvalidToken));
}

#[test]
fn booleans_and_words() {
    assert_eq!(
        tokenize("true false truth").unwrap(),
        [Token::Bool(true), Token::Bool(false), Token::Ident("truth".to_string()), Token::EOF]
    );
}

#[test]
fn number_edges() {
    assert_eq!(tokenize("5.").unwrap(), [real_token(5, 0), Token::EOF]);
    assert_eq!(tokenize("0.001").unwrap(), [real_token(1, 3), Token::EOF]);
    assert_eq!(tokenize("2147483647").unwrap(), [Token::Integer(i32::MAX), Token::EOF]);
    assert_eq!(tokenize("2147483648"), Err(InvalidToken));
    assert_eq!(tokenize("12x").unwrap(), [Token::Integer(12), Token::Variable('x'), Token::EOF]);
}

#[test]
fn invalid_token_message() {
    assert_eq!(InvalidToken.to_string(), "Token was invalid :(");
}

#[test]
fn unicode_letters_and_whitespace() {
    assert_eq!(tokenize("\u{e9}").unwrap(), [Token::Variable('\u{e9}'), Token::EOF]);
    assert_eq!(
        tokenize("\u{3c0}\u{3c1}").unwrap(),
        [Token::Ident("\u{3c0}\u{3c1}".to_string()), Token::EOF]
    );
    assert_eq!(
        tokenize("1\u{2003}2\u{a0}").unwrap(),
        [Token::Integer(1), Token::Integer(2), Token::EOF]
    );
    assert_eq!(tokenize("1\u{263a}"), Err(InvalidToken));
}

#[test]
fn tokenize_owned_string() {
    let text = String::from("x+1");
    assert_eq!(
        text.tokenize().unwrap(),
        [Token::Variable('x'), Token::Plus, Token::Integer(1), Token::EOF]
    );
}

use tinysh::lexing::lexer::Lexer;
use tinysh::lexing::token::{FloatLiteral, Token, TokenType};

fn float(whole: i64, fraction: &str) -> Token {
    Token::Float(FloatLiteral { whole, fraction: fraction.to_string() })
}

#[test]
fn to_token_type() {
    let expected = vec![
        TokenType::Int,
        TokenType::Float,
        TokenType::Identifier,
        TokenType::Bool,
        TokenType::Quote,
        TokenType::Whitespace,
        TokenType::And,
        TokenType::Or,
        TokenType::Pipe,
        TokenType::LeftRedirection,
        TokenType::RightRedirection,
        TokenType::LPar,
        TokenType::RPar,
        TokenType::Tilde,
        TokenType::Dash,
        TokenType::Null,
        TokenType::Null,
    ];

    let data = vec![
        Token::Int(1),
        float(0, "1"),
        Token::Identifier("test".to_string()),
        Token::Bool(false),
        Token::Quote,
        Token::Whitespace,
        Token::And,
        Token::Or,
        Token::Pipe,
        Token::LeftRedirection,
        Token::RightRedirection,
        Token::LPar,
        Token::RPar,
        Token::Tilde,
        Token::Dash,
        Token::Null,
        Token::PreAnd,
    ];

    data.into_iter().zip(expected.into_iter()).for_each(|(x, y)| assert_eq!(x.to_token_type(), y));
}

#[test]
fn test_display() {
    let expected = vec![
        "1".to_string(),
        "0.1".to_string(),
        "test".to_string(),
        "false".to_string(),
        "\"".to_string(),
        " ".to_string(),
        "&&".to_string(),
        "or".to_string(),
        "|".to_string(),
        ">".to_string(),
        "<".to_string(),
        "(".to_string(),
        ")".to_string(),
        "~".to_string(),
        "-".to_string(),
        "".to_string(),
        "".to_string(),
    ];

    let data = vec![
        Token::Int(1),
        float(0, "1"),
        Token::Identifier("test".to_string()),
        Token::Bool(false),
        Token::Quote,
        Token::Whitespace,
        Token::And,
        Token::Or,
        Token::Pipe,
        Token::LeftRedirection,
        Token::RightRedirection,
        Token::LPar,
        Token::RPar,
        Token::Tilde,
        Token::Dash,
        Token::Null,
        Token::PreAnd,
    ];

    data.into_iter().zip(expected).for_each(|(x, y)| assert_eq!(x.to_string(), y));
}

#[test]
fn integers_are_written_in_decimal() {
    assert_eq!(Token::Int(0).to_string(), "0");
    assert_eq!(Token::Int(7).to_string(), "7");
    assert_eq!(Token::Int(10).to_string(), "10");
    assert_eq!(Token::Int(-5).to_string(), "-5");
    assert_eq!(Token::Int(1234567890).to_string(), "1234567890");
    assert_eq!(Token::Int(i64::MAX).to_string(), "9223372036854775807");
    assert_eq!(Token::Int(i64::MIN).to_string(), "-9223372036854775808");
}

#[test]
fn a_float_is_written_as_it_was_read() {
    assert_eq!(float(1, "50").to_string(), "1.50");
    assert_eq!(float(-3, "0").to_string(), "-3.0");
    assert_eq!(float(0, "x").to_string(), "0.x");
    assert_eq!(FloatLiteral { whole: 12, fraction: "5".to_string() }.to_string(), "12.5");
}

#[test]
fn true_is_written_too() {
    assert_eq!(Token::Bool(true).to_string(), "true");
}

#[test]
fn a_clone_of_a_token_is_equal_to_it() {
    let data = vec![
        Token::Int(-1),
        float(2, "25"),
        Token::Identifier("name".to_string()),
        Token::Bool(true),
        Token::Quote,
        Token::Whitespace,
        Token::And,
        Token::Or,
        Token::PreAnd,
        Token::Pipe,
        Token::LeftRedirection,
        Token::RightRedirection,
        Token::LPar,
        Token::RPar,
        Token::Tilde,
        Token::Dash,
        Token::Null,
    ];
    for token in &data {
        assert_eq!(&token.clone(), token);
    }
}

#[test]
fn the_text_of_a_symbol_lexes_back_to_it() {
    let symbols = vec![
        Token::Quote,
        Token::And,
        Token::Or,
        Token::Pipe,
        Token::LeftRedirection,
        Token::RightRedirection,
        Token::LPar,
        Token::RPar,
        Token::Tilde,
        Token::Dash,
    ];
    for symbol in symbols {
        let again = Lexer { str: symbol.to_string() }.lex();
        assert_eq!(again, vec![symbol]);
    }
}

#[test]
fn the_text_of_a_quoted_space_lexes_to_nothing() {
    let again = Lexer { str: Token::Whitespace.to_string() }.lex();
    assert_eq!(again, vec![]);
}

#[test]
fn the_text_of_a_literal_lexes_back_to_it() {
    let literals = vec![
        Token::Int(42),
        float(4, "25"),
        Token::Identifier("name_1".to_string()),
        Token::Bool(true),
        Token::Bool(false),
    ];
    for literal in literals {
        let again = Lexer { str: literal.to_string() }.lex();
        assert_eq!(again, vec![literal]);
    }
}

use tinysh::lexing::cursor::CharCursor;
use tinysh::lexing::lexer::{is_an_allowed_character, Lexer};
use tinysh::lexing::token::{FloatLiteral, Token};

fn float(whole: i64, fraction: &str) -> Token {
    Token::Float(FloatLiteral { whole, fraction: fraction.to_string() })
}

fn value_of(literal: &FloatLiteral) -> f64 {
    literal.to_string().parse().unwrap_or(f64::NAN)
}

fn float_values(tokens: &[Token]) -> Vec<f64> {
    let mut values = Vec::new();
    for token in tokens {
        if let Token::Float(literal) = token {
            values.push(value_of(literal));
        }
    }
    values
}

fn lex(line: &str) -> Vec<Token> {
    Lexer { str: line.to_string() }.lex()
}

#[test]
pub fn test_allowed() {
    let expected = vec![
        'c', 'l', 'm', '&', '|', '>', '<', '-', '_', '0', '~', '(', ')', '.', ' ', '"', ' ',
    ];
    let value = vec![
        'c', 'l', 'm', '&', '|', '>', '<', '-', '_', '0', '~', '^', '(', ')', '%', '.', ' ', '$',
        '"', ' ',
    ];
    let mut final_value = Vec::new();
    value
        .into_iter()
        .filter(|x| is_an_allowed_character(x.clone()))
        .for_each(|f| final_value.push(f));
    assert_eq!(final_value, expected)
}

#[test]
pub fn test_lex_operators() {
    let expected = vec![
        Token::Pipe,
        Token::RPar,
        Token::LPar,
        Token::LeftRedirection,
        Token::RightRedirection,
        Token::Dash,
        Token::Tilde,
        Token::And,
        Token::Quote,
        Token::Whitespace,
        Token::Quote,
    ];
    let value = Lexer { str: "|)(><-~&&\" \" ".to_string() };
    assert_eq!(value.lex(), expected);
}

#[test]
pub fn test_lex_int() {
    let expected = vec![Token::Int(10), Token::And, Token::Int(11)];
    let value = Lexer { str: "10&&11".to_string() };
    assert_eq!(value.lex(), expected)
}

#[test]
pub fn test_lex_str() {
    let expected = vec![Token::Identifier("test".to_string())];
    let value = Lexer { str: "test".to_string() };
    assert_eq!(value.lex(), expected)
}

#[test]
pub fn test_bool() {
    let expected = vec![Token::Bool(true), Token::And, Token::Bool(false)];
    let value = Lexer { str: "true&&false".to_string() };
    assert_eq!(value.lex(), expected)
}

#[test]
pub fn test_or_and() {
    let expected = vec![Token::And, Token::Or];
    let value = Lexer { str: "and or".to_string() };
    assert_eq!(value.lex(), expected);
}

#[test]
pub fn remove_preand() {
    let expected: Vec<Token> = vec![];
    let value = Lexer { str: "&".to_string() };
    assert_eq!(value.lex(), expected);
}

#[test]
pub fn simple_float() {
    let value = Lexer { str: ".1".to_string() };
    let tokens = value.lex();
    assert_eq!(tokens, vec![float(0, "1")]);
    assert_eq!(float_values(&tokens), vec![0.1]);
}

#[test]
pub fn harder_float() {
    let value = Lexer { str: "1.1".to_string() };
    let tokens = value.lex();
    assert_eq!(tokens, vec![float(1, "1")]);
    assert_eq!(float_values(&tokens), vec![1.1]);
}

#[test]
pub fn float_in_expr() {
    let value = Lexer { str: "1.1 && 2.2".to_string() };
    let tokens = value.lex();
    assert_eq!(tokens, vec![float(1, "1"), Token::And, float(2, "2")]);
    assert_eq!(float_values(&tokens), vec![1.1, 2.2]);
}

#[test]
pub fn test_lex_string_error() {
    let expected = 0;
    let mut chars = CharCursor::new("ss");
    let first_char = chars.next().unwrap();
    let value = Lexer { str: "str".to_string() }.lex_int(&mut chars, first_char);
    assert_eq!(value, expected);
}

#[test]
pub fn test_lex_float_error_nan() {
    let mut chars = CharCursor::new("ss");
    let _first_char = chars.next().unwrap();
    let value = Lexer { str: "str".to_string() }.lex_float(0, &mut chars);
    assert_eq!(true, value_of(&value).is_nan());
}

#[test]
pub fn test_lex_float_error() {
    let expected = 0f64;
    let mut chars = CharCursor::new("s");
    let _ = chars.next();
    let value = Lexer { str: "str".to_string() }.lex_float(0, &mut chars);
    assert_eq!(value_of(&value), expected);
}

#[test]
pub fn blank_line_has_no_token() {
    assert_eq!(lex(""), vec![]);
    assert_eq!(lex("     "), vec![]);
    assert_eq!(lex(" ^ % $ \t # @ ! = + "), vec![]);
    assert_eq!(lex("\u{a0}\n"), vec![]);
}

#[test]
pub fn disallowed_characters_are_dropped_between_tokens() {
    assert_eq!(lex("a$b"), vec![Token::Identifier("a".to_string()), Token::Identifier("b".to_string())]);
    assert_eq!(lex("1=2"), vec![Token::Int(1), Token::Int(2)]);
}

#[test]
pub fn ampersands_join_in_pairs() {
    assert_eq!(lex("&&"), vec![Token::And]);
    assert_eq!(lex("&&&"), vec![Token::And]);
    assert_eq!(lex("&&&&"), vec![Token::And, Token::And]);
    assert_eq!(lex("&&&&&"), vec![Token::And, Token::And]);
}

#[test]
pub fn ampersands_join_over_dropped_characters() {
    assert_eq!(lex("& &"), vec![Token::And]);
    assert_eq!(lex("&$&"), vec![Token::And]);
}

#[test]
pub fn a_token_between_two_ampersands_keeps_them_apart() {
    assert_eq!(lex("&1&"), vec![Token::Int(1)]);
    assert_eq!(lex("&\" \"&"), vec![Token::Quote, Token::Whitespace, Token::Quote]);
}

#[test]
pub fn redirection_glyphs() {
    assert_eq!(lex(">"), vec![Token::LeftRedirection]);
    assert_eq!(lex("<"), vec![Token::RightRedirection]);
}

#[test]
pub fn spaces_count_only_inside_quotes() {
    assert_eq!(lex(" \" \" "), vec![Token::Quote, Token::Whitespace, Token::Quote]);
    assert_eq!(
        lex("\"a b\" c d"),
        vec![
            Token::Quote,
            Token::Identifier("a".to_string()),
            Token::Whitespace,
            Token::Identifier("b".to_string()),
            Token::Quote,
            Token::Identifier("c".to_string()),
            Token::Identifier("d".to_string()),
        ]
    );
    assert_eq!(
        lex("\"\" \" \""),
        vec![Token::Quote, Token::Quote, Token::Quote, Token::Whitespace, Token::Quote]
    );
}

#[test]
pub fn integers_are_read_in_decimal() {
    assert_eq!(lex("0"), vec![Token::Int(0)]);
    assert_eq!(lex("007"), vec![Token::Int(7)]);
    assert_eq!(lex("9223372036854775807"), vec![Token::Int(i64::MAX)]);
    assert_eq!(lex("12 34"), vec![Token::Int(12), Token::Int(34)]);
}

#[test]
pub fn malformed_integers_are_zero() {
    assert_eq!(lex("9223372036854775808"), vec![Token::Int(0)]);
    assert_eq!(lex("99999999999999999999999999"), vec![Token::Int(0)]);
    assert_eq!(lex("\u{b2}"), vec![Token::Int(0)]);
    assert_eq!(lex("\u{663}5"), vec![Token::Int(0)]);
}

#[test]
pub fn a_dash_is_a_token_of_its_own() {
    assert_eq!(lex("-5"), vec![Token::Dash, Token::Int(5)]);
}

#[test]
pub fn lex_int_reads_a_sign_it_is_given() {
    let lexer = Lexer { str: String::new() };
    let mut chars = CharCursor::new("12 ");
    assert_eq!(lexer.lex_int(&mut chars, '-'), -12);
    assert_eq!(chars.next(), Some(' '));
    let mut chars = CharCursor::new("9223372036854775808");
    assert_eq!(lexer.lex_int(&mut chars, '-'), i64::MIN);
    let mut chars = CharCursor::new("9223372036854775809");
    assert_eq!(lexer.lex_int(&mut chars, '-'), 0);
    let mut chars = CharCursor::new("7");
    assert_eq!(lexer.lex_int(&mut chars, '+'), 7);
    let mut chars = CharCursor::new("");
    assert_eq!(lexer.lex_int(&mut chars, '+'), 0);
}

#[test]
pub fn lex_raddix_stops_at_the_first_character_that_is_no_digit() {
    let lexer = Lexer { str: String::new() };
    let mut chars = CharCursor::new("23a4");
    assert_eq!(lexer.lex_raddix(&mut chars, Some('1')), "123");
    assert_eq!(chars.peek(), Some('a'));
    let lexer = Lexer { str: String::new() };
    let mut chars = CharCursor::new("\u{663}");
    assert_eq!(lexer.lex_raddix(&mut chars, Some('x')), "x");
    assert_eq!(chars.next(), Some('\u{663}'));
}

#[test]
pub fn lex_string_takes_letters_digits_and_underscores() {
    let lexer = Lexer { str: String::new() };
    let mut chars = CharCursor::new("b_1\u{e9}\u{663}-c");
    assert_eq!(lexer.lex_string(&mut chars, Some('a')), "ab_1\u{e9}\u{663}");
    assert_eq!(chars.next(), Some('-'));
    assert_eq!(chars.next(), Some('c'));
    assert_eq!(chars.next(), None);
    assert_eq!(chars.next(), None);
}

#[test]
pub fn floats_keep_their_text() {
    assert_eq!(lex("1.50"), vec![float(1, "50")]);
    assert_eq!(lex("0.001"), vec![float(0, "001")]);
    assert_eq!(lex("1."), vec![float(1, "0")]);
    assert_eq!(lex("."), vec![float(0, "0")]);
    assert_eq!(lex("1.2.3"), vec![float(1, "2"), float(0, "3")]);
    assert_eq!(float_values(&lex("1.50 0.001")), vec![1.5, 0.001]);
    assert_eq!(float_values(&lex("1.")), vec![1.0]);
    assert_eq!(float_values(&lex(".")), vec![0.0]);
    assert_eq!(lex("1. 2"), vec![float(1, " 2")]);
}

#[test]
pub fn the_character_after_the_point_is_taken_as_it_is() {
    assert_eq!(lex("1.a2b"), vec![float(1, "a2"), Token::Identifier("b".to_string())]);
    assert_eq!(lex("1.&&2"), vec![float(1, "&"), Token::Int(2)]);
    assert_eq!(lex("1.e5"), vec![float(1, "e5")]);
    let values = float_values(&lex("1.a2b 1.e5"));
    assert!(values[0].is_nan());
    assert_eq!(values[1], 100000.0);
}

#[test]
pub fn keywords_and_identifiers() {
    assert_eq!(lex("true"), vec![Token::Bool(true)]);
    assert_eq!(lex("false"), vec![Token::Bool(false)]);
    assert_eq!(lex("or"), vec![Token::Or]);
    assert_eq!(lex("and"), vec![Token::And]);
    assert_eq!(lex("True"), vec![Token::Identifier("True".to_string())]);
    assert_eq!(lex("order"), vec![Token::Identifier("order".to_string())]);
    assert_eq!(lex("a_b1"), vec![Token::Identifier("a_b1".to_string())]);
    assert_eq!(lex("\u{e9}t\u{e9}"), vec![Token::Identifier("\u{e9}t\u{e9}".to_string())]);
}

#[test]
pub fn an_underscore_begins_nothing() {
    assert_eq!(lex("_"), vec![]);
    assert_eq!(lex("_a"), vec![Token::Identifier("a".to_string())]);
}

#[test]
pub fn allowed_characters_beyond_ascii() {
    assert!(is_an_allowed_character('\u{e9}'));
    assert!(is_an_allowed_character('\u{663}'));
    assert!(is_an_allowed_character('\u{bd}'));
    assert!(!is_an_allowed_character('\u{a0}'));
    assert!(!is_an_allowed_character('\u{1f49d}'));
    assert!(!is_an_allowed_character('\t'));
    assert!(!is_an_allowed_character('='));
}

#[test]
pub fn no_marker_comes_out_of_the_lexer() {
    for line in ["&", "& a &", "a $ b", "&&&", "\" & \"", "1.&"] {
        for token in lex(line) {
            assert_ne!(token, Token::Null);
            assert_ne!(token, Token::PreAnd);
        }
    }
}

#[test]
pub fn a_clone_of_a_lexer_lexes_the_same() {
    let lexer = Lexer { str: "a && 1.5".to_string() };
    assert_eq!(lexer.clone().lex(), lexer.lex());
    assert!(lexer.clone() == lexer);
}

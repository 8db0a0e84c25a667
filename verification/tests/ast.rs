use tinysh::lexing::lexer::Lexer;
use tinysh::lexing::token::{FloatLiteral, Token};
use tinysh::parsing::ast::{token_to_parameter, Ast, Parameters};

fn float(whole: i64, fraction: &str) -> FloatLiteral {
    FloatLiteral { whole, fraction: fraction.to_string() }
}

fn node(value: Parameters, left: Ast, right: Ast) -> Ast {
    Ast::Node { value, left: Box::new(left), right: Box::new(right) }
}

#[test]
fn test_display_parameters() {
    let expected = "[5, 5.5, test, test2, false, |, >, <, =, &&, or, ls color, ]";
    let value = vec![
        Parameters::Int(5),
        Parameters::Float(float(5, "5")),
        Parameters::Identifier("test".to_string()),
        Parameters::Str("test2".to_string()),
        Parameters::Bool(false),
        Parameters::Pipe,
        Parameters::LeftRedirection,
        Parameters::RightRedirection,
        Parameters::Assign,
        Parameters::And,
        Parameters::Or,
        Parameters::Call("ls".to_string(), vec!["color".to_string()]),
        Parameters::Null,
    ];
    let mut final_vec = Vec::new();
    value.into_iter().map(|f| f.to_string()).for_each(|f| final_vec.push(f));
    let value_e = format!("[{}]", final_vec.join(", "));
    assert_eq!(format!("{value_e}"), expected);
}

#[test]
fn test_display_nil_ast() {
    let expected = "";
    let value = Ast::Nil.to_string();
    assert_eq!(value, expected);
}

#[test]
fn test_display_ast_leaf() {
    let expected = "5";
    let v = Ast::new(Parameters::Int(5));
    let value = v.to_string();
    assert_eq!(value, expected);
}

#[test]
fn test_token_to_parameter() {
    let expected = vec![
        Parameters::Identifier("t".to_string()),
        Parameters::Int(5),
        Parameters::Float(float(5, "5")),
        Parameters::Or,
        Parameters::And,
        Parameters::Pipe,
        Parameters::LeftRedirection,
        Parameters::RightRedirection,
        Parameters::Bool(false),
        Parameters::Null,
    ];
    let v = vec![
        Token::Identifier("t".to_string()),
        Token::Int(5),
        Token::Float(float(5, "5")),
        Token::Or,
        Token::And,
        Token::Pipe,
        Token::LeftRedirection,
        Token::RightRedirection,
        Token::Bool(false),
        Token::PreAnd,
    ];
    let mut value = Vec::new();
    v.into_iter().map(|f| token_to_parameter(f)).for_each(|v| value.push(v));
    assert_eq!(value, expected);
}

#[test]
fn tokens_without_a_value_give_the_null_value() {
    let tokens = vec![
        Token::Quote,
        Token::Whitespace,
        Token::LPar,
        Token::RPar,
        Token::Tilde,
        Token::Dash,
        Token::Null,
        Token::PreAnd,
    ];
    for token in tokens {
        assert_eq!(token_to_parameter(token), Parameters::Null);
    }
}

#[test]
fn a_new_tree_is_a_leaf() {
    assert_eq!(
        Ast::new(Parameters::Bool(true)),
        Ast::Node {
            value: Parameters::Bool(true),
            left: Box::new(Ast::Nil),
            right: Box::new(Ast::Nil)
        }
    );
}

#[test]
fn a_tree_is_written_left_value_right() {
    let one = Ast::new(Parameters::Int(1));
    let two = Ast::new(Parameters::Int(2));
    let three = Ast::new(Parameters::Int(3));
    let and = node(Parameters::And, one, two);
    assert_eq!(and.to_string(), "1 && 2");
    let pipe = node(Parameters::Pipe, and, three);
    assert_eq!(pipe.to_string(), "1 && 2 | 3");
}

#[test]
fn a_tree_is_trimmed_at_each_node() {
    let operand = Ast::new(Parameters::Bool(true));
    assert_eq!(node(Parameters::Or, operand, Ast::Nil).to_string(), "true or");
    let operand = Ast::new(Parameters::Bool(true));
    assert_eq!(node(Parameters::Or, Ast::Nil, operand).to_string(), "or true");
    assert_eq!(Ast::new(Parameters::Null).to_string(), "");
    assert_eq!(Ast::new(Parameters::Str("  a b \t".to_string())).to_string(), "a b");
    let inner = Ast::new(Parameters::Str(" x ".to_string()));
    assert_eq!(node(Parameters::Null, inner, Ast::Nil).to_string(), "x");
    assert_eq!(Ast::new(Parameters::Str("\u{a0}a\u{2003}".to_string())).to_string(), "a");
}

#[test]
fn a_call_is_written_with_its_arguments() {
    let call = Parameters::Call("ls".to_string(), vec!["-l".to_string(), "dir".to_string()]);
    assert_eq!(call.to_string(), "ls -l dir");
    let bare = Parameters::Call("ls".to_string(), vec![]);
    assert_eq!(bare.to_string(), "ls ");
    assert_eq!(Ast::new(bare).to_string(), "ls");
}

#[test]
fn values_are_written_as_text() {
    assert_eq!(Parameters::Int(-12).to_string(), "-12");
    assert_eq!(Parameters::Float(float(3, "140")).to_string(), "3.140");
    assert_eq!(Parameters::Bool(true).to_string(), "true");
    assert_eq!(Parameters::Str("a b".to_string()).to_string(), "a b");
}

#[test]
fn a_clone_of_a_tree_is_equal_to_it() {
    let call = Parameters::Call("ls".to_string(), vec!["a".to_string(), "b".to_string()]);
    let tree = node(
        Parameters::And,
        node(Parameters::Pipe, Ast::new(call), Ast::Nil),
        Ast::new(Parameters::Float(float(1, "5"))),
    );
    assert_eq!(tree.clone(), tree);
    assert_eq!(Ast::Nil.clone(), Ast::Nil);
}

#[test]
fn the_text_of_an_operator_value_lexes_back_to_it() {
    let values = vec![
        Parameters::Pipe,
        Parameters::LeftRedirection,
        Parameters::RightRedirection,
        Parameters::And,
        Parameters::Or,
    ];
    for value in values {
        let mut tokens = Lexer { str: value.to_string() }.lex();
        assert_eq!(tokens.len(), 1);
        assert_eq!(token_to_parameter(tokens.remove(0)), value);
    }
}

#[test]
fn the_text_of_an_assignment_does_not_lex() {
    assert_eq!(Lexer { str: Parameters::Assign.to_string() }.lex(), vec![]);
    assert_eq!(Lexer { str: Parameters::Null.to_string() }.lex(), vec![]);
}

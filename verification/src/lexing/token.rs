//! The lexical units of a line, their categories and their canonical text.

use crate::text::decimal::{i64_text, int_text};
use vstd::prelude::*;

verus! {

/// A numeral with a fractional part, kept as it was read: the integer before
/// the point, and the characters that were taken as the fraction after it.
#[derive(Debug, PartialEq, PartialOrd)]
pub struct FloatLiteral {
    pub whole: i64,
    pub fraction: String,
}

/// A float literal as a value: its integer part and the text of its fraction.
pub struct FloatLiteralView {
    pub whole: int,
    pub fraction: Seq<char>,
}

impl View for FloatLiteral {
    type V = FloatLiteralView;

    open spec fn view(&self) -> FloatLiteralView {
        FloatLiteralView { whole: self.whole as int, fraction: self.fraction@ }
    }
}

impl Clone for FloatLiteral {
    fn clone(&self) -> (copy: FloatLiteral)
        ensures
            copy@ == self@,
    {
        FloatLiteral { whole: self.whole, fraction: self.fraction.clone() }
    }
}

/// The text of a float literal: the integer part, a point, the fraction.
pub open spec fn float_text(f: FloatLiteralView) -> Seq<char> {
    int_text(f.whole) + seq!['.'] + f.fraction
}

impl FloatLiteral {
    /// The literal as text: the integer part, a point, the fraction.
    pub fn to_string(&self) -> (text: String)
        ensures
            text@ == float_text(self@),
    {
        let mut text = i64_text(self.whole);
        text.push('.');
        text.append(self.fraction.as_str());
        text
    }
}

/// A lexical unit of a line.
#[derive(Debug, PartialEq, PartialOrd)]
pub enum Token {
    Int(i64),
    Float(FloatLiteral),
    Identifier(String),
    Bool(bool),
    Quote,
    Whitespace,
    And,
    Or,
    /// A single `&`, waiting for a second one. No token sequence that the lexer
    /// hands out holds it.
    PreAnd,
    Pipe,
    LeftRedirection,
    RightRedirection,
    LPar,
    RPar,
    Tilde,
    Dash,
    /// Nothing: a character to ignore, the end of the input, an expectation
    /// that was not met.
    Null,
}

/// A token as a value: what it is and what it carries.
pub enum TokenView {
    Int(int),
    Float(FloatLiteralView),
    Identifier(Seq<char>),
    Bool(bool),
    Quote,
    Whitespace,
    And,
    Or,
    PreAnd,
    Pipe,
    LeftRedirection,
    RightRedirection,
    LPar,
    RPar,
    Tilde,
    Dash,
    Null,
}

/// The category of a token: which variant it is, without what it carries.
#[derive(Debug, PartialEq, Eq, PartialOrd, Clone, Copy, Structural)]
pub enum TokenType {
    Int,
    Float,
    Identifier,
    Bool,
    Quote,
    Whitespace,
    And,
    Or,
    Pipe,
    LeftRedirection,
    RightRedirection,
    LPar,
    RPar,
    Tilde,
    Dash,
    Null,
}

impl View for Token {
    type V = TokenView;

    open spec fn view(&self) -> TokenView {
        match self {
            Token::Int(i) => TokenView::Int(*i as int),
            Token::Float(f) => TokenView::Float(f@),
            Token::Identifier(s) => TokenView::Identifier(s@),
            Token::Bool(b) => TokenView::Bool(*b),
            Token::Quote => TokenView::Quote,
            Token::Whitespace => TokenView::Whitespace,
            Token::And => TokenView::And,
            Token::Or => TokenView::Or,
            Token::PreAnd => TokenView::PreAnd,
            Token::Pipe => TokenView::Pipe,
            Token::LeftRedirection => TokenView::LeftRedirection,
            Token::RightRedirection => TokenView::RightRedirection,
            Token::LPar => TokenView::LPar,
            Token::RPar => TokenView::RPar,
            Token::Tilde => TokenView::Tilde,
            Token::Dash => TokenView::Dash,
            Token::Null => TokenView::Null,
        }
    }
}

/// The views of a sequence of tokens, one for one.
pub open spec fn token_views(tokens: Seq<Token>) -> Seq<TokenView> {
    tokens.map_values(|t: Token| t@)
}

/// The category of a token. The half of an `&&` and the null token both fall
/// under the null category.
pub open spec fn category(t: TokenView) -> TokenType {
    match t {
        TokenView::Int(_) => TokenType::Int,
        TokenView::Float(_) => TokenType::Float,
        TokenView::Identifier(_) => TokenType::Identifier,
        TokenView::Bool(_) => TokenType::Bool,
        TokenView::Quote => TokenType::Quote,
        TokenView::Whitespace => TokenType::Whitespace,
        TokenView::And => TokenType::And,
        TokenView::Or => TokenType::Or,
        TokenView::Pipe => TokenType::Pipe,
        TokenView::LeftRedirection => TokenType::LeftRedirection,
        TokenView::RightRedirection => TokenType::RightRedirection,
        TokenView::LPar => TokenType::LPar,
        TokenView::RPar => TokenType::RPar,
        TokenView::Tilde => TokenType::Tilde,
        TokenView::Dash => TokenType::Dash,
        TokenView::PreAnd => TokenType::Null,
        TokenView::Null => TokenType::Null,
    }
}

/// The canonical text of a token: a literal as it is written, a symbol as its
/// glyph, and nothing for the half of an `&&` and for the null token.
pub open spec fn token_text(t: TokenView) -> Seq<char> {
    match t {
        TokenView::Int(i) => int_text(i),
        TokenView::Float(f) => float_text(f),
        TokenView::Identifier(s) => s,
        TokenView::Bool(b) => if b {
            "true"@
        } else {
            "false"@
        },
        TokenView::Quote => "\""@,
        TokenView::Whitespace => " "@,
        TokenView::And => "&&"@,
        TokenView::Or => "or"@,
        TokenView::Pipe => "|"@,
        TokenView::LeftRedirection => ">"@,
        TokenView::RightRedirection => "<"@,
        TokenView::LPar => "("@,
        TokenView::RPar => ")"@,
        TokenView::Tilde => "~"@,
        TokenView::Dash => "-"@,
        TokenView::PreAnd => Seq::empty(),
        TokenView::Null => Seq::empty(),
    }
}

impl Clone for Token {
    fn clone(&self) -> (copy: Token)
        ensures
            copy@ == self@,
    {
        match self {
            Token::Int(i) => Token::Int(*i),
            Token::Float(f) => Token::Float(f.clone()),
            Token::Identifier(s) => Token::Identifier(s.clone()),
            Token::Bool(b) => Token::Bool(*b),
            Token::Quote => Token::Quote,
            Token::Whitespace => Token::Whitespace,
            Token::And => Token::And,
            Token::Or => Token::Or,
            Token::PreAnd => Token::PreAnd,
            Token::Pipe => Token::Pipe,
            Token::LeftRedirection => Token::LeftRedirection,
            Token::RightRedirection => Token::RightRedirection,
            Token::LPar => Token::LPar,
            Token::RPar => Token::RPar,
            Token::Tilde => Token::Tilde,
            Token::Dash => Token::Dash,
            Token::Null => Token::Null,
        }
    }
}

impl Token {
    /// The category of the token.
    pub fn to_token_type(&self) -> (kind: TokenType)
        ensures
            kind == category(self@),
    {
        match self {
            Token::Int(_) => TokenType::Int,
            Token::Float(_) => TokenType::Float,
            Token::Identifier(_) => TokenType::Identifier,
            Token::Bool(_) => TokenType::Bool,
            Token::Quote => TokenType::Quote,
            Token::Whitespace => TokenType::Whitespace,
            Token::And => TokenType::And,
            Token::Or => TokenType::Or,
            Token::Pipe => TokenType::Pipe,
            Token::LeftRedirection => TokenType::LeftRedirection,
            Token::RightRedirection => TokenType::RightRedirection,
            Token::LPar => TokenType::LPar,
            Token::RPar => TokenType::RPar,
            Token::Tilde => TokenType::Tilde,
            Token::Dash => TokenType::Dash,
            _ => TokenType::Null,
        }
    }

    /// The canonical text of the token.
    pub fn to_string(&self) -> (text: String)
        ensures
            text@ == token_text(self@),
    {
        match self {
            Token::Int(i) => i64_text(*i),
            Token::Float(f) => f.to_string(),
            Token::Identifier(s) => s.clone(),
            Token::Bool(b) => if *b {
                "true".to_owned()
            } else {
                "false".to_owned()
            },
            Token::Quote => "\"".to_owned(),
            Token::Whitespace => " ".to_owned(),
            Token::And => "&&".to_owned(),
            Token::Or => "or".to_owned(),
            Token::Pipe => "|".to_owned(),
            Token::LeftRedirection => ">".to_owned(),
            Token::RightRedirection => "<".to_owned(),
            Token::LPar => "(".to_owned(),
            Token::RPar => ")".to_owned(),
            Token::Tilde => "~".to_owned(),
            Token::Dash => "-".to_owned(),
            _ => String::new(),
        }
    }
}

} // verus!

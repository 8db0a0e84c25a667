//! The expression tree, the values at its nodes and their canonical text.

use crate::lexing::token::{float_text, FloatLiteral, FloatLiteralView, Token, TokenView};
use crate::text::decimal::{i64_text, int_text};
use crate::text::strings::{join, joined, trim, trimmed};
use vstd::prelude::*;

verus! {

/// The value at a node of the tree.
#[derive(Debug, PartialEq)]
pub enum Parameters {
    Int(i64),
    Float(FloatLiteral),
    Identifier(String),
    Str(String),
    Bool(bool),
    Pipe,
    LeftRedirection,
    RightRedirection,
    Assign,
    And,
    Or,
    Null,
    /// A command with its arguments. The parser builds none.
    Call(String, Vec<String>),
}

/// The value at a node, as a value.
pub enum ParametersView {
    Int(int),
    Float(FloatLiteralView),
    Identifier(Seq<char>),
    Str(Seq<char>),
    Bool(bool),
    Pipe,
    LeftRedirection,
    RightRedirection,
    Assign,
    And,
    Or,
    Null,
    Call(Seq<char>, Seq<Seq<char>>),
}

/// The views of a sequence of strings, one for one.
pub open spec fn string_views(strings: Seq<String>) -> Seq<Seq<char>> {
    strings.map_values(|s: String| s@)
}

impl View for Parameters {
    type V = ParametersView;

    open spec fn view(&self) -> ParametersView {
        match self {
            Parameters::Int(i) => ParametersView::Int(*i as int),
            Parameters::Float(f) => ParametersView::Float(f@),
            Parameters::Identifier(s) => ParametersView::Identifier(s@),
            Parameters::Str(s) => ParametersView::Str(s@),
            Parameters::Bool(b) => ParametersView::Bool(*b),
            Parameters::Pipe => ParametersView::Pipe,
            Parameters::LeftRedirection => ParametersView::LeftRedirection,
            Parameters::RightRedirection => ParametersView::RightRedirection,
            Parameters::Assign => ParametersView::Assign,
            Parameters::And => ParametersView::And,
            Parameters::Or => ParametersView::Or,
            Parameters::Null => ParametersView::Null,
            Parameters::Call(name, arguments) => ParametersView::Call(
                name@,
                string_views(arguments@),
            ),
        }
    }
}

/// Either the empty tree, or a node with a value and two subtrees. A leaf has
/// two empty subtrees; a prefix operator has its operand on the left and the
/// empty tree on the right.
#[derive(Debug, PartialEq)]
pub enum Ast {
    Nil,
    Node { value: Parameters, left: Box<Ast>, right: Box<Ast> },
}

/// A tree as a value.
pub enum AstView {
    Nil,
    Node { value: ParametersView, left: Box<AstView>, right: Box<AstView> },
}

/// The tree with `value` at its root and the two subtrees below it.
pub open spec fn node(value: ParametersView, left: AstView, right: AstView) -> AstView {
    AstView::Node { value, left: Box::new(left), right: Box::new(right) }
}

/// The tree that is a single node.
pub open spec fn leaf(value: ParametersView) -> AstView {
    node(value, AstView::Nil, AstView::Nil)
}

impl Ast {
    /// The tree as a value, node by node.
    pub open spec fn as_view(self) -> AstView
        decreases self,
    {
        match self {
            Ast::Nil => AstView::Nil,
            Ast::Node { value, left, right } => node(value@, left.as_view(), right.as_view()),
        }
    }
}

impl View for Ast {
    type V = AstView;

    open spec fn view(&self) -> AstView {
        self.as_view()
    }
}

/// The value that a token puts at a node. A token that stands for no value
/// gives the null value.
pub open spec fn parameter_of(t: TokenView) -> ParametersView {
    match t {
        TokenView::Or => ParametersView::Or,
        TokenView::And => ParametersView::And,
        TokenView::Pipe => ParametersView::Pipe,
        TokenView::Int(i) => ParametersView::Int(i),
        TokenView::Float(f) => ParametersView::Float(f),
        TokenView::Identifier(s) => ParametersView::Identifier(s),
        TokenView::Bool(b) => ParametersView::Bool(b),
        TokenView::LeftRedirection => ParametersView::LeftRedirection,
        TokenView::RightRedirection => ParametersView::RightRedirection,
        _ => ParametersView::Null,
    }
}

/// The canonical text of a value.
pub open spec fn parameter_text(v: ParametersView) -> Seq<char> {
    match v {
        ParametersView::Int(i) => int_text(i),
        ParametersView::Float(f) => float_text(f),
        ParametersView::Identifier(s) => s,
        ParametersView::Str(s) => s,
        ParametersView::Bool(b) => if b {
            "true"@
        } else {
            "false"@
        },
        ParametersView::Pipe => "|"@,
        ParametersView::LeftRedirection => ">"@,
        ParametersView::RightRedirection => "<"@,
        ParametersView::Assign => "="@,
        ParametersView::And => "&&"@,
        ParametersView::Or => "or"@,
        ParametersView::Null => Seq::empty(),
        ParametersView::Call(name, arguments) => name + " "@ + joined(arguments, " "@),
    }
}

/// The canonical text of a tree: the left subtree, the value and the right
/// subtree with a space between them, trimmed at both ends. The empty tree
/// has the empty text.
pub open spec fn ast_text(tree: AstView) -> Seq<char>
    decreases tree,
{
    match tree {
        AstView::Nil => Seq::empty(),
        AstView::Node { value, left, right } => trimmed(
            ast_text(*left) + " "@ + parameter_text(value) + " "@ + ast_text(*right),
        ),
    }
}

fn clone_strings(strings: &Vec<String>) -> (copy: Vec<String>)
    ensures
        string_views(copy@) == string_views(strings@),
{
    let mut copy: Vec<String> = Vec::new();
    let mut i: usize = 0;
    while i < strings.len()
        invariant
            i <= strings.len(),
            string_views(copy@) == string_views(strings@.take(i as int)),
        decreases strings.len() - i,
    {
        let ghost shorter = string_views(copy@);
        copy.push(strings[i].clone());
        assert(string_views(copy@) == shorter.push(strings@[i as int]@));
        assert(string_views(strings@.take(i + 1)) == shorter.push(strings@[i as int]@));
        i = i + 1;
    }
    assert(strings@.take(strings.len() as int) == strings@);
    copy
}

impl Clone for Parameters {
    fn clone(&self) -> (copy: Parameters)
        ensures
            copy@ == self@,
    {
        match self {
            Parameters::Int(i) => Parameters::Int(*i),
            Parameters::Float(f) => Parameters::Float(f.clone()),
            Parameters::Identifier(s) => Parameters::Identifier(s.clone()),
            Parameters::Str(s) => Parameters::Str(s.clone()),
            Parameters::Bool(b) => Parameters::Bool(*b),
            Parameters::Pipe => Parameters::Pipe,
            Parameters::LeftRedirection => Parameters::LeftRedirection,
            Parameters::RightRedirection => Parameters::RightRedirection,
            Parameters::Assign => Parameters::Assign,
            Parameters::And => Parameters::And,
            Parameters::Or => Parameters::Or,
            Parameters::Null => Parameters::Null,
            Parameters::Call(name, arguments) => Parameters::Call(
                name.clone(),
                clone_strings(arguments),
            ),
        }
    }
}

impl Clone for Ast {
    fn clone(&self) -> (copy: Ast)
        ensures
            copy@ == self@,
        decreases self,
    {
        match self {
            Ast::Nil => Ast::Nil,
            Ast::Node { value, left, right } => Ast::Node {
                value: value.clone(),
                left: Box::new((**left).clone()),
                right: Box::new((**right).clone()),
            },
        }
    }
}

impl Parameters {
    /// The canonical text of the value.
    pub fn to_string(&self) -> (text: String)
        ensures
            text@ == parameter_text(self@),
    {
        match self {
            Parameters::Int(i) => i64_text(*i),
            Parameters::Float(f) => f.to_string(),
            Parameters::Identifier(s) => s.clone(),
            Parameters::Str(s) => s.clone(),
            Parameters::Bool(b) => if *b {
                "true".to_owned()
            } else {
                "false".to_owned()
            },
            Parameters::Pipe => "|".to_owned(),
            Parameters::LeftRedirection => ">".to_owned(),
            Parameters::RightRedirection => "<".to_owned(),
            Parameters::Assign => "=".to_owned(),
            Parameters::And => "&&".to_owned(),
            Parameters::Or => "or".to_owned(),
            Parameters::Null => String::new(),
            Parameters::Call(s, l) => {
                let mut text = s.clone();
                text.append(" ");
                text.append(join(l, " ").as_str());
                text
            },
        }
    }
}

/// The value that `token` puts at a node.
pub fn token_to_parameter(token: Token) -> (value: Parameters)
    ensures
        value@ == parameter_of(token@),
{
    match token {
        Token::Or => Parameters::Or,
        Token::And => Parameters::And,
        Token::Pipe => Parameters::Pipe,
        Token::Int(s) => Parameters::Int(s),
        Token::Float(s) => Parameters::Float(s),
        Token::Identifier(s) => Parameters::Identifier(s),
        Token::Bool(b) => Parameters::Bool(b),
        Token::LeftRedirection => Parameters::LeftRedirection,
        Token::RightRedirection => Parameters::RightRedirection,
        _ => Parameters::Null,
    }
}

impl Ast {
    /// The tree that is a single node with the value `p`.
    pub fn new(p: Parameters) -> (tree: Ast)
        ensures
            tree@ == leaf(p@),
    {
        proof {
            reveal_with_fuel(Ast::as_view, 2);
        }
        Ast::Node { value: p, left: Box::new(Ast::Nil), right: Box::new(Ast::Nil) }
    }

    /// The canonical text of the tree.
    pub fn to_string(&self) -> (text: String)
        ensures
            text@ == ast_text(self@),
        decreases self,
    {
        match self {
            Ast::Nil => String::new(),
            Ast::Node { value, left, right } => {
                let mut text = left.to_string();
                text.append(" ");
                text.append(value.to_string().as_str());
                text.append(" ");
                text.append(right.to_string().as_str());
                trim(text.as_str())
            },
        }
    }
}

} // verus!

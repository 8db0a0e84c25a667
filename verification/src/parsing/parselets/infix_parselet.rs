//! The strategies for a token that continues an expression.

use crate::lexing::token::{Token, TokenView};
use crate::parsing::ast::{token_to_parameter, Ast, AstView};
use crate::parsing::grammar::{
    infix_parsed, operator_infix_parsed, right_binding, strategy_precedence, Parsed,
};
use crate::parsing::parser::Parser;
use vstd::prelude::*;

verus! {

/// A strategy for a token that continues an expression.
pub trait InfixParselet {
    /// How tightly the strategy binds.
    spec fn precedence(&self) -> int;

    /// Whether the strategy can be used: the precedence at which it reads its
    /// right operand is not negative.
    spec fn usable(&self) -> bool;

    /// The tree that the strategy reads when `left` has been read, `token`
    /// taken and `rest` is what follows it, and the tokens that it leaves.
    spec fn parsed(&self, left: AstView, token: TokenView, rest: Seq<TokenView>) -> Parsed;

    /// Extends the tree `left` by what `token` continues it with, from the
    /// tokens of `parser`.
    fn parse(&self, parser: &mut Parser, left: &Ast, token: Token) -> (tree: Ast)
        requires
            self.usable(),
        ensures
            tree@ == self.parsed(left@, token@, old(parser).remaining()).tree,
            final(parser).remaining() == self.parsed(left@, token@, old(parser).remaining()).rest,
    ;

    /// How tightly the strategy binds.
    fn get_precedence(&self) -> (precedence: i64)
        ensures
            precedence == self.precedence(),
    ;
}

/// Leaves the tree as it is.
#[derive(Clone, Copy, Debug, PartialEq, Eq, Structural)]
pub struct NullParset {}

/// A binary operator with its precedence and the side to which it groups.
#[derive(Clone, Copy, Debug, PartialEq, Eq, Structural)]
pub struct OperatorInfixParselet {
    pub is_right: bool,
    pub precedence: i64,
}

/// One of the strategies for a token that continues an expression.
#[derive(Clone, Copy, Debug, PartialEq, Eq, Structural)]
pub enum InfixStrategy {
    Operator(OperatorInfixParselet),
    Null(NullParset),
}

impl InfixParselet for NullParset {
    open spec fn precedence(&self) -> int {
        0
    }

    open spec fn usable(&self) -> bool {
        true
    }

    open spec fn parsed(&self, left: AstView, token: TokenView, rest: Seq<TokenView>) -> Parsed {
        Parsed { tree: left, rest }
    }

    fn parse(&self, _parser: &mut Parser, left: &Ast, _token: Token) -> (tree: Ast) {
        left.clone()
    }

    fn get_precedence(&self) -> (precedence: i64) {
        0
    }
}

impl InfixParselet for OperatorInfixParselet {
    open spec fn precedence(&self) -> int {
        self.precedence as int
    }

    open spec fn usable(&self) -> bool {
        right_binding(*self) >= 0
    }

    open spec fn parsed(&self, left: AstView, token: TokenView, rest: Seq<TokenView>) -> Parsed {
        operator_infix_parsed(*self, left, token, rest)
    }

    fn parse(&self, parser: &mut Parser, left: &Ast, token: Token) -> (tree: Ast)
        decreases 4 * old(parser).remaining().len() + 3,
    {
        let right = parser.parse_expression(
            if self.is_right {
                self.get_precedence() - 1
            } else {
                self.get_precedence()
            },
        );
        let param = token_to_parameter(token);
        Ast::Node { value: param, left: Box::new(left.clone()), right: Box::new(right) }
    }

    fn get_precedence(&self) -> (precedence: i64) {
        self.precedence
    }
}

impl InfixParselet for InfixStrategy {
    open spec fn precedence(&self) -> int {
        strategy_precedence(*self)
    }

    open spec fn usable(&self) -> bool {
        match self {
            InfixStrategy::Operator(operator) => operator.usable(),
            InfixStrategy::Null(_) => true,
        }
    }

    open spec fn parsed(&self, left: AstView, token: TokenView, rest: Seq<TokenView>) -> Parsed {
        infix_parsed(*self, left, token, rest)
    }

    fn parse(&self, parser: &mut Parser, left: &Ast, token: Token) -> (tree: Ast)
        decreases
            if self is Operator {
                4 * old(parser).remaining().len() + 4
            } else {
                0
            },
    {
        match self {
            InfixStrategy::Operator(parselet) => parselet.parse(parser, left, token),
            InfixStrategy::Null(parselet) => parselet.parse(parser, left, token),
        }
    }

    fn get_precedence(&self) -> (precedence: i64) {
        match self {
            InfixStrategy::Operator(parselet) => parselet.get_precedence(),
            InfixStrategy::Null(parselet) => parselet.get_precedence(),
        }
    }
}

} // verus!

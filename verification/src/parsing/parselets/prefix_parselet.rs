//! The strategies for a token that begins an expression.

use crate::lexing::token::{Token, TokenType, TokenView};
use crate::parsing::ast::{token_to_parameter, Ast, Parameters};
use crate::parsing::grammar::{
    group_parsed, null_parsed, operator_prefix_parsed, prefix_parsed, quote_parsed, span_len,
    span_text, value_parsed, Parsed,
};
use crate::parsing::parser::Parser;
use crate::text::strings::trim;
use vstd::prelude::*;

verus! {

/// A strategy for a token that begins an expression.
pub trait PrefixParselet {
    /// The tree that the strategy reads when `token` has been taken and `rest`
    /// is what follows it, and the tokens that it leaves.
    spec fn parsed(&self, token: TokenView, rest: Seq<TokenView>) -> Parsed;

    /// Reads the tree that `token` begins from the tokens of `parser`.
    fn parse(&self, parser: &mut Parser, token: Token) -> (tree: Ast)
        ensures
            tree@ == self.parsed(token@, old(parser).remaining()).tree,
            final(parser).remaining() == self.parsed(token@, old(parser).remaining()).rest,
    ;
}

/// Gives the empty tree.
#[derive(Clone, Copy, Debug, PartialEq, Eq, Structural)]
pub struct NullParselet {}

/// Makes a leaf of a literal.
#[derive(Clone, Copy, Debug, PartialEq, Eq, Structural)]
pub struct ValueParselet {}

/// Takes the expression after an operator as its left subtree.
#[derive(Clone, Copy, Debug, PartialEq, Eq, Structural)]
pub struct OperatorPrefixParselet {}

/// Reads an expression in parentheses.
#[derive(Clone, Copy, Debug, PartialEq, Eq, Structural)]
pub struct GroupParselet {}

/// Reads a quoted span as one string.
#[derive(Clone, Copy, Debug, PartialEq, Eq, Structural)]
pub struct QuoteParselet {}

/// One of the strategies for a token that begins an expression.
#[derive(Clone, Copy, Debug, PartialEq, Eq, Structural)]
pub enum PrefixStrategy {
    Value(ValueParselet),
    Operator(OperatorPrefixParselet),
    Group(GroupParselet),
    Quote(QuoteParselet),
    Null(NullParselet),
}

impl PrefixStrategy {
    /// Whether the strategy reads an expression of its own.
    pub open spec fn descends(self) -> bool {
        self is Operator || self is Group
    }
}

impl PrefixParselet for ValueParselet {
    open spec fn parsed(&self, token: TokenView, rest: Seq<TokenView>) -> Parsed {
        value_parsed(token, rest)
    }

    fn parse(&self, _parser: &mut Parser, token: Token) -> (tree: Ast) {
        Ast::new(token_to_parameter(token))
    }
}

impl PrefixParselet for NullParselet {
    open spec fn parsed(&self, token: TokenView, rest: Seq<TokenView>) -> Parsed {
        null_parsed(rest)
    }

    fn parse(&self, _parser: &mut Parser, _token: Token) -> (tree: Ast) {
        Ast::Nil
    }
}

impl PrefixParselet for OperatorPrefixParselet {
    open spec fn parsed(&self, token: TokenView, rest: Seq<TokenView>) -> Parsed {
        operator_prefix_parsed(token, rest)
    }

    fn parse(&self, parser: &mut Parser, token: Token) -> (tree: Ast)
        decreases 4 * old(parser).remaining().len() + 3,
    {
        let operand = parser.parse_expression_empty();
        proof {
            reveal_with_fuel(Ast::as_view, 2);
        }
        Ast::Node {
            value: token_to_parameter(token),
            left: Box::new(operand),
            right: Box::new(Ast::Nil),
        }
    }
}

impl PrefixParselet for GroupParselet {
    open spec fn parsed(&self, token: TokenView, rest: Seq<TokenView>) -> Parsed {
        group_parsed(rest)
    }

    fn parse(&self, parser: &mut Parser, _token: Token) -> (tree: Ast)
        decreases 4 * old(parser).remaining().len() + 3,
    {
        let expression = parser.parse_expression_empty();
        parser.consume_expected(TokenType::RPar);
        expression
    }
}

impl PrefixParselet for QuoteParselet {
    open spec fn parsed(&self, token: TokenView, rest: Seq<TokenView>) -> Parsed {
        quote_parsed(rest)
    }

    fn parse(&self, parser: &mut Parser, _token: Token) -> (tree: Ast) {
        let mut str: String = String::new();
        let ghost rest = parser.remaining();
        let ghost mut taken: int = 0;
        let mut more = !parser.is_at_end() && !parser.match_token(TokenType::Quote);
        proof {
            assert(rest.skip(0) == rest);
            assert(rest.take(0) == Seq::<TokenView>::empty());
        }
        while more
            invariant
                0 <= taken <= rest.len(),
                parser.remaining() == rest.skip(taken),
                str@ == span_text(rest.take(taken)),
                span_len(rest) == taken + span_len(rest.skip(taken)),
                more == (taken < rest.len() && !(rest[taken] is Quote)),
            decreases rest.len() - taken,
        {
            let t = parser.consume();
            str.append(t.to_string().as_str());
            proof {
                assert(rest.skip(taken).skip(1) == rest.skip(taken + 1));
                assert(rest.take(taken + 1).drop_last() == rest.take(taken));
                taken = taken + 1;
            }
            more = !parser.is_at_end() && !parser.match_token(TokenType::Quote);
        }
        parser.consume_expected(TokenType::Quote);
        Ast::new(Parameters::Str(trim(str.as_str())))
    }
}

impl PrefixParselet for PrefixStrategy {
    open spec fn parsed(&self, token: TokenView, rest: Seq<TokenView>) -> Parsed {
        prefix_parsed(*self, token, rest)
    }

    fn parse(&self, parser: &mut Parser, token: Token) -> (tree: Ast)
        decreases
            if self.descends() {
                4 * old(parser).remaining().len() + 4
            } else {
                0
            },
    {
        match self {
            PrefixStrategy::Value(parselet) => parselet.parse(parser, token),
            PrefixStrategy::Operator(parselet) => parselet.parse(parser, token),
            PrefixStrategy::Group(parselet) => parselet.parse(parser, token),
            PrefixStrategy::Quote(parselet) => parselet.parse(parser, token),
            PrefixStrategy::Null(parselet) => parselet.parse(parser, token),
        }
    }
}

} // verus!

//! The grammar: which strategy each category of token selects, how tightly
//! each operator binds, and the tree that a sequence of tokens stands for.

use crate::lexing::token::{category, token_text, TokenType, TokenView};
use crate::parsing::ast::{leaf, node, parameter_of, AstView, ParametersView};
use crate::parsing::parselets::infix_parselet::{InfixStrategy, NullParset, OperatorInfixParselet};
use crate::parsing::parselets::prefix_parselet::{
    GroupParselet, NullParselet, OperatorPrefixParselet, PrefixStrategy, QuoteParselet,
    ValueParselet,
};
use crate::text::strings::trimmed;
use vstd::prelude::*;

verus! {

/// A tree, and the tokens that are left once it has been read.
pub struct Parsed {
    pub tree: AstView,
    pub rest: Seq<TokenView>,
}

/// The first of the tokens, or the null token where there is none.
pub open spec fn front(tokens: Seq<TokenView>) -> TokenView {
    if tokens.len() > 0 {
        tokens[0]
    } else {
        TokenView::Null
    }
}

/// The tokens without their first, or none where there is none.
pub open spec fn after_front(tokens: Seq<TokenView>) -> Seq<TokenView> {
    if tokens.len() > 0 {
        tokens.skip(1)
    } else {
        tokens
    }
}

/// The strategy for a token that begins an expression.
pub open spec fn prefix_strategy(kind: TokenType) -> PrefixStrategy {
    match kind {
        TokenType::Int | TokenType::Float | TokenType::Identifier | TokenType::Bool => {
            PrefixStrategy::Value(ValueParselet {  })
        },
        TokenType::Or
        | TokenType::And
        | TokenType::LeftRedirection
        | TokenType::RightRedirection
        | TokenType::Pipe => PrefixStrategy::Operator(OperatorPrefixParselet {  }),
        TokenType::LPar => PrefixStrategy::Group(GroupParselet {  }),
        TokenType::Quote => PrefixStrategy::Quote(QuoteParselet {  }),
        _ => PrefixStrategy::Null(NullParselet {  }),
    }
}

/// The strategy for a token that continues an expression. Every operator
/// groups to the left.
pub open spec fn infix_strategy(kind: TokenType) -> InfixStrategy {
    match kind {
        TokenType::Or | TokenType::And => InfixStrategy::Operator(
            OperatorInfixParselet { is_right: false, precedence: 10 },
        ),
        TokenType::LeftRedirection | TokenType::RightRedirection => InfixStrategy::Operator(
            OperatorInfixParselet { is_right: false, precedence: 9 },
        ),
        TokenType::Pipe => InfixStrategy::Operator(
            OperatorInfixParselet { is_right: false, precedence: 8 },
        ),
        _ => InfixStrategy::Null(NullParset {  }),
    }
}

/// How tightly a strategy binds. The strategy of a token that is no operator
/// binds with zero.
pub open spec fn strategy_precedence(strategy: InfixStrategy) -> int {
    match strategy {
        InfixStrategy::Operator(operator) => operator.precedence as int,
        InfixStrategy::Null(_) => 0,
    }
}

/// How tightly a category of token binds as an operator between two operands.
pub open spec fn infix_precedence(kind: TokenType) -> int {
    strategy_precedence(infix_strategy(kind))
}

/// The least precedence that an operator must exceed to extend the right
/// operand of `operator`: its own precedence where it groups to the left, one
/// less where it groups to the right.
pub open spec fn right_binding(operator: OperatorInfixParselet) -> int {
    if operator.is_right {
        operator.precedence - 1
    } else {
        operator.precedence as int
    }
}

/// The number of tokens before the first quote, or of all where there is none.
pub open spec fn span_len(tokens: Seq<TokenView>) -> nat
    decreases tokens.len(),
{
    if tokens.len() > 0 && !(tokens[0] is Quote) {
        1 + span_len(tokens.skip(1))
    } else {
        0
    }
}

/// The canonical texts of the tokens, one after the other.
pub open spec fn span_text(tokens: Seq<TokenView>) -> Seq<char>
    decreases tokens.len(),
{
    if tokens.len() == 0 {
        Seq::empty()
    } else {
        span_text(tokens.drop_last()) + token_text(tokens.last())
    }
}

/// A literal: a leaf with the value of the token.
pub open spec fn value_parsed(token: TokenView, rest: Seq<TokenView>) -> Parsed {
    Parsed { tree: leaf(parameter_of(token)), rest }
}

/// Nothing: the empty tree, and no token read.
pub open spec fn null_parsed(rest: Seq<TokenView>) -> Parsed {
    Parsed { tree: AstView::Nil, rest }
}

/// A quoted span, after its opening quote: a string leaf with the texts of the
/// tokens up to the next quote, trimmed. The closing quote is read too, where
/// there is one.
pub open spec fn quote_parsed(rest: Seq<TokenView>) -> Parsed {
    let n = span_len(rest) as int;
    Parsed {
        tree: leaf(ParametersView::Str(trimmed(span_text(rest.take(n))))),
        rest: after_front(rest.skip(n)),
    }
}

/// A prefix operator: the expression after it becomes its left subtree.
pub open spec fn operator_prefix_parsed(token: TokenView, rest: Seq<TokenView>) -> Parsed
    decreases rest.len(), 1nat,
{
    let operand = expression_parsed(rest, 0);
    Parsed { tree: node(parameter_of(token), operand.tree, AstView::Nil), rest: operand.rest }
}

/// A group, after its opening parenthesis: the expression inside, as it is.
/// The token after the expression is read as the closing parenthesis.
pub open spec fn group_parsed(rest: Seq<TokenView>) -> Parsed
    decreases rest.len(), 1nat,
{
    let inner = expression_parsed(rest, 0);
    Parsed { tree: inner.tree, rest: after_front(inner.rest) }
}

/// What a token that begins an expression makes of the tokens after it.
pub open spec fn prefix_parsed(
    strategy: PrefixStrategy,
    token: TokenView,
    rest: Seq<TokenView>,
) -> Parsed
    decreases rest.len(), 2nat,
{
    match strategy {
        PrefixStrategy::Value(_) => value_parsed(token, rest),
        PrefixStrategy::Operator(_) => operator_prefix_parsed(token, rest),
        PrefixStrategy::Group(_) => group_parsed(rest),
        PrefixStrategy::Quote(_) => quote_parsed(rest),
        PrefixStrategy::Null(_) => null_parsed(rest),
    }
}

/// A binary operator: the tree read so far becomes its left subtree, the
/// expression after it its right subtree.
pub open spec fn operator_infix_parsed(
    operator: OperatorInfixParselet,
    left: AstView,
    token: TokenView,
    rest: Seq<TokenView>,
) -> Parsed
    decreases rest.len(), 1nat,
{
    let right = expression_parsed(rest, right_binding(operator));
    Parsed { tree: node(parameter_of(token), left, right.tree), rest: right.rest }
}

/// What a token that continues an expression makes of the tree read so far and
/// of the tokens after it.
pub open spec fn infix_parsed(
    strategy: InfixStrategy,
    left: AstView,
    token: TokenView,
    rest: Seq<TokenView>,
) -> Parsed
    decreases rest.len(), 2nat,
{
    match strategy {
        InfixStrategy::Operator(operator) => operator_infix_parsed(operator, left, token, rest),
        InfixStrategy::Null(_) => Parsed { tree: left, rest },
    }
}

/// The tree `left` extended by the operators at the front of `tokens` that
/// bind more tightly than `min`.
///
/// The inner test on the length is there for the definition to be well
/// founded; it never fails (`lemma_infix_parsed_rest`).
pub open spec fn climb(left: AstView, tokens: Seq<TokenView>, min: int) -> Parsed
    decreases tokens.len(), 0nat,
{
    if tokens.len() > 0 && infix_precedence(category(tokens[0])) > min {
        let extended = infix_parsed(
            infix_strategy(category(tokens[0])),
            left,
            tokens[0],
            tokens.skip(1),
        );
        if extended.rest.len() < tokens.len() {
            climb(extended.tree, extended.rest, min)
        } else {
            extended
        }
    } else {
        Parsed { tree: left, rest: tokens }
    }
}

/// The expression at the front of `tokens`: what the first token begins,
/// extended by the operators after it that bind more tightly than `min`.
/// Without any token it is the empty tree.
///
/// The inner test on the length is there for the definition to be well
/// founded; it never fails (`lemma_prefix_parsed_rest`).
pub open spec fn expression_parsed(tokens: Seq<TokenView>, min: int) -> Parsed
    decreases tokens.len(), 0nat,
{
    if tokens.len() == 0 {
        null_parsed(tokens)
    } else {
        let begun = prefix_parsed(prefix_strategy(category(tokens[0])), tokens[0], tokens.skip(1));
        if begun.rest.len() < tokens.len() {
            climb(begun.tree, begun.rest, min)
        } else {
            begun
        }
    }
}

/// The tree that a line of tokens stands for.
pub open spec fn parsed_tree(tokens: Seq<TokenView>) -> AstView {
    expression_parsed(tokens, 0).tree
}

} // verus!

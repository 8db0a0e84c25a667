//! What holds of every sequence of tokens that is parsed.

use crate::lexing::laws::lemma_symbol_text_lexes_back;
use crate::lexing::lexer::lexed;
use crate::lexing::token::{category, TokenView};
use crate::parsing::ast::{leaf, node, parameter_of, parameter_text, AstView, ParametersView};
use crate::parsing::grammar::{
    after_front, climb, expression_parsed, front, infix_parsed, infix_precedence, infix_strategy,
    prefix_parsed, prefix_strategy, right_binding, span_len, Parsed,
};
use crate::parsing::parselets::infix_parselet::InfixStrategy;
use crate::parsing::parselets::prefix_parselet::PrefixStrategy;
use vstd::prelude::*;

verus! {

/// `rest` is what is left of `tokens` when some of its first tokens are taken.
pub open spec fn is_tail_of(rest: Seq<TokenView>, tokens: Seq<TokenView>) -> bool {
    rest.len() <= tokens.len() && rest == tokens.skip(tokens.len() - rest.len())
}

proof fn lemma_tail_of_tail(a: Seq<TokenView>, b: Seq<TokenView>, c: Seq<TokenView>)
    requires
        is_tail_of(a, b),
        is_tail_of(b, c),
    ensures
        is_tail_of(a, c),
{
    assert(c.skip(c.len() - b.len()).skip(b.len() - a.len()) == c.skip(c.len() - a.len()));
}

proof fn lemma_after_front_is_tail(tokens: Seq<TokenView>)
    ensures
        is_tail_of(after_front(tokens), tokens),
        is_tail_of(tokens, tokens),
{
    assert(tokens.skip(0) == tokens);
}

proof fn lemma_span_len_bound(tokens: Seq<TokenView>)
    ensures
        span_len(tokens) <= tokens.len(),
    decreases tokens.len(),
{
    if tokens.len() > 0 && !(tokens[0] is Quote) {
        lemma_span_len_bound(tokens.skip(1));
    }
}

/// An expression is read from the front of the tokens: what is left is a tail
/// of them, and a shorter one if there was any token.
pub proof fn lemma_expression_parsed_rest(tokens: Seq<TokenView>, min: int)
    ensures
        is_tail_of(expression_parsed(tokens, min).rest, tokens),
        tokens.len() > 0 ==> expression_parsed(tokens, min).rest.len() < tokens.len(),
    decreases tokens.len(), 0nat,
{
    lemma_after_front_is_tail(tokens);
    if tokens.len() > 0 {
        let begun = prefix_parsed(prefix_strategy(category(tokens[0])), tokens[0], tokens.skip(1));
        lemma_prefix_parsed_rest(prefix_strategy(category(tokens[0])), tokens[0], tokens.skip(1));
        lemma_climb_rest(begun.tree, begun.rest, min);
        lemma_tail_of_tail(climb(begun.tree, begun.rest, min).rest, begun.rest, tokens.skip(1));
        lemma_tail_of_tail(expression_parsed(tokens, min).rest, tokens.skip(1), tokens);
    }
}

/// What a token that begins an expression leaves is a tail of what followed
/// it.
pub proof fn lemma_prefix_parsed_rest(
    strategy: PrefixStrategy,
    token: TokenView,
    rest: Seq<TokenView>,
)
    ensures
        is_tail_of(prefix_parsed(strategy, token, rest).rest, rest),
    decreases rest.len(), 2nat,
{
    lemma_after_front_is_tail(rest);
    match strategy {
        PrefixStrategy::Value(_) => {},
        PrefixStrategy::Operator(_) => {
            lemma_expression_parsed_rest(rest, 0);
        },
        PrefixStrategy::Group(_) => {
            let inner = expression_parsed(rest, 0);
            lemma_expression_parsed_rest(rest, 0);
            lemma_after_front_is_tail(inner.rest);
            lemma_tail_of_tail(after_front(inner.rest), inner.rest, rest);
        },
        PrefixStrategy::Quote(_) => {
            lemma_span_len_bound(rest);
            let span = rest.skip(span_len(rest) as int);
            lemma_after_front_is_tail(span);
            assert(is_tail_of(span, rest));
            lemma_tail_of_tail(after_front(span), span, rest);
        },
        PrefixStrategy::Null(_) => {},
    }
}

/// What a token that continues an expression leaves is a tail of what
/// followed it.
pub proof fn lemma_infix_parsed_rest(
    strategy: InfixStrategy,
    left: AstView,
    token: TokenView,
    rest: Seq<TokenView>,
)
    ensures
        is_tail_of(infix_parsed(strategy, left, token, rest).rest, rest),
    decreases rest.len(), 2nat,
{
    lemma_after_front_is_tail(rest);
    match strategy {
        InfixStrategy::Operator(operator) => {
            lemma_expression_parsed_rest(rest, right_binding(operator));
        },
        InfixStrategy::Null(_) => {},
    }
}

/// What the operators at the front of the tokens leave is a tail of the
/// tokens.
pub proof fn lemma_climb_rest(left: AstView, tokens: Seq<TokenView>, min: int)
    ensures
        is_tail_of(climb(left, tokens, min).rest, tokens),
    decreases tokens.len(), 0nat,
{
    lemma_after_front_is_tail(tokens);
    if tokens.len() > 0 && infix_precedence(category(tokens[0])) > min {
        let strategy = infix_strategy(category(tokens[0]));
        let extended = infix_parsed(strategy, left, tokens[0], tokens.skip(1));
        lemma_infix_parsed_rest(strategy, left, tokens[0], tokens.skip(1));
        lemma_climb_rest(extended.tree, extended.rest, min);
        lemma_tail_of_tail(
            climb(extended.tree, extended.rest, min).rest,
            extended.rest,
            tokens.skip(1),
        );
        lemma_tail_of_tail(climb(left, tokens, min).rest, tokens.skip(1), tokens);
    }
}

/// A token that is no operator ends the expression: where one follows what
/// the first token began, or nothing does, the expression is what the first
/// token began, and no more.
pub proof fn lemma_unregistered_operator_ends_expression(tokens: Seq<TokenView>, min: int)
    requires
        tokens.len() > 0,
        min >= 0,
        infix_strategy(
            category(
                front(
                    prefix_parsed(
                        prefix_strategy(category(tokens[0])),
                        tokens[0],
                        tokens.skip(1),
                    ).rest,
                ),
            ),
        ) is Null,
    ensures
        expression_parsed(tokens, min) == prefix_parsed(
            prefix_strategy(category(tokens[0])),
            tokens[0],
            tokens.skip(1),
        ),
{
    lemma_prefix_parsed_rest(prefix_strategy(category(tokens[0])), tokens[0], tokens.skip(1));
}

/// The tokens that stand for a value of their own: the literals.
pub open spec fn is_literal(t: TokenView) -> bool {
    prefix_strategy(category(t)) is Value
}

/// The tokens that are operators between two operands.
pub open spec fn is_operator(t: TokenView) -> bool {
    infix_strategy(category(t)) is Operator
}

/// A literal alone, or before tokens of which the first binds no more tightly
/// than `min`, is a leaf, and the tokens after it are left.
proof fn lemma_literal_alone(a: TokenView, rest: Seq<TokenView>, min: int)
    requires
        is_literal(a),
        rest.len() == 0 || infix_precedence(category(rest[0])) <= min,
    ensures
        expression_parsed(seq![a] + rest, min) == (Parsed { tree: leaf(parameter_of(a)), rest }),
{
    let tokens = seq![a] + rest;
    assert(tokens[0] == a);
    assert(tokens.skip(1) == rest);
    assert(prefix_parsed(prefix_strategy(category(a)), a, rest) == (Parsed {
        tree: leaf(parameter_of(a)),
        rest,
    }));
    assert(climb(leaf(parameter_of(a)), rest, min) == (Parsed {
        tree: leaf(parameter_of(a)),
        rest,
    }));
}

/// An operator between two literals is the root, with the literals as its two
/// leaves.
pub proof fn lemma_operator_between_literals(a: TokenView, operator: TokenView, b: TokenView)
    requires
        is_literal(a),
        is_operator(operator),
        is_literal(b),
    ensures
        expression_parsed(seq![a, operator, b], 0) == (Parsed {
            tree: node(parameter_of(operator), leaf(parameter_of(a)), leaf(parameter_of(b))),
            rest: Seq::empty(),
        }),
{
    let tokens = seq![a, operator, b];
    let binding = infix_precedence(category(operator));
    let left = leaf(parameter_of(a));
    let right = leaf(parameter_of(b));
    let tree = node(parameter_of(operator), left, right);
    assert(tokens.skip(1) == seq![operator, b]);
    assert(tokens.skip(1).skip(1) == seq![b]);
    assert(seq![b] + Seq::<TokenView>::empty() == seq![b]);
    lemma_literal_alone(b, Seq::empty(), binding);
    assert(prefix_parsed(prefix_strategy(category(a)), a, tokens.skip(1)) == (Parsed {
        tree: left,
        rest: tokens.skip(1),
    }));
    assert(infix_parsed(infix_strategy(category(operator)), left, operator, seq![b]) == (Parsed {
        tree,
        rest: Seq::empty(),
    }));
    assert(climb(tree, Seq::empty(), 0) == (Parsed { tree, rest: Seq::empty() }));
    assert(climb(left, tokens.skip(1), 0) == (Parsed { tree, rest: Seq::empty() }));
}

/// Of two operators among three literals, the one that binds more tightly
/// takes the literal between them. Where the second binds no more tightly than
/// the first, the first takes it, and the second is the root; else the second
/// takes it, and the first is the root.
pub proof fn lemma_tighter_operator_takes_the_operand(
    a: TokenView,
    first: TokenView,
    b: TokenView,
    second: TokenView,
    c: TokenView,
)
    requires
        is_literal(a),
        is_operator(first),
        is_literal(b),
        is_operator(second),
        is_literal(c),
    ensures
        expression_parsed(seq![a, first, b, second, c], 0).tree == if infix_precedence(
            category(second),
        ) > infix_precedence(category(first)) {
            node(
                parameter_of(first),
                leaf(parameter_of(a)),
                node(parameter_of(second), leaf(parameter_of(b)), leaf(parameter_of(c))),
            )
        } else {
            node(
                parameter_of(second),
                node(parameter_of(first), leaf(parameter_of(a)), leaf(parameter_of(b))),
                leaf(parameter_of(c)),
            )
        },
{
    let tokens = seq![a, first, b, second, c];
    let high = infix_precedence(category(first));
    let low = infix_precedence(category(second));
    let leaf_a = leaf(parameter_of(a));
    let leaf_b = leaf(parameter_of(b));
    let leaf_c = leaf(parameter_of(c));
    let none = Seq::<TokenView>::empty();
    assert(tokens.skip(1) == seq![first, b, second, c]);
    assert(tokens.skip(1).skip(1) == seq![b, second, c]);
    assert(seq![b, second, c].skip(1) == seq![second, c]);
    assert(seq![second, c].skip(1) == seq![c]);
    assert(seq![b] + seq![second, c] == seq![b, second, c]);
    assert(seq![c] + none == seq![c]);
    assert(prefix_parsed(prefix_strategy(category(a)), a, tokens.skip(1)) == (Parsed {
        tree: leaf_a,
        rest: tokens.skip(1),
    }));
    lemma_literal_alone(c, none, low);
    assert(infix_parsed(infix_strategy(category(second)), leaf_b, second, seq![c]).tree == node(
        parameter_of(second),
        leaf_b,
        leaf_c,
    ));
    if low > high {
        let inner = node(parameter_of(second), leaf_b, leaf_c);
        assert(prefix_parsed(prefix_strategy(category(b)), b, seq![second, c]) == (Parsed {
            tree: leaf_b,
            rest: seq![second, c],
        }));
        assert(climb(inner, none, high) == (Parsed { tree: inner, rest: none }));
        assert(climb(leaf_b, seq![second, c], high) == (Parsed { tree: inner, rest: none }));
        assert(expression_parsed(seq![b, second, c], high) == (Parsed { tree: inner, rest: none }));
        let tree = node(parameter_of(first), leaf_a, inner);
        assert(infix_parsed(infix_strategy(category(first)), leaf_a, first, seq![b, second, c])
            == (Parsed { tree, rest: none }));
        assert(climb(tree, none, 0) == (Parsed { tree, rest: none }));
        assert(climb(leaf_a, tokens.skip(1), 0) == (Parsed { tree, rest: none }));
    } else {
        lemma_literal_alone(b, seq![second, c], high);
        let inner = node(parameter_of(first), leaf_a, leaf_b);
        assert(infix_parsed(infix_strategy(category(first)), leaf_a, first, seq![b, second, c])
            == (Parsed { tree: inner, rest: seq![second, c] }));
        let tree = node(parameter_of(second), inner, leaf_c);
        assert(infix_parsed(infix_strategy(category(second)), inner, second, seq![c]) == (Parsed {
            tree,
            rest: none,
        }));
        assert(climb(tree, none, 0) == (Parsed { tree, rest: none }));
        assert(climb(inner, seq![second, c], 0) == (Parsed { tree, rest: none }));
        assert(climb(leaf_a, tokens.skip(1), 0) == (Parsed { tree, rest: none }));
    }
}

/// A group is transparent: where the expression after an opening parenthesis
/// goes up to the last token, taken as the closing parenthesis, or up to the
/// end, the group stands for the very tree of that expression.
pub proof fn lemma_group_is_transparent(inner: Seq<TokenView>, min: int)
    requires
        min >= 0,
        expression_parsed(inner, 0).rest.len() <= 1,
    ensures
        expression_parsed(seq![TokenView::LPar] + inner, min).tree == expression_parsed(
            inner,
            0,
        ).tree,
        expression_parsed(seq![TokenView::LPar] + inner, min).rest.len() == 0,
{
    let tokens = seq![TokenView::LPar] + inner;
    assert(tokens.skip(1) == inner);
    let group = prefix_parsed(prefix_strategy(category(tokens[0])), tokens[0], inner);
    assert(group.tree == expression_parsed(inner, 0).tree);
    assert(group.rest == after_front(expression_parsed(inner, 0).rest));
    assert(group.rest.len() == 0);
}

/// The values that stand for an operator of the language.
pub open spec fn is_operator_value(v: ParametersView) -> bool {
    v is Pipe || v is LeftRedirection || v is RightRedirection || v is And || v is Or
}

/// The canonical text of an operator value lexes back to one token, and that
/// token stands for the value.
pub proof fn lemma_operator_value_text_lexes_back(v: ParametersView)
    requires
        is_operator_value(v),
    ensures
        lexed(parameter_text(v)).len() == 1,
        parameter_of(lexed(parameter_text(v))[0]) == v,
{
    let token = match v {
        ParametersView::Pipe => TokenView::Pipe,
        ParametersView::LeftRedirection => TokenView::LeftRedirection,
        ParametersView::RightRedirection => TokenView::RightRedirection,
        ParametersView::And => TokenView::And,
        _ => TokenView::Or,
    };
    lemma_symbol_text_lexes_back(token);
}

} // verus!

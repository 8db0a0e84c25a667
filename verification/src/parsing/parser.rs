//! The parser: a stream of tokens with a lookahead buffer, and precedence
//! climbing over it.

use crate::lexing::token::{category, token_views, Token, TokenType, TokenView};
use crate::parsing::ast::Ast;
use crate::parsing::grammar::{
    after_front, climb, expression_parsed, front, infix_parsed, infix_precedence, infix_strategy,
    parsed_tree, prefix_parsed, prefix_strategy,
};
use crate::parsing::laws::{lemma_infix_parsed_rest, lemma_prefix_parsed_rest};
use crate::parsing::parselets::infix_parselet::{
    InfixParselet, InfixStrategy, NullParset, OperatorInfixParselet,
};
use crate::parsing::parselets::prefix_parselet::{
    GroupParselet, NullParselet, OperatorPrefixParselet, PrefixParselet, PrefixStrategy,
    QuoteParselet, ValueParselet,
};
use vstd::prelude::*;

verus! {

/// A reader of tokens: the tokens of a line, of which some have been pulled
/// into a buffer, and of these some have been consumed.
pub struct Parser<'a> {
    tokens: &'a Vec<Token>,
    next: usize,
    read: Vec<Token>,
}

/// A parser in front of the first of the tokens of `input`.
pub fn init_calc_parser<'a>(input: &'a Vec<Token>) -> (parser: Parser<'a>)
    ensures
        parser.remaining() == token_views(input@),
{
    let parser = Parser { tokens: input, next: 0, read: Vec::new() };
    assert(input@.skip(0) == input@);
    assert(token_views(parser.read@) + token_views(input@) == token_views(input@));
    parser
}

impl<'a> Clone for Parser<'a> {
    fn clone(&self) -> (copy: Parser<'a>)
        ensures
            copy.remaining() == self.remaining(),
    {
        let mut read: Vec<Token> = Vec::new();
        let mut i: usize = 0;
        while i < self.read.len()
            invariant
                i <= self.read.len(),
                token_views(read@) == token_views(self.read@.take(i as int)),
            decreases self.read.len() - i,
        {
            let ghost shorter = token_views(read@);
            read.push(self.read[i].clone());
            assert(token_views(read@) == shorter.push(self.read@[i as int]@));
            assert(token_views(self.read@.take(i + 1)) == shorter.push(self.read@[i as int]@));
            i = i + 1;
        }
        assert(self.read@.take(self.read.len() as int) == self.read@);
        Parser { tokens: self.tokens, next: self.next, read }
    }
}

impl<'a> Parser<'a> {
    /// The tokens that have not been pulled into the buffer.
    spec fn waiting(&self) -> Seq<Token> {
        if self.next <= self.tokens.len() {
            self.tokens@.skip(self.next as int)
        } else {
            Seq::empty()
        }
    }

    /// The tokens that have not been consumed, in order.
    pub closed spec fn remaining(&self) -> Seq<TokenView> {
        token_views(self.read@) + token_views(self.waiting())
    }

    /// The number of tokens that the buffer holds: the first of the remaining
    /// ones, which have been pulled and not yet consumed.
    pub closed spec fn buffered(&self) -> nat {
        self.read@.len()
    }

    /// The tree of the tokens that are left.
    pub fn parse(&mut self) -> (tree: Ast)
        ensures
            tree@ == parsed_tree(old(self).remaining()),
            final(self).remaining() == expression_parsed(old(self).remaining(), 0).rest,
    {
        self.parse_expression_empty()
    }

    /// Pulls tokens into the buffer until it holds the one at `distance`, or
    /// until none are left to pull, and hands out a copy of that token, or the
    /// null token where there is none. No token is consumed.
    pub fn look_ahead(&mut self, distance: usize) -> (token: Token)
        ensures
            final(self).remaining() == old(self).remaining(),
            token@ == if distance < old(self).remaining().len() {
                old(self).remaining()[distance as int]
            } else {
                TokenView::Null
            },
            final(self).buffered() > distance
                || final(self).buffered() == final(self).remaining().len(),
    {
        while distance >= self.read.len() && self.next < self.tokens.len()
            invariant
                self.tokens == old(self).tokens,
                self.remaining() == old(self).remaining(),
            decreases self.tokens.len() - self.next,
        {
            let ghost buffered = token_views(self.read@);
            let ghost waiting = token_views(self.waiting());
            let t = self.tokens[self.next].clone();
            self.read.push(t);
            self.next = self.next + 1;
            proof {
                assert(token_views(self.read@) == buffered.push(waiting[0]));
                assert(token_views(self.waiting()) == waiting.skip(1));
                assert(buffered.push(waiting[0]) + waiting.skip(1) == buffered + waiting);
            }
        }
        if distance < self.read.len() {
            self.read[distance].clone()
        } else {
            Token::Null
        }
    }

    /// Whether no token is left.
    pub fn is_at_end(&mut self) -> (yes: bool)
        ensures
            final(self).remaining() == old(self).remaining(),
            yes == (old(self).remaining().len() == 0),
    {
        self.look_ahead(0);
        self.read.len() == 0
    }

    /// The expression at the front of the tokens: what the first token begins,
    /// extended by the operators that bind more tightly than `precedence`.
    pub fn parse_expression(&mut self, precedence: i64) -> (tree: Ast)
        requires
            precedence >= 0,
        ensures
            tree@ == expression_parsed(old(self).remaining(), precedence as int).tree,
            final(self).remaining() == expression_parsed(
                old(self).remaining(),
                precedence as int,
            ).rest,
        decreases 4 * old(self).remaining().len() + 1,
    {
        let ghost tokens = self.remaining();
        let ghost goal = expression_parsed(tokens, precedence as int);
        let mut token = self.consume();
        let prefix = self.clone().get_prefix_parselet(token.to_token_type());
        let ghost first = token@;
        let ghost after = self.remaining();
        let strategy = prefix.unwrap();
        let mut left = strategy.parse(self, token);
        proof {
            let begun = prefix_parsed(strategy, first, after);
            assert(strategy.parsed(first, after) == begun);
            if tokens.len() > 0 {
                lemma_prefix_parsed_rest(strategy, first, after);
            }
            assert(goal == climb(begun.tree, begun.rest, precedence as int));
        }
        loop
            invariant
                precedence >= 0,
                tokens == old(self).remaining(),
                self.remaining().len() <= tokens.len(),
                climb(left@, self.remaining(), precedence as int) == goal,
            ensures
                left@ == goal.tree,
                self.remaining() == goal.rest,
            decreases self.remaining().len(),
        {
            let binding = self.get_precedence();
            if !(precedence < binding) {
                break ;
            }
            let ghost before = self.remaining();
            token = self.consume();
            let parser = self.clone().get_infix_parselet(token.to_token_type()).unwrap();
            proof {
                let extended = infix_parsed(parser, left@, before[0], before.skip(1));
                assert(before.len() > 0);
                assert(parser == infix_strategy(category(before[0])));
                assert(parser is Operator && parser.usable());
                assert(parser.parsed(left@, before[0], before.skip(1)) == extended);
                lemma_infix_parsed_rest(parser, left@, before[0], before.skip(1));
                assert(climb(left@, before, precedence as int) == climb(
                    extended.tree,
                    extended.rest,
                    precedence as int,
                ));
            }
            left = parser.parse(self, &left, token);
        }
        left
    }

    /// The expression at the front of the tokens, with every operator.
    pub fn parse_expression_empty(&mut self) -> (tree: Ast)
        ensures
            tree@ == expression_parsed(old(self).remaining(), 0).tree,
            final(self).remaining() == expression_parsed(old(self).remaining(), 0).rest,
        decreases 4 * old(self).remaining().len() + 2,
    {
        self.parse_expression(0)
    }

    /// Takes the first token. Where none is left it gives the null token.
    pub fn consume(&mut self) -> (token: Token)
        ensures
            token@ == front(old(self).remaining()),
            final(self).remaining() == after_front(old(self).remaining()),
    {
        self.look_ahead(0);
        if self.read.len() == 0 {
            return Token::Null;
        }
        let ghost buffered = token_views(self.read@);
        let ghost waiting = token_views(self.waiting());
        let token = self.read.remove(0);
        proof {
            assert(token_views(self.read@) == buffered.skip(1));
            assert((buffered + waiting).skip(1) == buffered.skip(1) + waiting);
        }
        token
    }

    /// Whether the first token is of the category `expected`. No token is
    /// taken.
    pub fn match_token(&mut self, expected: TokenType) -> (yes: bool)
        ensures
            yes == (category(front(old(self).remaining())) == expected),
            final(self).remaining() == old(self).remaining(),
    {
        let token = self.look_ahead(0);
        if token.to_token_type() != expected {
            return false;
        }
        return true;
    }

    /// Takes the first token, and hands it out if it is of the category
    /// `expected`. If it is of another category, or none is left, the result
    /// is the null token.
    pub fn consume_expected(&mut self, expected: TokenType) -> (token: Token)
        ensures
            token@ == if category(front(old(self).remaining())) == expected {
                front(old(self).remaining())
            } else {
                TokenView::Null
            },
            old(self).remaining().len() == 0 ==> token@ is Null,
            final(self).remaining() == after_front(old(self).remaining()),
    {
        self.look_ahead(0);
        if self.read.len() == 0 {
            return Token::Null;
        }
        let ghost buffered = token_views(self.read@);
        let ghost waiting = token_views(self.waiting());
        let t = self.read.remove(0);
        proof {
            assert(token_views(self.read@) == buffered.skip(1));
            assert((buffered + waiting).skip(1) == buffered.skip(1) + waiting);
        }
        if t.to_token_type() == expected {
            t
        } else {
            Token::Null
        }
    }

    /// How tightly the first token binds as an operator. No token is
    /// consumed.
    pub fn get_precedence(&mut self) -> (precedence: i64)
        ensures
            precedence == infix_precedence(category(front(old(self).remaining()))),
            final(self).remaining() == old(self).remaining(),
    {
        let kind = self.look_ahead(0).to_token_type();
        let p = self.clone().get_infix_parselet(kind);
        match p {
            None => 0,
            Some(t) => t.get_precedence(),
        }
    }

    /// The strategy for a token of the category `token_type` that continues
    /// an expression.
    pub fn get_infix_parselet(self, token_type: TokenType) -> (strategy: Option<InfixStrategy>)
        ensures
            strategy == Some(infix_strategy(token_type)),
    {
        match token_type {
            TokenType::Or => Some(
                InfixStrategy::Operator(OperatorInfixParselet { is_right: false, precedence: 10 }),
            ),
            TokenType::And => Some(
                InfixStrategy::Operator(OperatorInfixParselet { is_right: false, precedence: 10 }),
            ),
            TokenType::Pipe => Some(
                InfixStrategy::Operator(OperatorInfixParselet { is_right: false, precedence: 8 }),
            ),
            TokenType::LeftRedirection => Some(
                InfixStrategy::Operator(OperatorInfixParselet { is_right: false, precedence: 9 }),
            ),
            TokenType::RightRedirection => Some(
                InfixStrategy::Operator(OperatorInfixParselet { is_right: false, precedence: 9 }),
            ),
            _ => Some(InfixStrategy::Null(NullParset {  })),
        }
    }

    /// The strategy for a token of the category `token_type` that begins an
    /// expression.
    pub fn get_prefix_parselet(self, token_type: TokenType) -> (strategy: Option<PrefixStrategy>)
        ensures
            strategy == Some(prefix_strategy(token_type)),
    {
        match token_type {
            TokenType::Int => Some(PrefixStrategy::Value(ValueParselet {  })),
            TokenType::Float => Some(PrefixStrategy::Value(ValueParselet {  })),
            TokenType::Identifier => Some(PrefixStrategy::Value(ValueParselet {  })),
            TokenType::Bool => Some(PrefixStrategy::Value(ValueParselet {  })),
            TokenType::Or => Some(PrefixStrategy::Operator(OperatorPrefixParselet {  })),
            TokenType::And => Some(PrefixStrategy::Operator(OperatorPrefixParselet {  })),
            TokenType::LPar => Some(PrefixStrategy::Group(GroupParselet {  })),
            TokenType::LeftRedirection => Some(
                PrefixStrategy::Operator(OperatorPrefixParselet {  }),
            ),
            TokenType::RightRedirection => Some(
                PrefixStrategy::Operator(OperatorPrefixParselet {  }),
            ),
            TokenType::Pipe => Some(PrefixStrategy::Operator(OperatorPrefixParselet {  })),
            TokenType::Quote => Some(PrefixStrategy::Quote(QuoteParselet {  })),
            _ => Some(PrefixStrategy::Null(NullParselet {  })),
        }
    }
}

} // verus!

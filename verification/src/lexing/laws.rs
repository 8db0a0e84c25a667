//! What holds of every line that is lexed.

use crate::lexing::lexer::{
    allowed, digit_run_len, kept, lemma_scan_taken_bound, lexed, merge_step, merged, numeral,
    quoted_after, raw_tokens, scan, without_halves, word, word_run_len,
};
use crate::lexing::token::{token_text, TokenView};
use crate::text::classes::ascii_digit;
use crate::text::decimal::{
    all_digits, int_of_text, int_text, lemma_nat_text_is_a_numeral, nat_text,
};
use vstd::prelude::*;

verus! {

/// A line made of spaces and of characters that are not allowed has no raw
/// token.
proof fn lemma_blank_line_has_no_raw_token(line: Seq<char>)
    requires
        forall|i: int| 0 <= i < line.len() ==> line[i] == ' ' || !allowed(#[trigger] line[i]),
    ensures
        raw_tokens(line, false) == Seq::<TokenView>::empty(),
    decreases line.len(),
{
    if line.len() > 0 {
        let found = scan(line[0], line.skip(1), false);
        assert(line[0] == ' ' || !allowed(line[0]));
        assert(found.token is Null && found.taken == 0);
        assert(line.skip(1).skip(0) == line.skip(1));
        assert forall|i: int| 0 <= i < line.skip(1).len() implies line.skip(1)[i] == ' '
            || !allowed(#[trigger] line.skip(1)[i]) by {
            assert(line.skip(1)[i] == line[i + 1]);
        }
        lemma_blank_line_has_no_raw_token(line.skip(1));
        assert(kept(found.token) + Seq::<TokenView>::empty() == Seq::<TokenView>::empty());
    }
}

/// A line made only of spaces and of characters that are not allowed lexes to
/// no token at all.
pub proof fn lemma_blank_line_lexes_to_nothing(line: Seq<char>)
    requires
        forall|i: int| 0 <= i < line.len() ==> line[i] == ' ' || !allowed(#[trigger] line[i]),
    ensures
        lexed(line) == Seq::<TokenView>::empty(),
{
    lemma_blank_line_has_no_raw_token(line);
}

/// No raw token is the null token.
proof fn lemma_raw_tokens_hold_no_null(s: Seq<char>, quoted: bool)
    ensures
        forall|i: int|
            0 <= i < raw_tokens(s, quoted).len() ==> !(#[trigger] raw_tokens(s, quoted)[i] is Null),
    decreases s.len(),
{
    if s.len() > 0 {
        let found = scan(s[0], s.skip(1), quoted);
        lemma_scan_taken_bound(s[0], s.skip(1), quoted);
        lemma_raw_tokens_hold_no_null(
            s.skip(1).skip(found.taken as int),
            quoted_after(s[0], quoted),
        );
    }
}

/// Joining the halves of `&&` brings in no null token.
proof fn lemma_merged_holds_no_null(raw: Seq<TokenView>)
    requires
        forall|i: int| 0 <= i < raw.len() ==> !(#[trigger] raw[i] is Null),
    ensures
        forall|i: int| 0 <= i < merged(raw).len() ==> !(#[trigger] merged(raw)[i] is Null),
    decreases raw.len(),
{
    if raw.len() > 0 {
        lemma_merged_holds_no_null(raw.drop_last());
        let out = merged(raw.drop_last());
        assert(merged(raw) == merge_step(out, raw.last()));
    }
}

/// What is left when the lone halves are taken out holds none of them, and no
/// null token unless one was there before.
proof fn lemma_without_halves_is_proper(tokens: Seq<TokenView>)
    requires
        forall|i: int| 0 <= i < tokens.len() ==> !(#[trigger] tokens[i] is Null),
    ensures
        forall|i: int|
            0 <= i < without_halves(tokens).len() ==> !(#[trigger] without_halves(
                tokens,
            )[i] is Null) && !(without_halves(tokens)[i] is PreAnd),
    decreases tokens.len(),
{
    if tokens.len() > 0 {
        lemma_without_halves_is_proper(tokens.drop_last());
    }
}

/// The tokens of a line hold neither the null token nor the half of an `&&`.
pub proof fn lemma_lexed_holds_no_marker(line: Seq<char>)
    ensures
        forall|i: int|
            0 <= i < lexed(line).len() ==> !(#[trigger] lexed(line)[i] is Null) && !(lexed(
                line,
            )[i] is PreAnd),
{
    lemma_raw_tokens_hold_no_null(line, false);
    lemma_merged_holds_no_null(raw_tokens(line, false));
    lemma_without_halves_is_proper(merged(raw_tokens(line, false)));
}

/// A line of `count` characters `&`.
pub open spec fn ampersands(count: nat) -> Seq<char> {
    Seq::new(count, |i: int| '&')
}

/// `count` times the token `token`.
pub open spec fn repeated(token: TokenView, count: nat) -> Seq<TokenView> {
    Seq::new(count, |i: int| token)
}

/// Each `&` of a line made of them alone is one half of an `&&`.
proof fn lemma_ampersands_are_halves(count: nat, quoted: bool)
    ensures
        raw_tokens(ampersands(count), quoted) == repeated(TokenView::PreAnd, count),
    decreases count,
{
    let line = ampersands(count);
    if count == 0 {
        assert(raw_tokens(line, quoted) == repeated(TokenView::PreAnd, count));
    } else {
        assert(line.skip(1).skip(0) == ampersands((count - 1) as nat));
        lemma_ampersands_are_halves((count - 1) as nat, quoted);
        assert(seq![TokenView::PreAnd] + repeated(TokenView::PreAnd, (count - 1) as nat)
            == repeated(TokenView::PreAnd, count));
    }
}

/// Halves in a row join two by two; where their number is odd, the last one
/// stays alone.
proof fn lemma_halves_join_in_pairs(count: nat)
    ensures
        merged(repeated(TokenView::PreAnd, count)) == repeated(TokenView::And, count / 2)
            + repeated(TokenView::PreAnd, count % 2),
    decreases count,
{
    let halves = repeated(TokenView::PreAnd, count);
    let joined = repeated(TokenView::And, count / 2) + repeated(TokenView::PreAnd, count % 2);
    if count == 0 {
        assert(merged(halves) == joined);
    } else {
        let shorter = (count - 1) as nat;
        assert(halves.drop_last() == repeated(TokenView::PreAnd, shorter));
        lemma_halves_join_in_pairs(shorter);
        let before = repeated(TokenView::And, shorter / 2) + repeated(
            TokenView::PreAnd,
            shorter % 2,
        );
        assert(merged(halves) == merge_step(before, TokenView::PreAnd));
        if shorter % 2 == 1 {
            assert(before.last() is PreAnd);
            assert(before.drop_last().push(TokenView::And) == joined);
        } else {
            assert(before == repeated(TokenView::And, shorter / 2));
            assert(before.len() > 0 ==> before.last() is And);
            assert(before.push(TokenView::PreAnd) == joined);
        }
    }
}

/// Tokens `&&` stay when the lone halves are taken out.
proof fn lemma_ands_stay(count: nat)
    ensures
        without_halves(repeated(TokenView::And, count)) == repeated(TokenView::And, count),
    decreases count,
{
    if count > 0 {
        let shorter = (count - 1) as nat;
        assert(repeated(TokenView::And, count).drop_last() == repeated(TokenView::And, shorter));
        lemma_ands_stay(shorter);
        assert(repeated(TokenView::And, shorter).push(TokenView::And) == repeated(
            TokenView::And,
            count,
        ));
    }
}

/// A line of `count` characters `&` lexes to half as many tokens `&&`,
/// rounded down: each two in a row make one, and one that is left over makes
/// none.
pub proof fn lemma_ampersands_lex_in_pairs(count: nat)
    ensures
        lexed(ampersands(count)) == repeated(TokenView::And, count / 2),
{
    lemma_ampersands_are_halves(count, false);
    lemma_halves_join_in_pairs(count);
    lemma_ands_stay(count / 2);
    let ands = repeated(TokenView::And, count / 2);
    let joined = ands + repeated(TokenView::PreAnd, count % 2);
    if count % 2 == 1 {
        assert(joined.last() is PreAnd);
        assert(joined.drop_last() == ands);
    } else {
        assert(joined == ands);
    }
}

/// Where `s` is made of digits alone, its run of digits is all of it.
proof fn lemma_digit_run_of_digits(s: Seq<char>)
    requires
        all_digits(s),
    ensures
        digit_run_len(s) == s.len(),
    decreases s.len(),
{
    if s.len() > 0 {
        assert(ascii_digit(s[0]));
        assert forall|i: int| 0 <= i < s.skip(1).len() implies ascii_digit(
            #[trigger] s.skip(1)[i],
        ) by {
            assert(s.skip(1)[i] == s[i + 1]);
        }
        lemma_digit_run_of_digits(s.skip(1));
    }
}

/// The numeral of an integer that is not negative lexes back to that integer
/// alone.
pub proof fn lemma_integer_text_lexes_back(n: nat)
    requires
        n <= i64::MAX,
    ensures
        lexed(int_text(n as int)) == seq![TokenView::Int(n as int)],
{
    let text = nat_text(n);
    let rest = text.skip(1);
    lemma_nat_text_is_a_numeral(n);
    assert(ascii_digit(text[0]));
    assert forall|i: int| 0 <= i < rest.len() implies ascii_digit(#[trigger] rest[i]) by {
        assert(rest[i] == text[i + 1]);
    }
    lemma_digit_run_of_digits(rest);
    assert(rest.take(rest.len() as int) == rest);
    assert(numeral(text[0], rest) == text);
    assert(int_of_text(text) == Some(n as int));
    let found = scan(text[0], rest, false);
    assert(found.token == TokenView::Int(n as int));
    assert(found.taken == rest.len());
    assert(rest.skip(rest.len() as int).len() == 0);
    assert(raw_tokens(rest.skip(rest.len() as int), false).len() == 0);
    assert(raw_tokens(text, false) == seq![TokenView::Int(n as int)]);
    let raw = raw_tokens(text, false);
    assert(raw.drop_last().len() == 0);
    assert(merged(raw.drop_last()).len() == 0);
    assert(merged(raw) == raw);
    assert(without_halves(raw.drop_last()).len() == 0);
    assert(without_halves(raw) == raw);
}

/// The tokens that are written as a fixed glyph or keyword and that the lexer
/// reads back from it: every symbol but the whitespace of a quoted span, which
/// outside a quoted span is dropped.
pub open spec fn is_symbol(t: TokenView) -> bool {
    t is Quote || t is And || t is Or || t is Pipe || t is LeftRedirection || t is RightRedirection
        || t is LPar || t is RPar || t is Tilde || t is Dash
}

/// The canonical text of a symbol lexes back to that symbol alone.
pub proof fn lemma_symbol_text_lexes_back(t: TokenView)
    requires
        is_symbol(t),
    ensures
        lexed(token_text(t)) == seq![t],
{
    reveal_strlit("\"");
    reveal_strlit("&&");
    reveal_strlit("or");
    reveal_strlit("|");
    reveal_strlit(">");
    reveal_strlit("<");
    reveal_strlit("(");
    reveal_strlit(")");
    reveal_strlit("~");
    reveal_strlit("-");
    reveal_strlit("false");
    reveal_strlit("true");
    reveal_strlit("and");
    let text = token_text(t);
    reveal_with_fuel(raw_tokens, 3);
    reveal_with_fuel(merged, 3);
    reveal_with_fuel(without_halves, 3);
    reveal_with_fuel(word_run_len, 3);
    if t is Or {
        let rest = text.skip(1);
        assert(rest.len() == 1 && rest[0] == 'r');
        assert(rest.skip(1).len() == 0);
        assert(word_run_len(rest) == 1);
        assert(word('o', rest) == "or"@);
        let found = scan(text[0], rest, false);
        assert(found.taken == 1);
        assert(found.token == TokenView::Or);
        assert(rest.skip(1) == Seq::<char>::empty());
        assert(raw_tokens(text, false) == seq![TokenView::Or]);
        assert(lexed(text) == seq![t]);
    } else if t is And {
        let rest = text.skip(1);
        assert(rest.len() == 1 && rest[0] == '&');
        assert(rest.skip(0) == rest);
        assert(rest.skip(1).skip(0) == Seq::<char>::empty());
        let raw = raw_tokens(text, false);
        assert(raw_tokens(rest, false) == seq![TokenView::PreAnd]);
        assert(raw == seq![TokenView::PreAnd, TokenView::PreAnd]);
        assert(raw.drop_last() == seq![TokenView::PreAnd]);
        assert(raw.drop_last().drop_last() == Seq::<TokenView>::empty());
        assert(merged(raw.drop_last()) == seq![TokenView::PreAnd]);
        assert(merged(raw) == seq![TokenView::And]);
        assert(lexed(text) == seq![t]);
    } else {
        assert(text.len() == 1);
        assert(text.skip(1).skip(0) == Seq::<char>::empty());
        assert(raw_tokens(text, false) == seq![t]);
        assert(seq![t].drop_last() == Seq::<TokenView>::empty());
        assert(merged(seq![t]) == seq![t]);
        assert(lexed(text) == seq![t]);
    }
}

} // verus!

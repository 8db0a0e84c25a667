//! The lexer: which characters count, how they group into tokens, and how two
//! `&` in a row become one `&&`.

use crate::lexing::cursor::CharCursor;
use crate::lexing::laws::lemma_lexed_holds_no_marker;
use crate::lexing::token::{FloatLiteral, FloatLiteralView, Token, TokenView, token_views};
use crate::text::classes::{alphabetic, alphanumeric, ascii_digit, numeric};
use crate::text::decimal::{int_of_text, parse_i64};
use vstd::prelude::*;

verus! {

/// The characters that the lexer looks at. Every other character is dropped.
pub open spec fn allowed(c: char) -> bool {
    alphanumeric(c) || c == '&' || c == '>' || c == '|' || c == '-' || c == '<' || c == '_' || c
        == '~' || c == '(' || c == ')' || c == '.' || c == '"' || c == ' '
}

/// The characters that continue a word once it has begun.
pub open spec fn word_char(c: char) -> bool {
    alphanumeric(c) || c == '_'
}

/// The number of decimal digits that `s` begins with.
pub open spec fn digit_run_len(s: Seq<char>) -> nat
    decreases s.len(),
{
    if s.len() > 0 && ascii_digit(s[0]) {
        1 + digit_run_len(s.skip(1))
    } else {
        0
    }
}

/// The number of word characters that `s` begins with.
pub open spec fn word_run_len(s: Seq<char>) -> nat
    decreases s.len(),
{
    if s.len() > 0 && word_char(s[0]) {
        1 + word_run_len(s.skip(1))
    } else {
        0
    }
}

/// A first character and the decimal digits that follow it in `rest`.
pub open spec fn numeral(first: char, rest: Seq<char>) -> Seq<char> {
    seq![first] + rest.take(digit_run_len(rest) as int)
}

/// A first character and the word characters that follow it in `rest`.
pub open spec fn word(first: char, rest: Seq<char>) -> Seq<char> {
    seq![first] + rest.take(word_run_len(rest) as int)
}

/// The integer that a numeral stands for, and zero where it stands for none.
pub open spec fn int_value(text: Seq<char>) -> int {
    match int_of_text(text) {
        Some(v) => v,
        None => 0,
    }
}

/// The fraction read after a point: the next character, whatever it is, and
/// the decimal digits that follow it. At the end of the line it is `0`.
pub open spec fn fraction(rest: Seq<char>) -> Seq<char> {
    if rest.len() == 0 {
        seq!['0']
    } else {
        numeral(rest[0], rest.skip(1))
    }
}

/// The number of characters of `rest` that the fraction is made of.
pub open spec fn fraction_len(rest: Seq<char>) -> nat {
    if rest.len() == 0 {
        0
    } else {
        1 + digit_run_len(rest.skip(1))
    }
}

/// The token that a word stands for: a keyword, or else an identifier.
pub open spec fn word_token(text: Seq<char>) -> TokenView {
    if text == "false"@ {
        TokenView::Bool(false)
    } else if text == "true"@ {
        TokenView::Bool(true)
    } else if text == "or"@ {
        TokenView::Or
    } else if text == "and"@ {
        TokenView::And
    } else {
        TokenView::Identifier(text)
    }
}

/// What one step of the lexer finds: a token, and how many characters it took
/// after the first one.
pub struct Scan {
    pub token: TokenView,
    pub taken: nat,
}

/// The token that begins with a numeric character: an integer, or a float
/// where a point follows the digits.
pub open spec fn scan_number(first: char, rest: Seq<char>) -> Scan {
    let run = digit_run_len(rest);
    let whole = int_value(numeral(first, rest));
    let after = rest.skip(run as int);
    if after.len() > 0 && after[0] == '.' {
        Scan {
            token: TokenView::Float(
                FloatLiteralView { whole, fraction: fraction(after.skip(1)) },
            ),
            taken: run + 1 + fraction_len(after.skip(1)),
        }
    } else {
        Scan { token: TokenView::Int(whole), taken: run }
    }
}

/// The token that begins with `first`, with `rest` after it. Inside a quoted
/// span (`quoted`) a space is a token of its own; outside it is dropped. The
/// null token stands for a character that gives no token.
pub open spec fn scan(first: char, rest: Seq<char>, quoted: bool) -> Scan {
    if !allowed(first) {
        Scan { token: TokenView::Null, taken: 0 }
    } else if first == '>' {
        Scan { token: TokenView::LeftRedirection, taken: 0 }
    } else if first == '<' {
        Scan { token: TokenView::RightRedirection, taken: 0 }
    } else if first == '|' {
        Scan { token: TokenView::Pipe, taken: 0 }
    } else if first == '~' {
        Scan { token: TokenView::Tilde, taken: 0 }
    } else if first == ')' {
        Scan { token: TokenView::RPar, taken: 0 }
    } else if first == '(' {
        Scan { token: TokenView::LPar, taken: 0 }
    } else if first == '-' {
        Scan { token: TokenView::Dash, taken: 0 }
    } else if first == '"' {
        Scan { token: TokenView::Quote, taken: 0 }
    } else if first == ' ' {
        Scan {
            token: if quoted {
                TokenView::Whitespace
            } else {
                TokenView::Null
            },
            taken: 0,
        }
    } else if first == '&' {
        Scan { token: TokenView::PreAnd, taken: 0 }
    } else if numeric(first) {
        scan_number(first, rest)
    } else if alphabetic(first) {
        Scan { token: word_token(word(first, rest)), taken: word_run_len(rest) }
    } else if first == '.' {
        Scan {
            token: TokenView::Float(FloatLiteralView { whole: 0, fraction: fraction(rest) }),
            taken: fraction_len(rest),
        }
    } else {
        Scan { token: TokenView::Null, taken: 0 }
    }
}

/// A token as a sequence: empty for the null token, else the token alone.
pub open spec fn kept(t: TokenView) -> Seq<TokenView> {
    if t is Null {
        Seq::empty()
    } else {
        seq![t]
    }
}

/// Whether the lexer is inside a quoted span once it has read `first`: a quote
/// opens a span or closes it, any other character changes nothing.
pub open spec fn quoted_after(first: char, quoted: bool) -> bool {
    if first == '"' {
        !quoted
    } else {
        quoted
    }
}

/// The tokens of `s` in order, before any two halves of an `&&` are joined.
/// `quoted` says whether `s` begins inside a quoted span.
pub open spec fn raw_tokens(s: Seq<char>, quoted: bool) -> Seq<TokenView>
    decreases s.len(),
{
    if s.len() == 0 {
        Seq::empty()
    } else {
        let found = scan(s[0], s.skip(1), quoted);
        proof {
            lemma_scan_taken_bound(s[0], s.skip(1), quoted);
        }
        kept(found.token) + raw_tokens(
            s.skip(1).skip(found.taken as int),
            quoted_after(s[0], quoted),
        )
    }
}

/// What is left of a line when `current` has been taken from the cursor and
/// `rest` is still under it.
pub open spec fn unread(current: Option<char>, rest: Seq<char>) -> Seq<char> {
    match current {
        Some(c) => seq![c] + rest,
        None => Seq::empty(),
    }
}

/// Appends a token to what came out so far. The half of an `&&` that follows
/// another half joins it: the two become one `&&`.
pub open spec fn merge_step(out: Seq<TokenView>, t: TokenView) -> Seq<TokenView> {
    if t is PreAnd && out.len() > 0 && out.last() is PreAnd {
        out.drop_last().push(TokenView::And)
    } else {
        out.push(t)
    }
}

/// The tokens with the halves of `&&` joined, from left to right.
pub open spec fn merged(raw: Seq<TokenView>) -> Seq<TokenView>
    decreases raw.len(),
{
    if raw.len() == 0 {
        Seq::empty()
    } else {
        merge_step(merged(raw.drop_last()), raw.last())
    }
}

/// The tokens without the halves of `&&` that found no partner.
pub open spec fn without_halves(tokens: Seq<TokenView>) -> Seq<TokenView>
    decreases tokens.len(),
{
    if tokens.len() == 0 {
        Seq::empty()
    } else if tokens.last() is PreAnd {
        without_halves(tokens.drop_last())
    } else {
        without_halves(tokens.drop_last()).push(tokens.last())
    }
}

/// The tokens of a line.
pub open spec fn lexed(line: Seq<char>) -> Seq<TokenView> {
    without_halves(merged(raw_tokens(line, false)))
}

/// A run of digits is no longer than the text it begins.
pub proof fn lemma_digit_run_bound(s: Seq<char>)
    ensures
        digit_run_len(s) <= s.len(),
    decreases s.len(),
{
    if s.len() > 0 && ascii_digit(s[0]) {
        lemma_digit_run_bound(s.skip(1));
    }
}

/// A run of word characters is no longer than the text it begins.
pub proof fn lemma_word_run_bound(s: Seq<char>)
    ensures
        word_run_len(s) <= s.len(),
    decreases s.len(),
{
    if s.len() > 0 && word_char(s[0]) {
        lemma_word_run_bound(s.skip(1));
    }
}

/// A fraction takes no more characters than there are.
pub proof fn lemma_fraction_bound(s: Seq<char>)
    ensures
        fraction_len(s) <= s.len(),
{
    if s.len() > 0 {
        lemma_digit_run_bound(s.skip(1));
    }
}

/// A step of the lexer never takes more characters than there are.
pub proof fn lemma_scan_taken_bound(first: char, rest: Seq<char>, quoted: bool)
    ensures
        scan(first, rest, quoted).taken <= rest.len(),
{
    lemma_digit_run_bound(rest);
    lemma_word_run_bound(rest);
    lemma_fraction_bound(rest);
    let run = digit_run_len(rest);
    let after = rest.skip(run as int);
    if after.len() > 0 {
        lemma_fraction_bound(after.skip(1));
    }
}

/// Where a point follows the digits at the front of `rest`, what is left
/// after the digits, the point and the fraction is what is left after as many
/// characters as the three are long.
proof fn lemma_float_taken(rest: Seq<char>)
    requires
        digit_run_len(rest) < rest.len(),
    ensures
        ({
            let run = digit_run_len(rest) as int;
            let behind = rest.skip(run).skip(1);
            behind.skip(fraction_len(behind) as int) == rest.skip(run + 1 + fraction_len(behind))
        }),
{
    let run = digit_run_len(rest) as int;
    let behind = rest.skip(run).skip(1);
    lemma_fraction_bound(behind);
    assert(behind.skip(fraction_len(behind) as int) =~= rest.skip(run + 1 + fraction_len(behind)));
}

/// What is left to read once the next character has been taken is what was
/// under the cursor before.
proof fn lemma_unread_next(before: Seq<char>, current: Option<char>, after: Seq<char>)
    requires
        current == if before.len() > 0 {
            Some(before[0])
        } else {
            None
        },
        after == if before.len() > 0 {
            before.skip(1)
        } else {
            before
        },
    ensures
        unread(current, after) == before,
{
    assert(unread(current, after) =~= before);
}

/// The view of a sequence with one token more.
proof fn lemma_views_push(tokens: Seq<Token>, token: Token)
    ensures
        token_views(tokens.push(token)) == token_views(tokens).push(token@),
{
    assert(token_views(tokens.push(token)) =~= token_views(tokens).push(token@));
}

/// The view of a sequence with its last token taken off.
proof fn lemma_views_drop_last(tokens: Seq<Token>)
    requires
        tokens.len() > 0,
    ensures
        token_views(tokens.drop_last()) == token_views(tokens).drop_last(),
        token_views(tokens).last() == tokens.last()@,
        token_views(tokens).len() > 0,
{
    assert(token_views(tokens.drop_last()) =~= token_views(tokens).drop_last());
}

/// The raw tokens of a line that begins with `first`: the token found there,
/// then the raw tokens of what follows it.
proof fn lemma_raw_tokens_unfold(first: char, rest: Seq<char>, quoted: bool)
    ensures
        raw_tokens(seq![first] + rest, quoted) == kept(scan(first, rest, quoted).token)
            + raw_tokens(
            rest.skip(scan(first, rest, quoted).taken as int),
            quoted_after(first, quoted),
        ),
{
    let s = seq![first] + rest;
    assert(s[0] == first);
    assert(s.skip(1) == rest);
}

/// Joining the halves of `&&` goes token by token: a token that is kept is
/// appended by one step, the null token changes nothing.
proof fn lemma_merged_kept(raw: Seq<TokenView>, t: TokenView)
    ensures
        merged(raw + kept(t)) == if t is Null {
            merged(raw)
        } else {
            merge_step(merged(raw), t)
        },
{
    if t is Null {
        assert(raw + kept(t) == raw);
    } else {
        assert(raw + kept(t) == raw.push(t));
        assert(raw.push(t).drop_last() == raw);
    }
}

/// Whether the lexer looks at `character`: a letter, a digit, or one of
/// `& > | - < _ ~ ( ) . "` and the space.
pub fn is_an_allowed_character(character: char) -> (yes: bool)
    ensures
        yes == allowed(character),
{
    return character.is_alphanumeric() || character == '&' || character == '>' || character == '|'
        || character == '-' || character == '<' || character == '_' || character == '~'
        || character == '(' || character == ')' || character == '.' || character == '"'
        || character == ' ';
}

/// A line of text to be lexed.
#[derive(PartialEq)]
pub struct Lexer {
    pub str: String,
}

impl Clone for Lexer {
    fn clone(&self) -> (copy: Lexer)
        ensures
            copy.str@ == self.str@,
    {
        Lexer { str: self.str.clone() }
    }
}

impl Lexer {
    /// Reads the integer that begins with `current_char` and goes on with the
    /// decimal digits under the cursor. Text that is no integer of 64 bits
    /// gives zero.
    pub fn lex_int(&self, chars: &mut CharCursor, current_char: char) -> (value: i64)
        ensures
            value == int_value(numeral(current_char, old(chars)@)),
            final(chars)@ == old(chars)@.skip(digit_run_len(old(chars)@) as int),
    {
        let a = self.clone().lex_raddix(chars, Some(current_char));
        match parse_i64(a.as_str()) {
            None => 0,
            Some(t) => t,
        }
    }

    /// Reads `current_char` and the decimal digits under the cursor.
    pub fn lex_raddix(self, chars: &mut CharCursor, current_char: Option<char>) -> (text: String)
        requires
            current_char is Some,
        ensures
            text@ == numeral(current_char->0, old(chars)@),
            final(chars)@ == old(chars)@.skip(digit_run_len(old(chars)@) as int),
    {
        let mut str: String = String::new();
        str.push(current_char.unwrap());
        let ghost mut taken: int = 0;
        let mut ahead = chars.peek();
        assert(old(chars)@.skip(0) == old(chars)@);
        assert(old(chars)@.take(0) == Seq::<char>::empty());
        while ahead.is_some() && ahead.unwrap().is_ascii_digit()
            invariant
                current_char is Some,
                ahead == if chars@.len() > 0 {
                    Some(chars@[0])
                } else {
                    None
                },
                0 <= taken <= old(chars)@.len(),
                chars@ == old(chars)@.skip(taken),
                str@ == seq![current_char->0] + old(chars)@.take(taken),
                digit_run_len(old(chars)@) == taken + digit_run_len(chars@),
            decreases chars@.len(),
        {
            chars.next();
            str.push(ahead.unwrap());
            proof {
                assert(old(chars)@.skip(taken).skip(1) == old(chars)@.skip(taken + 1));
                assert(old(chars)@.take(taken).push(old(chars)@[taken]) == old(chars)@.take(
                    taken + 1,
                ));
                taken = taken + 1;
            }
            ahead = chars.peek();
        }
        str
    }

    /// Reads the fraction of a float after its point: the character under the
    /// cursor, whatever it is, and the decimal digits behind it. At the end of
    /// the line the fraction is `0`.
    pub fn lex_float(self, whole_side: i64, chars: &mut CharCursor) -> (literal: FloatLiteral)
        ensures
            literal@ == (FloatLiteralView {
                whole: whole_side as int,
                fraction: fraction(old(chars)@),
            }),
            final(chars)@ == old(chars)@.skip(fraction_len(old(chars)@) as int),
    {
        let current_char_options = chars.next();
        let current_char = match current_char_options {
            Some(t) => t,
            None => '0',
        };
        proof {
            lemma_digit_run_bound(chars@);
            assert(old(chars)@.skip(0) == old(chars)@);
            if old(chars)@.len() > 0 {
                assert(old(chars)@.skip(1).skip(digit_run_len(chars@) as int) == old(chars)@.skip(
                    1 + digit_run_len(chars@) as int,
                ));
            } else {
                assert(chars@.take(0) == Seq::<char>::empty());
            }
        }
        let a = self.lex_raddix(chars, Some(current_char));
        FloatLiteral { whole: whole_side, fraction: a }
    }

    /// Reads `current_char` and the word characters under the cursor.
    pub fn lex_string(self, chars: &mut CharCursor, current_char: Option<char>) -> (text: String)
        requires
            current_char is Some,
        ensures
            text@ == word(current_char->0, old(chars)@),
            final(chars)@ == old(chars)@.skip(word_run_len(old(chars)@) as int),
    {
        let mut str: String = String::new();
        str.push(current_char.unwrap());
        let ghost mut taken: int = 0;
        let mut ahead = chars.peek();
        assert(old(chars)@.skip(0) == old(chars)@);
        assert(old(chars)@.take(0) == Seq::<char>::empty());
        while ahead.is_some() && (ahead.unwrap().is_alphanumeric() || ahead.unwrap() == '_')
            invariant
                current_char is Some,
                ahead == if chars@.len() > 0 {
                    Some(chars@[0])
                } else {
                    None
                },
                0 <= taken <= old(chars)@.len(),
                chars@ == old(chars)@.skip(taken),
                str@ == seq![current_char->0] + old(chars)@.take(taken),
                word_run_len(old(chars)@) == taken + word_run_len(chars@),
            decreases chars@.len(),
        {
            chars.next();
            str.push(ahead.unwrap());
            proof {
                assert(old(chars)@.skip(taken).skip(1) == old(chars)@.skip(taken + 1));
                assert(old(chars)@.take(taken).push(old(chars)@[taken]) == old(chars)@.take(
                    taken + 1,
                ));
                taken = taken + 1;
            }
            ahead = chars.peek();
        }
        str
    }

    /// The tokens of the line. None of them is the null token or the half of
    /// an `&&`.
    #[verifier::rlimit(30)]
    pub fn lex(&self) -> (tokens: Vec<Token>)
        ensures
            token_views(tokens@) == lexed(self.str@),
            forall|i: int|
                0 <= i < tokens.len() ==> !(#[trigger] tokens[i]@ is Null)
                    && !(tokens[i]@ is PreAnd),
    {
        let mut char_iter = CharCursor::new(self.str.as_str());
        let mut vec: Vec<Token> = Vec::new();
        let ghost line = char_iter@;
        let mut char = char_iter.next();
        let mut quoted = false;
        let ghost mut raw: Seq<TokenView> = Seq::empty();
        proof {
            lemma_unread_next(line, char, char_iter@);
            assert(raw + raw_tokens(self.str@, false) == raw_tokens(self.str@, false));
            assert(token_views(vec@) == Seq::<TokenView>::empty());
        }
        while char.is_some()
            invariant
                char is None ==> char_iter@.len() == 0,
                raw_tokens(self.str@, false) == raw + raw_tokens(
                    unread(char, char_iter@),
                    quoted,
                ),
                token_views(vec@) == merged(raw),
            decreases unread(char, char_iter@).len(),
        {
            let ch = char.unwrap();
            let ghost rest = char_iter@;
            let ghost before = quoted;
            let ghost found = scan(ch, rest, before);
            let ghost out = token_views(vec@);
            proof {
                lemma_scan_taken_bound(ch, rest, before);
                lemma_raw_tokens_unfold(ch, rest, before);
                lemma_merged_kept(raw, found.token);
                assert(rest.skip(0) == rest);
            }
            let v = if !is_an_allowed_character(ch) {
                Token::Null
            } else if ch == '>' {
                Token::LeftRedirection
            } else if ch == '<' {
                Token::RightRedirection
            } else if ch == '|' {
                Token::Pipe
            } else if ch == '~' {
                Token::Tilde
            } else if ch == ')' {
                Token::RPar
            } else if ch == '(' {
                Token::LPar
            } else if ch == '-' {
                Token::Dash
            } else if ch == '"' {
                quoted = !quoted;
                Token::Quote
            } else if ch == ' ' {
                if quoted {
                    Token::Whitespace
                } else {
                    Token::Null
                }
            } else if ch == '&' {
                let ghost pushed = vec@;
                let v = vec.pop();
                proof {
                    if v is Some {
                        lemma_views_drop_last(pushed);
                    }
                }
                match v {
                    None => Token::PreAnd,
                    Some(Token::PreAnd) => Token::And,
                    Some(p) => {
                        vec.push(p);
                        assert(vec@ == pushed);
                        Token::PreAnd
                    },
                }
            } else if ch.is_numeric() {
                let a = self.lex_int(&mut char_iter, ch);
                let next = char_iter.peek();
                if next.is_some() && next.unwrap() == '.' {
                    char_iter.next();
                    let f = self.clone().lex_float(a, &mut char_iter);
                    proof {
                        lemma_float_taken(rest);
                    }
                    Token::Float(f)
                } else {
                    Token::Int(a)
                }
            } else if ch.is_alphabetic() {
                let str = self.clone().lex_string(&mut char_iter, Some(ch));
                if str == "false".to_owned() {
                    Token::Bool(false)
                } else if str == "true".to_owned() {
                    Token::Bool(true)
                } else if str == "or".to_owned() {
                    Token::Or
                } else if str == "and".to_owned() {
                    Token::And
                } else {
                    Token::Identifier(str)
                }
            } else if ch == '.' {
                let f = self.clone().lex_float(0, &mut char_iter);
                Token::Float(f)
            } else {
                Token::Null
            };
            proof {
                assert(char_iter@ == rest.skip(found.taken as int));
                assert(quoted == quoted_after(ch, before));
                assert(match found.token {
                    TokenView::Null => v@ is Null && token_views(vec@) == out,
                    TokenView::PreAnd => !(v@ is Null) && token_views(vec@).push(v@) == merge_step(
                        out,
                        found.token,
                    ),
                    _ => v@ == found.token && token_views(vec@) == out,
                });
                raw = raw + kept(found.token);
            }
            match v {
                Token::Null => {},
                token => {
                    proof {
                        lemma_views_push(vec@, token);
                    }
                    vec.push(token);
                },
            }
            let ghost under = char_iter@;
            char = char_iter.next();
            proof {
                lemma_unread_next(under, char, char_iter@);
            }
        }
        proof {
            assert(raw + raw_tokens(Seq::<char>::empty(), quoted) == raw);
        }
        let ghost joined = vec@;
        let mut final_vec: Vec<Token> = Vec::new();
        assert(joined.take(0) == Seq::<Token>::empty());
        for token in it: vec.into_iter()
            invariant
                it.seq() == joined,
                token_views(final_vec@) == without_halves(token_views(joined.take(it.index()))),
        {
            proof {
                let seen = joined.take(it.index() + 1);
                assert(seen.drop_last() == joined.take(it.index()));
                assert(token_views(seen).drop_last() == token_views(joined.take(it.index())));
                assert(token_views(seen).last() == token@);
            }
            match token {
                Token::PreAnd => {},
                token => {
                    let ghost shorter = token_views(final_vec@);
                    final_vec.push(token);
                    assert(token_views(final_vec@) == shorter.push(token@));
                },
            }
        }
        proof {
            assert(joined.take(joined.len() as int) == joined);
            lemma_lexed_holds_no_marker(self.str@);
            assert forall|i: int| 0 <= i < final_vec.len() implies !(
            #[trigger] final_vec[i]@ is Null) && !(final_vec[i]@ is PreAnd) by {
                assert(token_views(final_vec@)[i] == final_vec[i]@);
            }
        }
        final_vec
    }
}

} // verus!

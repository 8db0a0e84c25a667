//! Decimal numerals: reading a signed 64-bit integer from text, and writing one.

use crate::text::classes::ascii_digit;
use crate::text::strings::chars_of;
use vstd::prelude::*;

verus! {

/// The number that a decimal digit stands for.
pub open spec fn digit_value(c: char) -> int {
    c as int - '0' as int
}

/// The decimal digit that stands for `n`, for `n` below ten.
pub open spec fn digit_char(n: int) -> char {
    (n + '0' as int) as char
}

/// Whether `s` is made of decimal digits alone.
pub open spec fn all_digits(s: Seq<char>) -> bool {
    forall|i: int| 0 <= i < s.len() ==> ascii_digit(#[trigger] s[i])
}

/// The number that a sequence of decimal digits stands for, the last digit
/// counting least.
pub open spec fn digits_value(s: Seq<char>) -> int
    decreases s.len(),
{
    if s.len() == 0 {
        0
    } else {
        10 * digits_value(s.drop_last()) + digit_value(s.last())
    }
}

/// Whether `s` begins with a plus or a minus sign.
pub open spec fn has_sign(s: Seq<char>) -> bool {
    s.len() > 0 && (s[0] == '+' || s[0] == '-')
}

/// The digits of a numeral: what follows its sign, if it has one.
pub open spec fn magnitude_digits(s: Seq<char>) -> Seq<char> {
    if has_sign(s) {
        s.skip(1)
    } else {
        s
    }
}

/// The integer that `s` stands for: an optional sign, then one digit or more,
/// and the number within the range of `i64`. Any other text stands for none.
pub open spec fn int_of_text(s: Seq<char>) -> Option<int> {
    let digits = magnitude_digits(s);
    let value = if has_sign(s) && s[0] == '-' {
        -digits_value(digits)
    } else {
        digits_value(digits)
    };
    if digits.len() > 0 && all_digits(digits) && i64::MIN <= value <= i64::MAX {
        Some(value)
    } else {
        None
    }
}

/// The decimal digits of a natural number, without leading zeros.
pub open spec fn nat_text(n: nat) -> Seq<char>
    decreases n,
{
    if n < 10 {
        seq![digit_char(n as int)]
    } else {
        nat_text(n / 10).push(digit_char((n % 10) as int))
    }
}

/// The decimal numeral of an integer, with a minus sign if it is negative.
pub open spec fn int_text(i: int) -> Seq<char> {
    if i < 0 {
        seq!['-'] + nat_text((-i) as nat)
    } else {
        nat_text(i as nat)
    }
}

/// The numeral of a natural number is made of digits, one at least, and
/// stands for that number.
pub proof fn lemma_nat_text_is_a_numeral(n: nat)
    ensures
        nat_text(n).len() > 0,
        all_digits(nat_text(n)),
        digits_value(nat_text(n)) == n,
    decreases n,
{
    if n < 10 {
        let text = nat_text(n);
        assert(text.len() == 1 && text[0] == digit_char(n as int));
        assert(text.drop_last().len() == 0);
        assert(digits_value(text.drop_last()) == 0);
    } else {
        lemma_nat_text_is_a_numeral(n / 10);
        let front = nat_text(n / 10);
        let text = front.push(digit_char((n % 10) as int));
        assert(text.drop_last() == front);
        assert forall|i: int| 0 <= i < text.len() implies ascii_digit(#[trigger] text[i]) by {
            if i < front.len() {
                assert(text[i] == front[i]);
            }
        }
    }
}

/// Reading undoes writing: the numeral of an integer of 64 bits stands for
/// that integer.
pub proof fn lemma_int_text_reads_back(i: int)
    requires
        i64::MIN <= i <= i64::MAX,
    ensures
        int_of_text(int_text(i)) == Some(i),
{
    if i < 0 {
        let digits = nat_text((-i) as nat);
        lemma_nat_text_is_a_numeral((-i) as nat);
        let text = seq!['-'] + digits;
        assert(text[0] == '-');
        assert(text.skip(1) == digits);
    } else {
        let text = nat_text(i as nat);
        lemma_nat_text_is_a_numeral(i as nat);
        assert(ascii_digit(text[0]));
    }
}

/// Appending digits never lowers the value.
proof fn lemma_digits_value_grows(s: Seq<char>, k: int)
    requires
        all_digits(s),
        0 <= k <= s.len(),
    ensures
        0 <= digits_value(s.take(k)) <= digits_value(s),
    decreases s.len() - k,
{
    lemma_digits_value_nonnegative(s.take(k));
    if k < s.len() {
        assert(s.take(k + 1).drop_last() == s.take(k));
        assert(ascii_digit(s[k]));
        assert(all_digits(s.take(k + 1)));
        lemma_digits_value_grows(s, k + 1);
    } else {
        assert(s.take(k) == s);
    }
}

/// Digits stand for a number that is not negative.
proof fn lemma_digits_value_nonnegative(s: Seq<char>)
    requires
        all_digits(s),
    ensures
        0 <= digits_value(s),
    decreases s.len(),
{
    if s.len() > 0 {
        assert(ascii_digit(s.last()));
        assert(all_digits(s.drop_last()));
        lemma_digits_value_nonnegative(s.drop_last());
    }
}

/// The number behind one decimal digit.
fn digit_of(c: char) -> (d: u64)
    requires
        ascii_digit(c),
    ensures
        d == digit_value(c),
        d <= 9,
{
    (c as u64) - ('0' as u64)
}

/// Reads a signed decimal numeral.
pub fn parse_i64(text: &str) -> (value: Option<i64>)
    ensures
        match value {
            Some(v) => int_of_text(text@) == Some(v as int),
            None => int_of_text(text@) is None,
        },
{
    let chars = chars_of(text);
    let len = chars.len();
    let negative = len > 0 && chars[0] == '-';
    let signed = len > 0 && (chars[0] == '+' || chars[0] == '-');
    let first: usize = if signed {
        1
    } else {
        0
    };
    let ghost digits = magnitude_digits(chars@);
    assert(digits == chars@.skip(first as int));
    if first == len {
        return None;
    }
    let mut magnitude: u64 = 0;
    let mut i: usize = first;
    while i < len
        invariant
            first <= i <= len == chars.len(),
            chars@ == text@,
            digits == chars@.skip(first as int),
            digits == magnitude_digits(text@),
            all_digits(digits.take(i - first)),
            magnitude == digits_value(digits.take(i - first)),
            magnitude <= 9223372036854775808,
        decreases len - i,
    {
        let c = chars[i];
        assert(c == digits[i - first]);
        if !c.is_ascii_digit() {
            return None;
        }
        let ghost seen = digits.take(i - first + 1);
        assert(seen.drop_last() == digits.take(i - first));
        assert(all_digits(seen));
        if magnitude > 922337203685477580 {
            proof {
                if all_digits(digits) {
                    lemma_digits_value_grows(digits, i - first + 1);
                }
            }
            return None;
        }
        magnitude = 10 * magnitude + digit_of(c);
        if magnitude > 9223372036854775808 {
            proof {
                if all_digits(digits) {
                    lemma_digits_value_grows(digits, i - first + 1);
                }
            }
            return None;
        }
        i = i + 1;
    }
    assert(digits.take(len - first) == digits);
    if negative {
        if magnitude == 9223372036854775808 {
            Some(i64::MIN)
        } else {
            Some(0 - (magnitude as i64))
        }
    } else if magnitude <= 9223372036854775807 {
        Some(magnitude as i64)
    } else {
        None
    }
}

/// The decimal digit for a number below ten.
fn char_of_digit(d: u64) -> (c: char)
    requires
        d <= 9,
    ensures
        c == digit_char(d as int),
{
    ((d as u8) + 48u8) as char
}

/// Writes the decimal numeral of `i`.
pub fn i64_text(i: i64) -> (text: String)
    ensures
        text@ == int_text(i as int),
{
    let negative = i < 0;
    let start: u64 = if negative {
        ((0 - (i + 1)) as u64) + 1
    } else {
        i as u64
    };
    let mut rest: u64 = start;
    let mut reversed: Vec<char> = Vec::new();
    assert(nat_text(start as nat) + reversed@.reverse() == nat_text(start as nat));
    while rest >= 10
        invariant
            nat_text(start as nat) == nat_text(rest as nat) + reversed@.reverse(),
        decreases rest,
    {
        let digit = char_of_digit(rest % 10);
        proof {
            let ghost longer = reversed@.push(digit);
            assert(longer.reverse() == seq![digit] + reversed@.reverse());
            assert(nat_text(rest as nat) == nat_text((rest / 10) as nat).push(digit));
            assert(nat_text((rest / 10) as nat).push(digit) + reversed@.reverse() == nat_text(
                (rest / 10) as nat,
            ) + longer.reverse());
        }
        reversed.push(digit);
        rest = rest / 10;
    }
    let digit = char_of_digit(rest);
    proof {
        let ghost longer = reversed@.push(digit);
        assert(longer.reverse() == seq![digit] + reversed@.reverse());
        assert(nat_text(rest as nat) == seq![digit]);
    }
    reversed.push(digit);
    let mut text = String::new();
    if negative {
        text.push('-');
    }
    let ghost sign = text@;
    let mut left: usize = reversed.len();
    while left > 0
        invariant
            left <= reversed.len(),
            text@ == sign + reversed@.reverse().take(reversed.len() - left),
        decreases left,
    {
        left = left - 1;
        let ghost digits = reversed@.reverse();
        assert(digits.take(reversed.len() - left).drop_last() == digits.take(
            reversed.len() - left - 1,
        ));
        text.push(reversed[left]);
    }
    assert(reversed@.reverse().take(reversed.len() as int) == reversed@.reverse());
    text
}

} // verus!

//! Strings as sequences of characters: building, trimming, joining.

use crate::text::classes::whitespace;
use vstd::prelude::*;

verus! {

/// `String::push`: the character is appended at the end.
pub assume_specification[ String::push ](s: &mut String, c: char)
    ensures
        final(s)@ == old(s)@.push(c),
;

/// The number of whitespace characters that `s` begins with.
pub open spec fn leading_blanks(s: Seq<char>) -> nat
    decreases s.len(),
{
    if s.len() > 0 && whitespace(s[0]) {
        1 + leading_blanks(s.skip(1))
    } else {
        0
    }
}

/// The number of whitespace characters that `s` ends with.
pub open spec fn trailing_blanks(s: Seq<char>) -> nat
    decreases s.len(),
{
    if s.len() > 0 && whitespace(s.last()) {
        1 + trailing_blanks(s.drop_last())
    } else {
        0
    }
}

/// `s` without the whitespace at its start and at its end.
pub open spec fn trimmed(s: Seq<char>) -> Seq<char> {
    let tail = s.skip(leading_blanks(s) as int);
    tail.take(tail.len() - trailing_blanks(tail))
}

/// The parts in order, with `separator` between each two neighbours.
pub open spec fn joined(parts: Seq<Seq<char>>, separator: Seq<char>) -> Seq<char>
    decreases parts.len(),
{
    if parts.len() == 0 {
        Seq::empty()
    } else if parts.len() == 1 {
        parts[0]
    } else {
        joined(parts.drop_last(), separator) + separator + parts.last()
    }
}

/// The characters of `text`, in order.
pub fn chars_of(text: &str) -> (chars: Vec<char>)
    ensures
        chars@ == text@,
{
    let mut chars: Vec<char> = Vec::new();
    for c in it: text.chars()
        invariant
            chars@ == it.seq().take(it.index()),
    {
        chars.push(c);
    }
    chars
}

/// The string made of `chars[from..to]`.
pub fn string_of(chars: &Vec<char>, from: usize, to: usize) -> (text: String)
    requires
        from <= to <= chars.len(),
    ensures
        text@ == chars@.subrange(from as int, to as int),
{
    let mut text = String::new();
    let mut i: usize = from;
    while i < to
        invariant
            from <= i <= to <= chars.len(),
            text@ == chars@.subrange(from as int, i as int),
        decreases to - i,
    {
        text.push(chars[i]);
        i = i + 1;
    }
    text
}

/// `text` without the whitespace at its start and at its end.
pub fn trim(text: &str) -> (core: String)
    ensures
        core@ == trimmed(text@),
{
    let chars = chars_of(text);
    let len = chars.len();
    let mut start: usize = 0;
    assert(chars@.skip(0) == chars@);
    while start < len && chars[start].is_whitespace()
        invariant
            start <= len == chars.len(),
            leading_blanks(chars@) == start + leading_blanks(chars@.skip(start as int)),
        decreases len - start,
    {
        assert(chars@.skip(start as int).skip(1) == chars@.skip(start + 1));
        start = start + 1;
    }
    let ghost tail = chars@.skip(start as int);
    let mut end: usize = len;
    assert(tail.take(len - start) == tail);
    while end > start && chars[end - 1].is_whitespace()
        invariant
            start <= end <= len == chars.len(),
            tail == chars@.skip(start as int),
            trailing_blanks(tail) == (len - end) + trailing_blanks(tail.take(end - start)),
        decreases end,
    {
        assert(tail.take(end - start).drop_last() == tail.take(end - start - 1));
        end = end - 1;
    }
    assert(chars@.subrange(start as int, end as int) == tail.take(end - start));
    string_of(&chars, start, end)
}

/// The parts in order, with `separator` between each two neighbours.
pub fn join(parts: &Vec<String>, separator: &str) -> (text: String)
    ensures
        text@ == joined(parts@.map_values(|p: String| p@), separator@),
{
    let ghost views = parts@.map_values(|p: String| p@);
    let mut text = String::new();
    let mut i: usize = 0;
    while i < parts.len()
        invariant
            i <= parts.len(),
            views == parts@.map_values(|p: String| p@),
            text@ == joined(views.take(i as int), separator@),
        decreases parts.len() - i,
    {
        if i > 0 {
            text.append(separator);
        }
        text.append(parts[i].as_str());
        proof {
            assert(views.take(i + 1).drop_last() == views.take(i as int));
            assert(views.take(i + 1).last() == parts@[i as int]@);
        }
        i = i + 1;
    }
    assert(views.take(parts.len() as int) == views);
    text
}

} // verus!

//! A reader that walks once through the characters of a line.

use crate::text::strings::chars_of;
use vstd::prelude::*;

verus! {

/// The characters of a line and a place among them. Its view is what is left
/// to read.
pub struct CharCursor {
    chars: Vec<char>,
    next: usize,
}

impl View for CharCursor {
    type V = Seq<char>;

    closed spec fn view(&self) -> Seq<char> {
        self.chars@.skip(self.next as int)
    }
}

impl CharCursor {
    #[verifier::type_invariant]
    spec fn in_bounds(&self) -> bool {
        self.next <= self.chars.len()
    }

    /// A cursor in front of the first character of `text`.
    pub fn new(text: &str) -> (cursor: CharCursor)
        ensures
            cursor@ == text@,
    {
        CharCursor { chars: chars_of(text), next: 0 }
    }

    /// The character under the cursor, if any is left. The cursor stays.
    pub fn peek(&self) -> (c: Option<char>)
        ensures
            c == if self@.len() > 0 {
                Some(self@[0])
            } else {
                None
            },
    {
        proof {
            use_type_invariant(self);
        }
        if self.next < self.chars.len() {
            Some(self.chars[self.next])
        } else {
            None
        }
    }

    /// Takes the character under the cursor, if any is left, and moves past it.
    pub fn next(&mut self) -> (c: Option<char>)
        ensures
            c == if old(self)@.len() > 0 {
                Some(old(self)@[0])
            } else {
                None
            },
            final(self)@ == if old(self)@.len() > 0 {
                old(self)@.skip(1)
            } else {
                old(self)@
            },
    {
        proof {
            use_type_invariant(&*self);
        }
        if self.next < self.chars.len() {
            let c = self.chars[self.next];
            self.next = self.next + 1;
            Some(c)
        } else {
            None
        }
    }
}

} // verus!

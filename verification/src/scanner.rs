//! A cursor over the characters of a source text.
use vstd::prelude::*;
use crate::text::chars_of;

verus! {

/// The characters of a source text and the index of the next one to read.
pub struct Scanner {
    source: Vec<char>,
    current: usize,
}

impl Scanner {
    /// The characters being scanned.
    pub closed spec fn chars(&self) -> Seq<char> {
        self.source@
    }

    /// The index of the next character to read.
    pub closed spec fn pos(&self) -> nat {
        self.current as nat
    }

    /// The cursor never passes the end of the text.
    pub open spec fn valid(&self) -> bool {
        self.pos() <= self.chars().len()
    }

    #[verifier::type_invariant]
    pub open spec fn within(&self) -> bool {
        self.valid()
    }

    /// A cursor at the start of `source`.
    pub fn new(source: String) -> (r: Self)
        ensures
            r.chars() == source@,
            r.pos() == 0,
            r.valid(),
    {
        Self { source: chars_of(source.as_str()), current: 0 }
    }

    /// Whether every character was read.
    pub fn is_at_end(&self) -> (r: bool)
        ensures
            r == (self.pos() >= self.chars().len()),
    {
        self.current >= self.source.len()
    }

    /// Reads the next character, if any, and moves past it.
    pub fn advance(&mut self) -> (r: Option<char>)
        ensures
            final(self).valid(),
            final(self).chars() == old(self).chars(),
            old(self).pos() < old(self).chars().len() ==> r == Some(old(self).chars()[old(self).pos() as int])
                && final(self).pos() == old(self).pos() + 1,
            old(self).pos() >= old(self).chars().len() ==> r is None && final(self).pos() == old(self).pos(),
    {
        proof {
            use_type_invariant(&*self);
        }
        if self.current >= self.source.len() {
            return None;
        }
        let ch = self.source[self.current];
        self.current += 1;
        Some(ch)
    }

    /// The next character, if any, without moving.
    pub fn peek(&self) -> (r: Option<char>)
        ensures
            r == spec_char_at(self.chars(), self.pos() as int),
    {
        if self.is_at_end() {
            None
        } else {
            Some(self.source[self.current])
        }
    }

    /// The character after the next one, if any, without moving.
    pub fn peek_next(&self) -> (r: Option<char>)
        ensures
            r == spec_char_at(self.chars(), self.pos() + 1int),
    {
        if self.current >= self.source.len() || self.current + 1 >= self.source.len() {
            None
        } else {
            Some(self.source[self.current + 1])
        }
    }

    /// Moves past the next character when it is `expected`.
    pub fn match_char(&mut self, expected: char) -> (r: bool)
        ensures
            final(self).valid(),
            final(self).chars() == old(self).chars(),
            r == (spec_char_at(old(self).chars(), old(self).pos() as int) == Some(expected)),
            final(self).pos() == if r { old(self).pos() + 1 } else { old(self).pos() },
    {
        proof {
            use_type_invariant(&*self);
        }
        if self.current >= self.source.len() {
            return false;
        }
        if self.source[self.current] != expected {
            return false;
        }
        self.current += 1;
        true
    }
}

/// The character at index `i`, or `None` past either end.
pub open spec fn spec_char_at(s: Seq<char>, i: int) -> Option<char> {
    if 0 <= i < s.len() {
        Some(s[i])
    } else {
        None
    }
}

} // verus!

//! A cursor over the characters of a text, with one character of lookahead.
use crate::text::chars_of;
use vstd::prelude::*;

verus! {

/// A position in a text. `peek` looks at the character under the cursor
/// and `advance` steps over it; the cursor never leaves the text.
pub struct Cursor {
    chars: Vec<char>,
    pos: usize,
}

impl Cursor {
    #[verifier::type_invariant]
    spec fn in_bounds(&self) -> bool {
        self.pos <= self.chars.len()
    }

    /// The whole text, read or not.
    pub closed spec fn text(&self) -> Seq<char> {
        self.chars@
    }

    /// How many characters lie before the cursor.
    pub closed spec fn offset(&self) -> int {
        if self.pos <= self.chars.len() {
            self.pos as int
        } else {
            self.chars.len() as int
        }
    }

    /// The cursor stands in the text or at its end.
    pub proof fn lemma_offset_in_text(&self)
        ensures
            0 <= self.offset() <= self.text().len(),
    {
    }

    /// A cursor at the start of `input`.
    pub fn new(input: &str) -> (cursor: Cursor)
        ensures
            cursor.text() == input@,
            cursor.offset() == 0,
    {
        let chars = chars_of(input);
        Cursor { chars, pos: 0 }
    }

    /// The number of characters before the cursor.
    pub fn position(&self) -> (p: usize)
        ensures
            p == self.offset(),
            p <= self.text().len(),
    {
        proof {
            use_type_invariant(self);
        }
        self.pos
    }

    /// The character under the cursor, or `None` at the end of the text.
    pub fn peek(&self) -> (c: Option<char>)
        ensures
            0 <= self.offset() <= self.text().len(),
            match c {
                Some(c) => self.offset() < self.text().len() && c == self.text()[
                    self.offset()],
                None => self.offset() == self.text().len(),
            },
    {
        proof {
            use_type_invariant(self);
        }
        if self.pos < self.chars.len() {
            Some(self.chars[self.pos])
        } else {
            None
        }
    }

    /// The character `ahead` places after the one under the cursor, or
    /// `None` past the end of the text.
    pub fn peek_at(&self, ahead: usize) -> (c: Option<char>)
        ensures
            match c {
                Some(c) => self.offset() + ahead < self.text().len() && c == self.text()[
                    self.offset() + ahead],
                None => self.offset() + ahead >= self.text().len(),
            },
    {
        proof {
            use_type_invariant(self);
        }
        if ahead < self.chars.len() - self.pos {
            Some(self.chars[self.pos + ahead])
        } else {
            None
        }
    }

    /// Steps over `count` characters.
    pub fn advance(&mut self, count: usize)
        requires
            old(self).offset() + count <= old(self).text().len(),
        ensures
            final(self).text() == old(self).text(),
            final(self).offset() == old(self).offset() + count,
    {
        proof {
            use_type_invariant(&*self);
        }
        self.pos = self.pos + count;
    }

    /// Steps over the character under the cursor and returns it; at the
    /// end of the text the cursor stays and the result is `None`.
    pub fn next(&mut self) -> (c: Option<char>)
        ensures
            final(self).text() == old(self).text(),
            0 <= old(self).offset() <= final(self).offset() <= final(self).text().len(),
            match c {
                Some(c) => old(self).offset() < old(self).text().len() && c == old(self).text()[
                    old(self).offset()] && final(self).offset() == old(self).offset() + 1,
                None => old(self).offset() == old(self).text().len() && final(self).offset()
                    == old(self).offset(),
            },
    {
        proof {
            use_type_invariant(&*self);
        }
        if self.pos < self.chars.len() {
            let c = self.chars[self.pos];
            self.pos = self.pos + 1;
            Some(c)
        } else {
            None
        }
    }
}

} // verus!

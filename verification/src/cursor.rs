//! The tokenizer's position in its source: a character index together with
//! the byte offset of that character.

use vstd::prelude::*;
use crate::classify::{byte_offset, char_width, lemma_byte_offset_grows, utf8_width};

verus! {

/// A position in a source text held as characters.
#[derive(Clone, Copy, Debug, PartialEq, Eq, Structural)]
pub struct Cursor {
    /// How many characters lie before the position.
    pub index: usize,
    /// How many bytes of UTF-8 lie before the position.
    pub offset: usize,
}

/// A text whose length in bytes fits a machine word, so that every byte offset
/// into it can be held.
pub open spec fn addressable(text: Seq<char>) -> bool {
    byte_offset(text, text.len() as int) <= usize::MAX
}

impl Cursor {
    /// The cursor lies in `text`, and its byte offset is that of its index.
    pub open spec fn within(self, text: Seq<char>) -> bool {
        self.index <= text.len() && self.offset == byte_offset(text, self.index as int)
    }

    /// The position before the first character.
    pub fn start() -> (c: Cursor)
        ensures
            c.index == 0,
            c.offset == 0,
            forall|text: Seq<char>| c.within(text),
    {
        Cursor { index: 0, offset: 0 }
    }

    /// The position one character further on.
    pub fn advance(self, src: &[char]) -> (c: Cursor)
        requires
            self.within(src@),
            self.index < src@.len(),
            addressable(src@),
        ensures
            c.within(src@),
            c.index == self.index + 1,
            c.offset == self.offset + utf8_width(src@[self.index as int]),
    {
        let len: usize = src.len();
        proof {
            assert(self.index < len);
            lemma_byte_offset_grows(src@, self.index + 1, src@.len() as int);
        }
        Cursor { index: self.index + 1, offset: self.offset + char_width(src[self.index]) }
    }
}

} // verus!

//! Half-open ranges of character offsets into a source text.

use vstd::prelude::*;

verus! {

/// The characters of a text from offset `start` up to, not including, `end`.
#[derive(Clone, Copy, Debug, PartialEq, Eq, Structural)]
pub struct Span {
    pub start: usize,
    pub end: usize,
}

impl Span {
    /// The span does not run backwards and ends within a text of `len` characters.
    pub open spec fn within(self, len: int) -> bool {
        self.start <= self.end && self.end <= len
    }

    /// A cursor at `position` lies inside the span or on one of its two edges.
    pub open spec fn touches(self, position: int) -> bool {
        self.start <= position && position <= self.end
    }

    /// The part of `text` that the span selects.
    pub open spec fn slice(self, text: Seq<char>) -> Seq<char> {
        text.subrange(self.start as int, self.end as int)
    }

    pub fn new(start: usize, end: usize) -> (span: Span)
        ensures
            span == (Span { start, end }),
    {
        Span { start, end }
    }

    /// Tells whether a cursor at `position` lies inside the span or on an edge of it.
    pub fn contains(&self, position: usize) -> (inside: bool)
        ensures
            inside == self.touches(position as int),
    {
        self.start <= position && position <= self.end
    }
}

} // verus!

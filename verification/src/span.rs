use vstd::prelude::*;

verus! {

/// A half-open range `start..end` of byte offsets into the source text.
#[derive(Clone, Copy, Debug, PartialEq, Eq, Structural)]
pub struct Span {
    pub start: u32,
    pub end: u32,
}

impl Span {
    /// The empty span, carried by synthesized tokens such as end-of-input.
    pub fn empty() -> (s: Self)
        ensures
            s.start == 0,
            s.end == 0,
    {
        Span { start: 0, end: 0 }
    }

    /// The first byte offset covered by the span, widened for indexing.
    pub fn start(self) -> (r: usize)
        ensures
            r == self.start as usize,
    {
        self.start as usize
    }

    /// One past the last byte offset covered by the span, widened for indexing.
    pub fn end(self) -> (r: usize)
        ensures
            r == self.end as usize,
    {
        self.end as usize
    }
}

} // verus!

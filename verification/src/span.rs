use vstd::prelude::*;

verus! {

/// A half-open byte range `[start, end)` into the source text, together with
/// the zero-based index of the line the range begins on.
#[derive(Debug, Clone, Copy, PartialEq, Eq, Structural)]
pub struct Span {
    pub start: usize,
    pub end: usize,
    pub line: usize,
}

impl Span {
    pub fn new(start: usize, end: usize, line: usize) -> (s: Span)
        ensures
            s == (Span { start, end, line }),
    {
        Span { start, end, line }
    }

    /// The smallest span covering both `self` and `other`; the reported line
    /// is the earlier of the two.
    pub fn merge(self, other: Span) -> (s: Span)
        ensures
            s == self.spec_merge(other),
    {
        Span {
            start: if self.start <= other.start {
                self.start
            } else {
                other.start
            },
            end: if self.end >= other.end {
                self.end
            } else {
                other.end
            },
            line: if self.line <= other.line {
                self.line
            } else {
                other.line
            },
        }
    }

    pub open spec fn spec_merge(self, other: Span) -> Span {
        Span {
            start: if self.start <= other.start {
                self.start
            } else {
                other.start
            },
            end: if self.end >= other.end {
                self.end
            } else {
                other.end
            },
            line: if self.line <= other.line {
                self.line
            } else {
                other.line
            },
        }
    }
}

} // verus!

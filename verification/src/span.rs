//! Source positions.
use vstd::prelude::*;

verus! {

/// A half-open range of byte offsets in one source.
///
/// The all-zero span stands for "no source position".
#[derive(Clone, Copy, Debug, PartialEq, Eq, Structural)]
pub struct Span {
    pub source: u64,
    pub start: usize,
    pub end: usize,
}

impl Span {
    /// The span that names no source position.
    pub open spec fn dummy_spec() -> Span {
        Span { source: 0, start: 0, end: 0 }
    }

    /// The span that names no source position.
    pub fn dummy() -> (s: Span)
        ensures
            s == Span::dummy_spec(),
    {
        Span { source: 0, start: 0, end: 0 }
    }

    pub fn from_offsets(source: u64, start: usize, end: usize) -> (s: Span)
        ensures
            s == (Span { source, start, end }),
    {
        Span { source, start, end }
    }

    /// Whether this span names no source position.
    pub fn is_dummy(&self) -> (r: bool)
        ensures
            r == (*self == Span::dummy_spec()),
    {
        self.source == 0 && self.start == 0 && self.end == 0
    }
}

} // verus!

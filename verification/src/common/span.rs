//! Location information used when errors are reported in lexing, parsing and resolving stages.

use vstd::prelude::*;

verus! {

#[derive(Debug, Clone, PartialEq, Eq)]
pub struct Span {
    pub line: usize,
    pub column: usize,
    pub length: Option<usize>,
}

impl Span {
    pub fn new(line: usize, column: usize) -> (r: Self)
        ensures r == (Span { line, column, length: None }),
    {
        Span { line, column, length: None }
    }

    pub fn with_length(self, length: usize) -> (r: Self)
        ensures r == (Span { line: self.line, column: self.column, length: Some(length) }),
    {
        let mut span = self;
        span.length = Some(length);
        span
    }

    /// A copy of the span.
    pub fn copy(&self) -> (r: Span)
        ensures r == *self,
    {
        Span { line: self.line, column: self.column, length: self.length }
    }
}

} // verus!

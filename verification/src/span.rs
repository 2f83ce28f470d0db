//! Source positions and spans.
use vstd::prelude::*;

verus! {

/// A 1-based line/column position in a source file (0 means "unknown").
#[derive(Debug, PartialEq, Eq, Copy)]
pub struct Position {
    pub line: usize,
    pub column: usize,
}

impl Clone for Position {
    fn clone(&self) -> (r: Self)
        ensures
            r == *self,
    {
        *self
    }
}

/// A source range; the default span (empty file, zero positions) means
/// "no location".
#[derive(Debug, PartialEq, Eq)]
pub struct Span {
    pub file: String,
    pub start: Position,
    pub end: Position,
}

impl Clone for Span {
    fn clone(&self) -> (r: Self)
        ensures
            r == *self,
    {
        Span { file: self.file.clone(), start: self.start, end: self.end }
    }
}

impl Span {
    /// Is this the default span?
    pub open spec fn is_default(self) -> bool {
        self.file@ == Seq::<char>::empty() && self.start == (Position { line: 0, column: 0 })
            && self.end == (Position { line: 0, column: 0 })
    }

    /// The default span: no file and zero positions.
    pub fn none() -> (r: Span)
        ensures
            r.is_default(),
    {
        Span {
            file: String::new(),
            start: Position { line: 0, column: 0 },
            end: Position { line: 0, column: 0 },
        }
    }
}

impl Default for Span {
    fn default() -> (r: Span)
        ensures
            r.is_default(),
    {
        Span::none()
    }
}

} // verus!

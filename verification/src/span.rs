//! Source locations and spans.

use vstd::prelude::*;

verus! {

/// A location in the source code (1-based line and column).
#[derive(Clone, Copy, PartialEq, Eq, Debug)]
pub struct Location {
    pub line: usize,
    pub col: usize,
}

/// A span in the source code corresponding to an expression or statement.
#[derive(Clone, Copy, PartialEq, Eq, Debug)]
pub struct Span {
    pub start: Location,
    pub end: Location,
}

impl Location {
    pub fn new(line: usize, col: usize) -> (r: Self)
        ensures
            r.line == line,
            r.col == col,
    {
        Location { line, col }
    }
}

impl Span {
    pub fn new(start: Location, end: Location) -> (r: Self)
        ensures
            r.start == start,
            r.end == end,
    {
        Span { start, end }
    }
}

} // verus!

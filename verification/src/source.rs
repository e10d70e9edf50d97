//! Positions in the source text.
use vstd::prelude::*;

verus! {

/// A position (line and column) in the source text.
#[derive(Debug, Clone, Copy, PartialEq, Eq, Structural)]
pub struct Position {
    pub line: usize,
    pub column: usize,
}

impl Position {
    /// The position given to tokens that were not read from a source text.
    pub open spec fn origin() -> Position {
        Position { line: 0, column: 0 }
    }

    pub fn new(line: usize, column: usize) -> (p: Position)
        ensures
            p.line == line,
            p.column == column,
    {
        Position { line, column }
    }
}

impl Default for Position {
    fn default() -> (p: Position)
        ensures
            p == Position::origin(),
    {
        Position { line: 0, column: 0 }
    }
}

} // verus!

use vstd::prelude::*;

verus! {

/// A row/column cursor into source text. Rows start at 1; the column is 0
/// before any character of a line has been read and otherwise holds the
/// 1-based column of the character read last.
#[derive(Debug, Clone, Copy, PartialEq, Eq, Structural)]
pub struct Position {
    pub row: usize,
    pub column: usize,
}

impl Position {
    /// Builds a position from a row and a column.
    pub fn new(row: usize, column: usize) -> (p: Position)
        ensures
            p.row == row,
            p.column == column,
    {
        Position { row, column }
    }

    /// Advances the cursor one column, as reading one character does.
    pub fn next(&mut self)
        requires
            old(self).column < usize::MAX,
        ensures
            final(self).row == old(self).row,
            final(self).column == old(self).column + 1,
    {
        self.column = self.column + 1;
    }

    /// Moves the cursor to the start of the next row.
    pub fn newline(&mut self)
        requires
            old(self).row < usize::MAX,
        ensures
            final(self).row == old(self).row + 1,
            final(self).column == 0,
    {
        self.row = self.row + 1;
        self.column = 0;
    }
}

} // verus!

//! The place in a source file that the lexer has reached.
use crate::common::{Provenance, ProvenanceView};
use vstd::prelude::*;

verus! {

/// A file, a line of it, and a column counted in bytes and in grapheme clusters. Lines and
/// columns start at 1.
#[derive(Clone, Copy)]
pub struct Position {
    pub file_id: usize,
    pub line: usize,
    pub column_bytes: usize,
    pub column_graphemes: usize,
}

pub struct PositionView {
    pub file_id: int,
    pub line: int,
    pub column_bytes: int,
    pub column_graphemes: int,
}

impl View for Position {
    type V = PositionView;

    open spec fn view(&self) -> PositionView {
        PositionView {
            file_id: self.file_id as int,
            line: self.line as int,
            column_bytes: self.column_bytes as int,
            column_graphemes: self.column_graphemes as int,
        }
    }
}

impl PositionView {
    /// The start of a file.
    pub open spec fn start(file_id: int) -> PositionView {
        PositionView { file_id, line: 1, column_bytes: 1, column_graphemes: 1 }
    }

    /// Further right on the same line.
    pub open spec fn advanced(self, bytes: int, graphemes: int) -> PositionView {
        PositionView {
            column_bytes: self.column_bytes + bytes,
            column_graphemes: self.column_graphemes + graphemes,
            ..self
        }
    }

    /// The start of the next line.
    pub open spec fn next_line(self) -> PositionView {
        PositionView { line: self.line + 1, column_bytes: 1, column_graphemes: 1, ..self }
    }

    /// A stretch of `size` from here on.
    pub open spec fn provenance(self, size: int) -> ProvenanceView {
        ProvenanceView {
            file_id: self.file_id,
            line: self.line,
            column: self.column_graphemes,
            size,
        }
    }

    /// Both columns can grow by `n` and still be represented.
    pub open spec fn has_room(self, n: nat) -> bool {
        self.column_bytes + n <= usize::MAX && self.column_graphemes + n <= usize::MAX
    }

    /// From `from` to here, on one line, neither column has moved by more than `n`.
    pub open spec fn within(self, from: PositionView, n: int) -> bool {
        &&& self.file_id == from.file_id
        &&& self.line == from.line
        &&& from.column_bytes <= self.column_bytes <= from.column_bytes + n
        &&& from.column_graphemes <= self.column_graphemes <= from.column_graphemes + n
    }
}

impl Position {
    pub fn new(file_id: usize) -> (r: Self)
        ensures
            r@ == PositionView::start(file_id as int),
    {
        Self { file_id, line: 1, column_bytes: 1, column_graphemes: 1 }
    }

    pub fn as_provenance(&self, size: usize) -> (r: Provenance)
        ensures
            r@ == self@.provenance(size as int),
    {
        Provenance::new(self.file_id, self.line, self.column_graphemes, size)
    }

    /// Moves right on the same line.
    pub fn advance(&mut self, bytes: usize, graphemes: usize)
        requires
            old(self)@.column_bytes + bytes <= usize::MAX,
            old(self)@.column_graphemes + graphemes <= usize::MAX,
        ensures
            final(self)@ == old(self)@.advanced(bytes as int, graphemes as int),
    {
        self.column_bytes += bytes;
        self.column_graphemes += graphemes;
    }

    /// Moves to the start of the next line.
    pub fn advance_line(&mut self)
        requires
            old(self)@.line < usize::MAX,
        ensures
            final(self)@ == old(self)@.next_line(),
    {
        self.column_bytes = 1;
        self.column_graphemes = 1;
        self.line += 1;
    }
}

} // verus!

//! Coordinate types shared by the whole crate.
//!
//! Three coordinate spaces coexist: byte offsets into a line's encoded
//! content, grapheme-cluster indices, and display columns on the terminal.
//! `Location` is a text position (line, grapheme); `Position` is a screen
//! position (row, column); `Size` is a terminal extent.

use vstd::prelude::*;

verus! {

pub type GraphemeIdx = usize;

pub type LineIdx = usize;

pub type ByteIdx = usize;

pub type Col = usize;

pub type Row = usize;

/// Addition clamped to the `usize` range, the meaning of the saturating
/// additions the cursor and scroll arithmetic uses.
pub open spec fn sat_add(a: int, b: int) -> int {
    if a + b > usize::MAX as int {
        usize::MAX as int
    } else {
        a + b
    }
}

/// Subtraction clamped at zero, the meaning of the saturating
/// subtractions the cursor and scroll arithmetic uses.
pub open spec fn sat_sub(a: int, b: int) -> int {
    if a - b < 0 {
        0
    } else {
        a - b
    }
}

/// Division by two rounded upward.
pub open spec fn half_up(a: int) -> int {
    a / 2 + a % 2
}

/// A screen position in display space: `row` counts terminal rows from the
/// top, `col` counts display columns from the left.
#[derive(Copy, Clone, Debug, PartialEq, Eq, Structural)]
pub struct Position {
    pub col: Col,
    pub row: Row,
}

impl Position {
    /// Component-wise saturating subtraction; used to turn an absolute
    /// display position into one relative to a scroll offset.
    pub fn saturating_sub(self, other: Self) -> (r: Self)
        ensures
            r.row == if self.row >= other.row { self.row - other.row } else { 0 },
            r.col == if self.col >= other.col { self.col - other.col } else { 0 },
    {
        Self {
            row: if self.row >= other.row { self.row - other.row } else { 0 },
            col: if self.col >= other.col { self.col - other.col } else { 0 },
        }
    }
}

impl Default for Position {
    fn default() -> (r: Self)
        ensures
            r.col == 0,
            r.row == 0,
    {
        Position { col: 0, row: 0 }
    }
}

/// A terminal extent: `height` rows by `width` columns.
#[derive(Copy, Clone, Debug, PartialEq, Eq, Structural)]
pub struct Size {
    pub height: usize,
    pub width: usize,
}

impl Default for Size {
    fn default() -> (r: Self)
        ensures
            r.height == 0,
            r.width == 0,
    {
        Size { height: 0, width: 0 }
    }
}

/// A text position: line index and grapheme-cluster index within that line,
/// independent of how the text is rendered.
#[derive(Copy, Clone, Debug, PartialEq, Eq, Structural)]
pub struct Location {
    pub grapheme_idx: GraphemeIdx,
    pub line_idx: LineIdx,
}

impl Default for Location {
    fn default() -> (r: Self)
        ensures
            r.grapheme_idx == 0,
            r.line_idx == 0,
    {
        Location { grapheme_idx: 0, line_idx: 0 }
    }
}

} // verus!

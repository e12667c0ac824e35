//! What a cell of the window shows.

use vstd::prelude::*;
use crate::coord::{coord_le, coord_lt, Coord};
use crate::selection::Selection;
use crate::text::{pos, Pos, Text};

verus! {

/// What a cell of the window shows.
#[derive(Clone, Copy, Debug, PartialEq, Eq, Structural)]
pub struct Cell {
    /// The character to draw: a character of the text, the end-of-line or
    /// end-of-file mark, or nothing.
    pub glyph: Option<char>,
    /// How dark the character is drawn.
    pub weight: u8,
    /// Whether the cell is part of the selected range.
    pub underline: bool,
    /// Whether the writing guides are drawn: only while nothing is selected.
    pub guidelines: bool,
    /// Whether the ink of the carat, or of the carat that starts the range,
    /// is drawn over the cell.
    pub start_mark: bool,
    /// Whether the ink of the carat that ends the range is drawn over the
    /// cell.
    pub end_mark: bool,
}

/// The mark shown behind the last character of a line.
pub const END_OF_LINE: char = '\u{23ce}';

/// The mark shown behind the last character of the text.
pub const END_OF_FILE: char = '\u{2327}';

/// How dark a character of the text is drawn.
pub const TEXT_WEIGHT: u8 = 230;

/// How dark an end mark is drawn.
pub const MARK_WEIGHT: u8 = 80;

/// What is drawn in the cell at `p` of a text: the character stored there,
/// the end-of-file mark behind the last character of the last line, the
/// end-of-line mark behind the last character of any other line, and nothing
/// elsewhere.
pub open spec fn cell_glyph(t: Text, p: Pos) -> Option<char> {
    if 0 <= p.0 < t.len() {
        if p.1 < t[p.0].len() {
            Some(t[p.0][p.1])
        } else if p.1 == t[p.0].len() {
            if p.0 + 1 == t.len() {
                Some(END_OF_FILE)
            } else {
                Some(END_OF_LINE)
            }
        } else {
            None
        }
    } else {
        None
    }
}

/// How dark the cell at `p` of a text is drawn: a character of the text
/// darker than an end mark.
pub open spec fn cell_weight(t: Text, p: Pos) -> u8 {
    if 0 <= p.0 < t.len() && p.1 < t[p.0].len() {
        TEXT_WEIGHT
    } else if 0 <= p.0 < t.len() && p.1 == t[p.0].len() {
        MARK_WEIGHT
    } else {
        0
    }
}

/// What the cell at `coord` shows, for a text and a selection.
pub open spec fn cell_of(t: Text, selection: Selection, coord: Coord) -> Cell {
    match selection {
        Selection::Normal => Cell {
            glyph: cell_glyph(t, pos(coord)),
            weight: cell_weight(t, pos(coord)),
            underline: false,
            guidelines: true,
            start_mark: false,
            end_mark: false,
        },
        Selection::Single { carat } => Cell {
            glyph: cell_glyph(t, pos(coord)),
            weight: cell_weight(t, pos(coord)),
            underline: false,
            guidelines: false,
            start_mark: coord == carat.coord,
            end_mark: false,
        },
        Selection::Range { start, end } => Cell {
            glyph: cell_glyph(t, pos(coord)),
            weight: cell_weight(t, pos(coord)),
            underline: coord_le(start.coord, coord) && coord_lt(coord, end.coord),
            guidelines: false,
            start_mark: coord == start.coord,
            end_mark: coord == end.coord,
        },
    }
}

} // verus!

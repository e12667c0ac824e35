//! What is selected: nothing, a place, or the text between two places.

use vstd::prelude::*;
use crate::coord::{coord_le, coord_lt, lt_coord, Coord};
use crate::ink::Ink;

verus! {

/// An insertion mark: where it stands, and the ink that drew it.
#[derive(Debug)]
pub struct Carat {
    pub coord: Coord,
    pub ink: Ink,
}

impl Clone for Carat {
    /// A carat at the same place, with the same ink.
    fn clone(&self) -> (r: Carat)
        ensures
            r.coord == self.coord,
            r.ink@ == self.ink@,
    {
        Carat { coord: (self.coord.0, self.coord.1), ink: self.ink.clone() }
    }
}

/// What is selected: nothing, one place, or the text between two places.
#[derive(Debug)]
pub enum Selection {
    Normal,
    Single { carat: Carat },
    Range { start: Carat, end: Carat },
}

impl Clone for Selection {
    /// The same selection: the same places, with the same ink.
    fn clone(&self) -> (r: Selection)
        ensures
            self.alike(r),
    {
        match self {
            Selection::Normal => Selection::Normal,
            Selection::Single { carat } => Selection::Single { carat: carat.clone() },
            Selection::Range { start, end } => Selection::Range {
                start: start.clone(),
                end: end.clone(),
            },
        }
    }
}

impl Selection {
    /// Two selections that select the same, with carats of the same ink.
    pub open spec fn alike(self, other: Selection) -> bool {
        match (self, other) {
            (Selection::Normal, Selection::Normal) => true,
            (Selection::Single { carat: a }, Selection::Single { carat: b }) => a.coord == b.coord
                && a.ink@ == b.ink@,
            (Selection::Range { start: a, end: c }, Selection::Range { start: b, end: d }) => {
                &&& a.coord == b.coord
                &&& a.ink@ == b.ink@
                &&& c.coord == d.coord
                &&& c.ink@ == d.ink@
            },
            _ => false,
        }
    }

    /// A range never ends in front of its start.
    pub open spec fn wf(self) -> bool {
        self matches Selection::Range { start, end } ==> coord_le(start.coord, end.coord)
    }

    /// The selection after one more carat is placed: the first carat marks a
    /// place, the second makes a range with it, the earlier of the two in
    /// front, and a third clears the selection.
    pub open spec fn spec_place(self, carat: Carat) -> Selection {
        match self {
            Selection::Normal => Selection::Single { carat },
            Selection::Single { carat: first } => {
                if coord_lt(carat.coord, first.coord) {
                    Selection::Range { start: carat, end: first }
                } else {
                    Selection::Range { start: first, end: carat }
                }
            },
            Selection::Range { .. } => Selection::Normal,
        }
    }

    /// Places one more carat.
    pub fn place(self, carat: Carat) -> (r: Selection)
        ensures
            r == self.spec_place(carat),
            r.wf(),
    {
        match self {
            Selection::Normal => Selection::Single { carat },
            Selection::Single { carat: first } => {
                if lt_coord(carat.coord, first.coord) {
                    Selection::Range { start: carat, end: first }
                } else {
                    Selection::Range { start: first, end: carat }
                }
            },
            Selection::Range { .. } => Selection::Normal,
        }
    }

    /// The three steps of the selection: from nothing, a carat `a` selects its
    /// place; a second carat `b` selects the range between the two, which
    /// starts at the earlier and ends at the later of them; a third carat `c`
    /// selects nothing again.
    pub proof fn lemma_selection_steps(a: Carat, b: Carat, c: Carat)
        ensures
            Selection::Normal.spec_place(a) == (Selection::Single { carat: a }),
            coord_lt(b.coord, a.coord) ==> Selection::Normal.spec_place(a).spec_place(b) == (
            Selection::Range { start: b, end: a }),
            !coord_lt(b.coord, a.coord) ==> Selection::Normal.spec_place(a).spec_place(b) == (
            Selection::Range { start: a, end: b }),
            Selection::Normal.spec_place(a).spec_place(b).wf(),
            Selection::Normal.spec_place(a).spec_place(b).spec_place(c) == Selection::Normal,
    {
    }
}

impl Default for Selection {
    /// Nothing is selected.
    fn default() -> (r: Selection)
        ensures
            r == Selection::Normal,
    {
        Selection::Normal
    }
}

} // verus!

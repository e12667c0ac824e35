//! The short memory of an editing session: what was recognized where, and
//! how that memory follows the text when the text is edited.
//!
//! A cell that is written again soon after it was written was likely
//! recognized wrongly the first time. The history counts such overwrites, and
//! a record that leaves the history with overwrites gives its ink to the
//! templates.

use std::collections::VecDeque;
use vstd::prelude::*;
use crate::coord::{
    add_coord, coord_le, coord_lt, diff_coord, lt_coord, saturate, spec_shift, Coord,
};
use crate::ink::Ink;

verus! {

/// How many recognitions the session remembers.
pub const NUM_RECENT_RECOGNITIONS: usize = 16;

/// What was recognized at a cell a short while ago, and how often the cell
/// was written again since: a cell written again soon was likely recognized
/// wrongly the first time, and its ink is worth learning from.
#[derive(Debug)]
pub struct Recognition {
    pub coord: Coord,
    pub ink: Ink,
    pub best_char: char,
    pub overwrites: usize,
}

impl Clone for Recognition {
    /// The same record.
    fn clone(&self) -> (r: Recognition)
        ensures
            r.coord == self.coord,
            r.ink@ == self.ink@,
            r.best_char == self.best_char,
            r.overwrites == self.overwrites,
    {
        Recognition {
            coord: (self.coord.0, self.coord.1),
            ink: self.ink.clone(),
            best_char: self.best_char,
            overwrites: self.overwrites,
        }
    }
}

/// The record `r` after `best_char` was recognized at `coord`: a record of
/// that cell takes the new character and counts one more overwrite (the count
/// stops at `usize::MAX`); a record of another cell is as it was.
pub open spec fn corrected(r: Recognition, coord: Coord, best_char: char) -> Recognition {
    if r.coord == coord {
        Recognition {
            coord: r.coord,
            ink: r.ink,
            best_char,
            overwrites: saturate(r.overwrites + 1),
        }
    } else {
        r
    }
}

/// The history after `best_char` was recognized at `coord` from `ink`, before
/// any record leaves: every record corrected, and the new one behind them.
pub open spec fn recorded(
    history: Seq<Recognition>,
    coord: Coord,
    ink: Ink,
    best_char: char,
) -> Seq<Recognition> {
    Seq::new(history.len(), |i: int| corrected(history[i], coord, best_char)).push(
        Recognition { coord, ink, best_char, overwrites: 0 },
    )
}

/// Where a remembered cell lies after the text in `[from, old_until)` was
/// replaced by text that ends at `new_until`. A cell in front of `from`
/// stays, a cell in `[from, old_until)` is gone with the text that was taken
/// out, and a cell from `old_until` on moves with the text behind the edit:
/// it lies as far behind `new_until` as it lay behind `old_until`.
pub open spec fn remap_coord(
    c: Coord,
    from: Coord,
    old_until: Coord,
    new_until: Coord,
) -> Option<Coord> {
    if coord_lt(c, from) {
        Some(c)
    } else if coord_lt(c, old_until) {
        None
    } else {
        Some(spec_shift(c, old_until, new_until))
    }
}

/// The record `r`, at the cell `coord`.
pub open spec fn moved_to(r: Recognition, coord: Coord) -> Recognition {
    Recognition { coord, ink: r.ink, best_char: r.best_char, overwrites: r.overwrites }
}

/// The history after an edit: each record at its new cell, without those
/// whose cell is gone, in the order they had.
pub open spec fn remapped(
    history: Seq<Recognition>,
    from: Coord,
    old_until: Coord,
    new_until: Coord,
) -> Seq<Recognition>
    decreases history.len(),
{
    if history.len() == 0 {
        Seq::empty()
    } else {
        let rest = remapped(history.drop_last(), from, old_until, new_until);
        let r = history.last();
        match remap_coord(r.coord, from, old_until, new_until) {
            Some(c) => rest.push(moved_to(r, c)),
            None => rest,
        }
    }
}

/// The records of a history that `keep` holds of, in the order they had.
pub open spec fn kept(history: Seq<Recognition>, keep: spec_fn(Coord) -> bool) -> Seq<Recognition>
    decreases history.len(),
{
    if history.len() == 0 {
        Seq::empty()
    } else {
        let rest = kept(history.drop_last(), keep);
        if keep(history.last().coord) {
            rest.push(history.last())
        } else {
            rest
        }
    }
}

/// The test that holds of every cell but `coord`.
pub open spec fn except_at(coord: Coord) -> spec_fn(Coord) -> bool {
    |c: Coord| c != coord
}

/// The test that holds of `coord` and of every cell behind it.
pub open spec fn from_on(coord: Coord) -> spec_fn(Coord) -> bool {
    |c: Coord| !coord_lt(c, coord)
}

/// A history after an edit is no longer than before.
pub proof fn lemma_remapped_len(
    history: Seq<Recognition>,
    from: Coord,
    old_until: Coord,
    new_until: Coord,
)
    ensures
        remapped(history, from, old_until, new_until).len() <= history.len(),
    decreases history.len(),
{
    if history.len() > 0 {
        lemma_remapped_len(history.drop_last(), from, old_until, new_until);
    }
}

/// A history that records were dropped from is no longer than before.
pub proof fn lemma_kept_len(history: Seq<Recognition>, keep: spec_fn(Coord) -> bool)
    ensures
        kept(history, keep).len() <= history.len(),
    decreases history.len(),
{
    if history.len() > 0 {
        lemma_kept_len(history.drop_last(), keep);
    }
}

/// Writing a cell again: a record of the cell `coord` that is in the history
/// when `best_char` is recognized there takes that character and counts one
/// more overwrite, and every record of another cell is unchanged.
pub proof fn lemma_rewrite_counts(
    history: Seq<Recognition>,
    i: int,
    coord: Coord,
    ink: Ink,
    best_char: char,
)
    requires
        0 <= i < history.len(),
    ensures
        recorded(history, coord, ink, best_char).len() == history.len() + 1,
        history[i].coord == coord ==> {
            &&& recorded(history, coord, ink, best_char)[i].best_char == best_char
            &&& recorded(history, coord, ink, best_char)[i].overwrites == saturate(
                history[i].overwrites + 1,
            )
            &&& recorded(history, coord, ink, best_char)[i].overwrites > 0
            &&& recorded(history, coord, ink, best_char)[i].ink == history[i].ink
        },
        history[i].coord != coord ==> recorded(history, coord, ink, best_char)[i] == history[i],
        recorded(history, coord, ink, best_char).last().overwrites == 0,
{
}

/// An insertion moves what stands at its place. Where an edit takes nothing
/// out, a record of the cell at `at` moves to where the inserted text ends:
/// the character it is about stands there now.
pub proof fn lemma_insert_moves_start(at: Coord, new_until: Coord)
    ensures
        remap_coord(at, at, at, new_until) == Some(new_until),
{
}

/// An edit forgets what it takes out. Where an edit takes text out, a record
/// of the cell at `from` is gone, and so is every record of a cell in
/// `[from, old_until)`.
pub proof fn lemma_edit_forgets_inside(c: Coord, from: Coord, old_until: Coord, new_until: Coord)
    requires
        coord_le(from, c),
        coord_lt(c, old_until),
    ensures
        remap_coord(c, from, old_until, new_until).is_none(),
{
}

/// Writing one cell moves nothing. An edit that puts one character in place
/// of the cell at `coord` leaves every other cell where it is.
pub proof fn lemma_write_moves_nothing(c: Coord, coord: Coord)
    requires
        c != coord,
        coord.1 < usize::MAX,
    ensures
        remap_coord(c, coord, (coord.0, (coord.1 + 1) as usize), (coord.0, (coord.1 + 1) as usize))
            == Some(c),
{
}

/// A scratch forgets. After the records of the cell `coord` are dropped, no
/// record of that cell is left: what is recognized there next is a first
/// writing, not a correction.
pub proof fn lemma_except_at_forgets(history: Seq<Recognition>, coord: Coord, j: int)
    requires
        0 <= j < kept(history, except_at(coord)).len(),
    ensures
        kept(history, except_at(coord))[j].coord != coord,
    decreases history.len(),
{
    if history.len() > 0 {
        let rest = kept(history.drop_last(), except_at(coord));
        if j < rest.len() {
            lemma_except_at_forgets(history.drop_last(), coord, j);
        }
    }
}

/// The history with every record corrected for a recognition at `coord`.
pub(crate) fn correct_all(
    history: VecDeque<Recognition>,
    coord: Coord,
    best_char: char,
) -> (r: VecDeque<Recognition>)
    ensures
        r@ == Seq::new(history@.len(), |i: int| corrected(history@[i], coord, best_char)),
{
    let mut rest = history;
    let mut done: VecDeque<Recognition> = VecDeque::new();
    while rest.len() > 0
        invariant
            done@.len() + rest@.len() == history@.len(),
            rest@ == history@.subrange(done@.len() as int, history@.len() as int),
            forall|i: int|
                0 <= i < done@.len() ==> #[trigger] done@[i] == corrected(
                    history@[i],
                    coord,
                    best_char,
                ),
        decreases rest@.len(),
    {
        match rest.pop_front() {
            Some(r) => {
                let next = if r.coord.0 == coord.0 && r.coord.1 == coord.1 {
                    let overwrites: usize = if r.overwrites < usize::MAX {
                        r.overwrites + 1
                    } else {
                        usize::MAX
                    };
                    Recognition { coord: r.coord, ink: r.ink, best_char, overwrites }
                } else {
                    r
                };
                done.push_back(next);
            },
            None => {},
        }
    }
    assert(done@ =~= Seq::new(history@.len(), |i: int| corrected(history@[i], coord, best_char)));
    done
}

/// The history after the edit that replaced `[from, old_until)` by text
/// ending at `new_until`.
pub(crate) fn remap_all(
    history: VecDeque<Recognition>,
    from: Coord,
    old_until: Coord,
    new_until: Coord,
) -> (r: VecDeque<Recognition>)
    ensures
        r@ == remapped(history@, from, old_until, new_until),
{
    let mut rest = history;
    let mut done: VecDeque<Recognition> = VecDeque::new();
    let ghost mut n: int = 0;
    assert(history@.subrange(0, 0) =~= Seq::<Recognition>::empty());
    while rest.len() > 0
        invariant
            0 <= n <= history@.len(),
            n + rest@.len() == history@.len(),
            rest@ == history@.subrange(n, history@.len() as int),
            done@ == remapped(history@.subrange(0, n), from, old_until, new_until),
        decreases rest@.len(),
    {
        proof {
            assert(history@.subrange(0, n + 1).drop_last() =~= history@.subrange(0, n));
            assert(history@.subrange(0, n + 1).last() == history@[n]);
        }
        match rest.pop_front() {
            Some(r) => {
                if lt_coord(r.coord, from) {
                    done.push_back(r);
                } else if lt_coord(r.coord, old_until) {
                } else {
                    let diff = diff_coord(old_until, r.coord);
                    let coord = add_coord(new_until, diff);
                    done.push_back(
                        Recognition {
                            coord,
                            ink: r.ink,
                            best_char: r.best_char,
                            overwrites: r.overwrites,
                        },
                    );
                }
            },
            None => {},
        }
        proof {
            n = n + 1;
        }
    }
    assert(history@.subrange(0, history@.len() as int) =~= history@);
    done
}

/// `kept`, computed: with `at`, for every cell but `coord`; else for `coord`
/// and every cell behind it.
pub(crate) fn keep_all(
    history: VecDeque<Recognition>,
    at: bool,
    coord: Coord,
) -> (r: VecDeque<Recognition>)
    ensures
        at ==> r@ == kept(history@, except_at(coord)),
        !at ==> r@ == kept(history@, from_on(coord)),
{
    let mut rest = history;
    let mut done: VecDeque<Recognition> = VecDeque::new();
    let ghost mut n: int = 0;
    assert(history@.subrange(0, 0) =~= Seq::<Recognition>::empty());
    while rest.len() > 0
        invariant
            0 <= n <= history@.len(),
            n + rest@.len() == history@.len(),
            rest@ == history@.subrange(n, history@.len() as int),
            at ==> done@ == kept(history@.subrange(0, n), except_at(coord)),
            !at ==> done@ == kept(history@.subrange(0, n), from_on(coord)),
        decreases rest@.len(),
    {
        proof {
            assert(history@.subrange(0, n + 1).drop_last() =~= history@.subrange(0, n));
            assert(history@.subrange(0, n + 1).last() == history@[n]);
        }
        match rest.pop_front() {
            Some(r) => {
                let keep = if at {
                    !(r.coord.0 == coord.0 && r.coord.1 == coord.1)
                } else {
                    !lt_coord(r.coord, coord)
                };
                if keep {
                    done.push_back(r);
                }
            },
            None => {},
        }
        proof {
            n = n + 1;
        }
    }
    assert(history@.subrange(0, history@.len() as int) =~= history@);
    done
}

} // verus!

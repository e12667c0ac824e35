//! Row-major cell coordinates and the arithmetic that moves them.

use vstd::prelude::*;

verus! {

/// A cell address: `(row, column)`, ordered by row and then by column.
pub type Coord = (usize, usize);

/// The row-major order on coordinates, strict.
pub open spec fn coord_lt(a: Coord, b: Coord) -> bool {
    a.0 < b.0 || (a.0 == b.0 && a.1 < b.1)
}

/// The row-major order on coordinates.
pub open spec fn coord_le(a: Coord, b: Coord) -> bool {
    a.0 < b.0 || (a.0 == b.0 && a.1 <= b.1)
}

/// How far `until` lies behind `from`, as rows and columns: on the same row the
/// difference of the columns, otherwise the rows in between and the column
/// reached on the last of them.
pub open spec fn spec_diff_coord(from: Coord, until: Coord) -> (int, int) {
    if from.0 == until.0 {
        (0, until.1 - from.1)
    } else {
        (until.0 - from.0, until.1 as int)
    }
}

/// The coordinate reached from `base` after `diff` rows and columns, before
/// any limit of the machine is applied.
pub open spec fn spec_add_coord(base: Coord, diff: Coord) -> (int, int) {
    if diff.0 == 0 {
        (base.0 as int, base.1 + diff.1)
    } else {
        (base.0 + diff.0, diff.1 as int)
    }
}

/// `n`, held to the largest index the machine can represent.
pub open spec fn saturate(n: int) -> usize {
    if n > usize::MAX {
        usize::MAX
    } else if n < 0 {
        0usize
    } else {
        n as usize
    }
}

/// Where the coordinate `c`, at or behind `old_until`, comes to lie when what
/// stood at `old_until` now stands at `new_until`: as far behind the one as
/// it was behind the other. Each component is held to `usize::MAX`.
pub open spec fn spec_shift(c: Coord, old_until: Coord, new_until: Coord) -> Coord {
    let d = spec_diff_coord(old_until, c);
    let s = spec_add_coord(new_until, (d.0 as usize, d.1 as usize));
    (saturate(s.0), saturate(s.1))
}

/// Whether `a` comes strictly before `b` in row-major order.
pub fn lt_coord(a: Coord, b: Coord) -> (r: bool)
    ensures
        r == coord_lt(a, b),
{
    a.0 < b.0 || (a.0 == b.0 && a.1 < b.1)
}

/// Whether `a` comes before `b` in row-major order, or is `b`.
pub fn le_coord(a: Coord, b: Coord) -> (r: bool)
    ensures
        r == coord_le(a, b),
{
    a.0 < b.0 || (a.0 == b.0 && a.1 <= b.1)
}

/// The sum of two indices, held to `usize::MAX`.
pub fn add_index(a: usize, b: usize) -> (r: usize)
    ensures
        r == saturate(a + b),
{
    if b > usize::MAX - a {
        usize::MAX
    } else {
        a + b
    }
}

/// The distance from `from` to `until` in rows and columns.
pub fn diff_coord(from: Coord, until: Coord) -> (r: Coord)
    requires
        coord_le(from, until),
    ensures
        (r.0 as int, r.1 as int) == spec_diff_coord(from, until),
{
    if from.0 == until.0 {
        (0, until.1 - from.1)
    } else {
        (until.0 - from.0, until.1)
    }
}

/// The coordinate `diff` behind `base`; each component is held to `usize::MAX`.
pub fn add_coord(base: Coord, diff: Coord) -> (r: Coord)
    ensures
        r.0 == saturate(spec_add_coord(base, diff).0),
        r.1 == saturate(spec_add_coord(base, diff).1),
{
    if diff.0 == 0 {
        (base.0, add_index(base.1, diff.1))
    } else {
        (add_index(base.0, diff.0), diff.1)
    }
}

/// Moving by a difference undoes taking it: for `from <= until`,
/// `from + (until - from)` is `until`.
pub proof fn lemma_add_diff(from: Coord, until: Coord)
    requires
        coord_le(from, until),
    ensures
        ({
            let d = spec_diff_coord(from, until);
            spec_add_coord(from, (d.0 as usize, d.1 as usize)) == (until.0 as int, until.1 as int)
        }),
{
}

} // verus!

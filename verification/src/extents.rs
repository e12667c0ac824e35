//! The box around an ink.

use vstd::prelude::*;
use crate::grid::{larger, smaller};
use crate::ink::{Ink, InkView, Point};

verus! {

/// Whether the ink has a sample at place `j` of stroke `i`.
pub open spec fn in_ink(ink: InkView, i: int, j: int) -> bool {
    0 <= i < ink.len() && 0 <= j < ink[i].points.len()
}

/// Whether the ink has any sample at all.
pub open spec fn has_samples(ink: InkView) -> bool {
    exists|i: int, j: int| in_ink(ink, i, j)
}

/// The box around an ink: the least and greatest coordinate of its samples
/// along each axis.
#[derive(Clone, Copy, Debug, PartialEq, Eq, Structural)]
pub struct Extents {
    pub x_min: i32,
    pub x_max: i32,
    pub y_min: i32,
    pub y_max: i32,
}

/// Every sample among the first `i` strokes, and among the first `j` samples
/// of stroke `i`, lies in the box, and each side of the box is touched by one
/// of them.
pub open spec fn is_box_upto(ink: InkView, e: Extents, i: int, j: int) -> bool {
    &&& forall|a: int, b: int|
        in_ink(ink, a, b) && (a < i || (a == i && b < j)) ==> {
            &&& e.x_min <= (#[trigger] ink[a].points[b]).x <= e.x_max
            &&& e.y_min <= ink[a].points[b].y <= e.y_max
        }
    &&& exists|a: int, b: int|
        in_ink(ink, a, b) && (a < i || (a == i && b < j)) && (#[trigger] ink[a].points[b]).x
            == e.x_min
    &&& exists|a: int, b: int|
        in_ink(ink, a, b) && (a < i || (a == i && b < j)) && (#[trigger] ink[a].points[b]).x
            == e.x_max
    &&& exists|a: int, b: int|
        in_ink(ink, a, b) && (a < i || (a == i && b < j)) && (#[trigger] ink[a].points[b]).y
            == e.y_min
    &&& exists|a: int, b: int|
        in_ink(ink, a, b) && (a < i || (a == i && b < j)) && (#[trigger] ink[a].points[b]).y
            == e.y_max
}

/// `e` is the box around the ink: every sample lies in it, and each of its
/// sides is touched by a sample.
pub open spec fn is_box(ink: InkView, e: Extents) -> bool {
    is_box_upto(ink, e, ink.len() as int, 0)
}

/// The box around an ink that has samples.
pub open spec fn extents_of(ink: InkView) -> Extents {
    choose|e: Extents| is_box(ink, e)
}

/// An ink has one box at most.
pub proof fn lemma_box_unique(ink: InkView, e: Extents, f: Extents)
    requires
        is_box(ink, e),
        is_box(ink, f),
    ensures
        e == f,
{
}

impl Ink {
    /// The box around the ink; `None` for an ink without a sample.
    pub fn extents(&self) -> (r: Option<Extents>)
        ensures
            r.is_some() == has_samples(self@),
            r matches Some(e) ==> is_box(self@, e) && e == extents_of(self@),
    {
        let mut found: Option<Extents> = None;
        let mut i: usize = 0;
        while i < self.strokes.len()
            invariant
                i <= self.strokes.len(),
                found.is_none() ==> forall|a: int, b: int| in_ink(self@, a, b) ==> a >= i,
                found matches Some(e) ==> is_box_upto(self@, e, i as int, 0),
            decreases self.strokes.len() - i,
        {
            let stroke = &self.strokes[i];
            let mut j: usize = 0;
            while j < stroke.points.len()
                invariant
                    i < self.strokes.len(),
                    *stroke == self.strokes@[i as int],
                    j <= stroke.points.len(),
                    found.is_none() ==> forall|a: int, b: int|
                        in_ink(self@, a, b) ==> a > i || (a == i && b >= j),
                    found matches Some(e) ==> is_box_upto(self@, e, i as int, j as int),
                decreases stroke.points.len() - j,
            {
                let p = stroke.points[j];
                assert(in_ink(self@, i as int, j as int));
                assert(self@[i as int].points[j as int] == p);
                let next = match found {
                    None => Extents { x_min: p.x, x_max: p.x, y_min: p.y, y_max: p.y },
                    Some(e) => Extents {
                        x_min: if p.x < e.x_min {
                            p.x
                        } else {
                            e.x_min
                        },
                        x_max: if p.x > e.x_max {
                            p.x
                        } else {
                            e.x_max
                        },
                        y_min: if p.y < e.y_min {
                            p.y
                        } else {
                            e.y_min
                        },
                        y_max: if p.y > e.y_max {
                            p.y
                        } else {
                            e.y_max
                        },
                    },
                };
                proof {
                    lemma_box_grows(self@, found, p, next, i as int, j as int);
                }
                found = Some(next);
                j += 1;
            }
            proof {
                if let Some(e) = found {
                    lemma_box_next_stroke(self@, e, i as int, j as int);
                }
            }
            i += 1;
        }
        proof {
            match found {
                Some(e) => {
                    assert(is_box(self@, e));
                    let (a, b) = choose|a: int, b: int|
                        in_ink(self@, a, b) && (a < self@.len() || (a == self@.len() && b < 0))
                            && (#[trigger] self@[a].points[b]).x == e.x_min;
                    assert(in_ink(self@, a, b));
                    lemma_box_unique(self@, e, extents_of(self@));
                },
                None => {
                    assert(!has_samples(self@));
                },
            }
        }
        found
    }
}

/// The box around the samples seen so far, after one more sample.
proof fn lemma_box_grows(
    ink: InkView,
    found: Option<Extents>,
    p: Point,
    next: Extents,
    i: int,
    j: int,
)
    requires
        in_ink(ink, i, j),
        ink[i].points[j] == p,
        found.is_none() ==> forall|a: int, b: int|
            in_ink(ink, a, b) ==> a > i || (a == i && b >= j),
        found matches Some(e) ==> is_box_upto(ink, e, i, j),
        found.is_none() ==> next == (Extents { x_min: p.x, x_max: p.x, y_min: p.y, y_max: p.y }),
        found matches Some(e) ==> next == (Extents {
            x_min: smaller(p.x as int, e.x_min as int) as i32,
            x_max: larger(p.x as int, e.x_max as int) as i32,
            y_min: smaller(p.y as int, e.y_min as int) as i32,
            y_max: larger(p.y as int, e.y_max as int) as i32,
        }),
    ensures
        is_box_upto(ink, next, i, j + 1),
{
    match found {
        None => {
            assert(in_ink(ink, i, j) && (i < i || (i == i && j < j + 1)) && ink[i].points[j].x
                == next.x_min);
        },
        Some(e) => {
            let (a1, b1) = choose|a: int, b: int|
                in_ink(ink, a, b) && (a < i || (a == i && b < j)) && (#[trigger] ink[a].points[b]).x
                    == e.x_min;
            let (a2, b2) = choose|a: int, b: int|
                in_ink(ink, a, b) && (a < i || (a == i && b < j)) && (#[trigger] ink[a].points[b]).x
                    == e.x_max;
            let (a3, b3) = choose|a: int, b: int|
                in_ink(ink, a, b) && (a < i || (a == i && b < j)) && (#[trigger] ink[a].points[b]).y
                    == e.y_min;
            let (a4, b4) = choose|a: int, b: int|
                in_ink(ink, a, b) && (a < i || (a == i && b < j)) && (#[trigger] ink[a].points[b]).y
                    == e.y_max;
            let (c1, d1) = if p.x < e.x_min {
                (i, j)
            } else {
                (a1, b1)
            };
            let (c2, d2) = if p.x > e.x_max {
                (i, j)
            } else {
                (a2, b2)
            };
            let (c3, d3) = if p.y < e.y_min {
                (i, j)
            } else {
                (a3, b3)
            };
            let (c4, d4) = if p.y > e.y_max {
                (i, j)
            } else {
                (a4, b4)
            };
            assert(in_ink(ink, c1, d1) && (c1 < i || (c1 == i && d1 < j + 1))
                && ink[c1].points[d1].x == next.x_min);
            assert(in_ink(ink, c2, d2) && (c2 < i || (c2 == i && d2 < j + 1))
                && ink[c2].points[d2].x == next.x_max);
            assert(in_ink(ink, c3, d3) && (c3 < i || (c3 == i && d3 < j + 1))
                && ink[c3].points[d3].y == next.y_min);
            assert(in_ink(ink, c4, d4) && (c4 < i || (c4 == i && d4 < j + 1))
                && ink[c4].points[d4].y == next.y_max);
        },
    }
}

/// The box around the samples seen when a stroke is done is the box at the
/// start of the next.
proof fn lemma_box_next_stroke(ink: InkView, e: Extents, i: int, j: int)
    requires
        0 <= i < ink.len(),
        j == ink[i].points.len(),
        is_box_upto(ink, e, i, j),
    ensures
        is_box_upto(ink, e, i + 1, 0),
{
    let (a1, b1) = choose|a: int, b: int|
        in_ink(ink, a, b) && (a < i || (a == i && b < j)) && (#[trigger] ink[a].points[b]).x
            == e.x_min;
    let (a2, b2) = choose|a: int, b: int|
        in_ink(ink, a, b) && (a < i || (a == i && b < j)) && (#[trigger] ink[a].points[b]).x
            == e.x_max;
    let (a3, b3) = choose|a: int, b: int|
        in_ink(ink, a, b) && (a < i || (a == i && b < j)) && (#[trigger] ink[a].points[b]).y
            == e.y_min;
    let (a4, b4) = choose|a: int, b: int|
        in_ink(ink, a, b) && (a < i || (a == i && b < j)) && (#[trigger] ink[a].points[b]).y
            == e.y_max;
    assert(in_ink(ink, a1, b1) && (a1 < i + 1 || (a1 == i + 1 && b1 < 0)) && ink[a1].points[b1].x
        == e.x_min);
    assert(in_ink(ink, a2, b2) && (a2 < i + 1 || (a2 == i + 1 && b2 < 0)) && ink[a2].points[b2].x
        == e.x_max);
    assert(in_ink(ink, a3, b3) && (a3 < i + 1 || (a3 == i + 1 && b3 < 0)) && ink[a3].points[b3].y
        == e.y_min);
    assert(in_ink(ink, a4, b4) && (a4 < i + 1 || (a4 == i + 1 && b4 < 0)) && ink[a4].points[b4].y
        == e.y_max);
}

} // verus!

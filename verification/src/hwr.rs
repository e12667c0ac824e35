//! Handwriting recognition: learned shapes, and the nearest-neighbour search
//! that names the shape a piece of ink comes closest to.
//!
//! A shape is the normal form of an ink: an ordered sequence of points in a
//! canonical frame. Bringing ink into that form is not done here; the matcher
//! works on shapes that already are in it.

use vstd::prelude::*;
use crate::ink::{Ink, InkView};

verus! {

/// A shape: the points of a normalized ink, in order.
#[derive(Debug)]
pub struct Points {
    pub points: Vec<(i32, i32)>,
}

impl Clone for Points {
    /// A shape with the same points.
    fn clone(&self) -> (r: Points)
        ensures
            r@ == self@,
    {
        let mut points: Vec<(i32, i32)> = Vec::new();
        let mut i: usize = 0;
        while i < self.points.len()
            invariant
                i <= self.points.len(),
                points@ == self.points@.subrange(0, i as int),
            decreases self.points.len() - i,
        {
            let p = self.points[i];
            points.push((p.0, p.1));
            i += 1;
        }
        assert(self.points@.subrange(0, self.points.len() as int) =~= self.points@);
        Points { points }
    }
}

/// What a shape holds, as mathematics: its points, in order.
pub type Shape = Seq<(i32, i32)>;

impl View for Points {
    type V = Shape;

    open spec fn view(&self) -> Shape {
        self.points@
    }
}

/// The distance between two integers.
pub open spec fn gap(a: int, b: int) -> int {
    if a <= b {
        b - a
    } else {
        a - b
    }
}

/// How far two points lie apart: along the one axis plus along the other.
pub open spec fn point_distance(a: (i32, i32), b: (i32, i32)) -> int {
    gap(a.0 as int, b.0 as int) + gap(a.1 as int, b.1 as int)
}

/// The distance between two shapes with the same number of points: the sum,
/// over the positions in the sequence, of how far the two points at that
/// position lie apart.
pub open spec fn shape_distance(a: Shape, b: Shape) -> int
    recommends
        a.len() == b.len(),
    decreases a.len(),
{
    if a.len() == 0 || b.len() == 0 {
        0
    } else {
        shape_distance(a.drop_last(), b.drop_last()) + point_distance(a.last(), b.last())
    }
}

/// No shape is nearer to `query` than the one at `i`, and of those just as
/// near it comes first. Only shapes with as many points as `query` compare.
pub open spec fn is_nearest(shapes: Seq<Shape>, query: Shape, i: int) -> bool {
    &&& 0 <= i < shapes.len()
    &&& shapes[i].len() == query.len()
    &&& forall|j: int|
        0 <= j < shapes.len() && (#[trigger] shapes[j]).len() == query.len() ==> {
            &&& shape_distance(shapes[i], query) <= shape_distance(shapes[j], query)
            &&& j < i ==> shape_distance(shapes[i], query) < shape_distance(shapes[j], query)
        }
}

/// The distance of shapes is never negative, and is bounded by the number of
/// points.
pub proof fn lemma_distance_bounds(a: Shape, b: Shape)
    requires
        a.len() == b.len(),
    ensures
        0 <= shape_distance(a, b) <= a.len() * 0x2_0000_0000,
    decreases a.len(),
{
    if a.len() > 0 {
        lemma_distance_bounds(a.drop_last(), b.drop_last());
        assert(a.len() * 0x2_0000_0000 == (a.len() - 1) * 0x2_0000_0000 + 0x2_0000_0000)
            by (nonlinear_arith);
    }
}

/// No two shapes are both the nearest.
pub proof fn lemma_nearest_unique(shapes: Seq<Shape>, query: Shape, i: int, j: int)
    requires
        is_nearest(shapes, query, i),
        is_nearest(shapes, query, j),
    ensures
        i == j,
{
}

impl Points {
    /// The distance to `other`, where both have the same number of points.
    pub fn distance(&self, other: &Points) -> (d: Option<u128>)
        ensures
            self@.len() == other@.len() ==> d == Some(shape_distance(self@, other@) as u128),
            self@.len() == other@.len() ==> 0 <= shape_distance(self@, other@) <= u128::MAX,
            self@.len() != other@.len() ==> d.is_none(),
    {
        if self.points.len() != other.points.len() {
            return None;
        }
        let n: usize = self.points.len();
        let mut sum: u128 = 0;
        let mut i: usize = 0;
        assert(self@.subrange(0, 0) =~= Shape::empty());
        proof {
            lemma_distance_bounds(self@, other@);
        }
        while i < n
            invariant
                i <= n == self.points.len() == other.points.len(),
                sum == shape_distance(self@.subrange(0, i as int), other@.subrange(0, i as int)),
                sum <= i * 0x2_0000_0000,
            decreases n - i,
        {
            let a = self.points[i];
            let b = other.points[i];
            let dx: i64 = if a.0 <= b.0 {
                b.0 as i64 - a.0 as i64
            } else {
                a.0 as i64 - b.0 as i64
            };
            let dy: i64 = if a.1 <= b.1 {
                b.1 as i64 - a.1 as i64
            } else {
                a.1 as i64 - b.1 as i64
            };
            proof {
                assert(self@.subrange(0, i + 1).drop_last() =~= self@.subrange(0, i as int));
                assert(other@.subrange(0, i + 1).drop_last() =~= other@.subrange(0, i as int));
                assert((i + 1) * 0x2_0000_0000 == i * 0x2_0000_0000 + 0x2_0000_0000)
                    by (nonlinear_arith);
                assert(i * 0x2_0000_0000 <= 0xffff_ffff_ffff_ffff * 0x2_0000_0000)
                    by (nonlinear_arith)
                    requires
                        i <= 0xffff_ffff_ffff_ffff,
                ;
            }
            sum = sum + (dx as u128 + dy as u128);
            i += 1;
        }
        assert(self@.subrange(0, n as int) =~= self@);
        assert(other@.subrange(0, n as int) =~= other@);
        Some(sum)
    }
}

/// The two shapes of one ink: as it lies in its cell, for the matcher of
/// characters, and free of place and size, for the matcher of commands.
#[derive(Clone, Debug)]
pub struct Forms {
    pub cell: Points,
    pub free: Points,
}

/// A nearest-neighbour matcher: shapes, each with the character it stands for.
#[derive(Clone, Debug)]
pub struct CharRecognizer {
    pub templates: Vec<(Points, char)>,
}

impl CharRecognizer {
    /// The shapes of the matcher, in order.
    pub open spec fn shapes(&self) -> Seq<Shape> {
        Seq::new(self.templates@.len(), |i: int| self.templates@[i].0@)
    }

    /// The characters of the matcher, each for the shape at the same place.
    pub open spec fn labels(&self) -> Seq<char> {
        Seq::new(self.templates@.len(), |i: int| self.templates@[i].1)
    }

    /// What `best_match` answers.
    pub open spec fn spec_best_match(&self, query: Shape, max_distance: u128) -> Option<char> {
        if exists|i: int|
            is_nearest(self.shapes(), query, i) && shape_distance(self.shapes()[i], query)
                <= max_distance {
            let i = choose|i: int|
                is_nearest(self.shapes(), query, i) && shape_distance(self.shapes()[i], query)
                    <= max_distance;
            Some(self.labels()[i])
        } else {
            None
        }
    }

    /// The matcher over the given shapes.
    pub fn new(templates: Vec<(Points, char)>) -> (r: CharRecognizer)
        ensures
            r.templates == templates,
    {
        CharRecognizer { templates }
    }

    /// The character of the shape nearest to `query`, if that shape lies no
    /// further than `max_distance` away. Of several shapes equally near, the
    /// first counts. `None` where no shape has as many points as `query`.
    pub fn best_match(&self, query: &Points, max_distance: u128) -> (r: Option<char>)
        ensures
            r == self.spec_best_match(query@, max_distance),
            r matches Some(c) ==> exists|i: int|
                is_nearest(self.shapes(), query@, i) && shape_distance(self.shapes()[i], query@)
                    <= max_distance && c == self.labels()[i],
            r.is_none() ==> forall|i: int|
                is_nearest(self.shapes(), query@, i) ==> shape_distance(self.shapes()[i], query@)
                    > max_distance,
    {
        let ghost shapes = self.shapes();
        let mut best: Option<(usize, u128)> = None;
        let mut k: usize = 0;
        while k < self.templates.len()
            invariant
                k <= self.templates.len(),
                shapes == self.shapes(),
                best.is_none() ==> forall|j: int|
                    0 <= j < k ==> (#[trigger] shapes[j]).len() != query@.len(),
                best matches Some((i, d)) ==> {
                    &&& i < k
                    &&& d == shape_distance(shapes[i as int], query@)
                    &&& is_nearest(shapes.subrange(0, k as int), query@, i as int)
                },
            decreases self.templates.len() - k,
        {
            let found = self.templates[k].0.distance(query);
            proof {
                let upto = shapes.subrange(0, k as int);
                let next = shapes.subrange(0, k + 1);
                assert(forall|j: int| 0 <= j < k ==> upto[j] == next[j]);
                assert(next[k as int] == shapes[k as int]);
            }
            match found {
                Some(d) => {
                    let closer = match best {
                        Some((_, e)) => d < e,
                        None => true,
                    };
                    if closer {
                        best = Some((k, d));
                    }
                },
                None => {},
            }
            k += 1;
        }
        assert(shapes.subrange(0, self.templates.len() as int) =~= shapes);
        match best {
            Some((i, d)) => {
                if d <= max_distance {
                    proof {
                        let w = choose|w: int|
                            is_nearest(shapes, query@, w) && shape_distance(shapes[w], query@)
                                <= max_distance;
                        lemma_nearest_unique(shapes, query@, w, i as int);
                    }
                    Some(self.templates[i].1)
                } else {
                    proof {
                        assert forall|w: int| is_nearest(shapes, query@, w) implies shape_distance(
                            shapes[w],
                            query@,
                        ) > max_distance by {
                            lemma_nearest_unique(shapes, query@, w, i as int);
                        }
                    }
                    None
                }
            },
            None => None,
        }
    }
}

/// One learned example of a character: the ink it was written with. The
/// written form that the template file holds is made from the ink when the
/// store is saved; it is not kept beside the ink.
#[derive(Debug)]
pub struct Template {
    pub ink: Ink,
}

impl Clone for Template {
    /// A template with the same ink.
    fn clone(&self) -> (r: Template)
        ensures
            r.ink@ == self.ink@,
    {
        Template { ink: self.ink.clone() }
    }
}

impl Template {
    /// The template for `ink`.
    pub fn from_ink(ink: Ink) -> (t: Template)
        ensures
            t.ink == ink,
    {
        Template { ink }
    }
}

/// The learned examples of one character.
#[derive(Clone, Debug)]
pub struct CharTemplates {
    pub ch: char,
    pub templates: Vec<Template>,
}


impl CharTemplates {
    /// The inks of the examples, in order.
    pub open spec fn inks(&self) -> Seq<InkView> {
        Seq::new(self.templates@.len(), |i: int| self.templates@[i].ink@)
    }

    /// Empties the examples at the places in `[start, end)`. The places stay:
    /// an example keeps its column when another is taken away.
    pub fn erase_range(&mut self, start: usize, end: usize)
        ensures
            final(self).ch == old(self).ch,
            final(self).inks() == Seq::new(
                old(self).inks().len(),
                |i: int|
                    if start <= i < end {
                        InkView::empty()
                    } else {
                        old(self).inks()[i]
                    },
            ),
    {
        let mut i: usize = start;
        while i < end && i < self.templates.len()
            invariant
                start <= i,
                i == start || i <= end,
                self.ch == old(self).ch,
                self.templates@.len() == old(self).templates@.len(),
                forall|k: int|
                    0 <= k < self.templates@.len() ==> (#[trigger] self.templates@[k]).ink@ == (
                    if start <= k < i {
                        InkView::empty()
                    } else {
                        old(self).templates@[k].ink@
                    }),
            decreases self.templates.len() - i,
        {
            self.templates.set(i, Template::from_ink(Ink::new()));
            i += 1;
        }
        assert(self.inks().len() == old(self).inks().len());
        assert forall|k: int| 0 <= k < self.inks().len() implies self.inks()[k] == if start <= k
            < end {
            InkView::empty()
        } else {
            old(self).inks()[k]
        } by {
            assert(self.inks()[k] == self.templates@[k].ink@);
            assert(old(self).inks()[k] == old(self).templates@[k].ink@);
            assert(i >= end || i >= self.templates@.len());
        }
        assert(self.inks() =~= Seq::new(
            old(self).inks().len(),
            |k: int|
                if start <= k < end {
                    InkView::empty()
                } else {
                    old(self).inks()[k]
                },
        ));
    }

    /// Empties the example at place `col`, where there is one.
    pub fn erase(&mut self, col: usize)
        ensures
            final(self).ch == old(self).ch,
            final(self).inks() == Seq::new(
                old(self).inks().len(),
                |i: int|
                    if i == col {
                        InkView::empty()
                    } else {
                        old(self).inks()[i]
                    },
            ),
    {
        if col < self.templates.len() {
            self.templates.set(col, Template::from_ink(Ink::new()));
        }
        assert(self.inks() =~= Seq::new(
            old(self).inks().len(),
            |i: int|
                if i == col {
                    InkView::empty()
                } else {
                    old(self).inks()[i]
                },
        ));
    }

    /// Adds `ink` to the example at place `col`. Where the examples do not
    /// reach that far, empty ones are put in between.
    pub fn add_ink(&mut self, col: usize, ink: Ink)
        ensures
            final(self).ch == old(self).ch,
            final(self).inks().len() == if col < old(self).inks().len() {
                old(self).inks().len() as int
            } else {
                col + 1
            },
            forall|i: int|
                0 <= i < final(self).inks().len() && i != col ==> #[trigger] final(self).inks()[i]
                    == if i < old(self).inks().len() {
                    old(self).inks()[i]
                } else {
                    InkView::empty()
                },
            final(self).inks()[col as int] == if col < old(self).inks().len() {
                old(self).inks()[col as int] + ink@
            } else {
                ink@
            },
    {
        while self.templates.len() <= col
            invariant
                self.ch == old(self).ch,
                self.templates@.len() >= old(self).templates@.len(),
                old(self).templates@.len() <= col ==> self.templates@.len() <= col + 1,
                old(self).templates@.len() > col ==> self.templates@ == old(self).templates@,
                forall|k: int|
                    0 <= k < self.templates@.len() ==> (#[trigger] self.templates@[k]).ink@ == if k
                        < old(self).templates@.len() {
                        old(self).templates@[k].ink@
                    } else {
                        InkView::empty()
                    },
            decreases col + 1 - self.templates.len(),
        {
            self.templates.push(Template::from_ink(Ink::new()));
        }
        let ghost padded = self.templates@;
        let mut template = self.templates.remove(col);
        template.ink.append(ink);
        self.templates.insert(col, template);
        assert(self.templates@.len() == padded.len());
        assert(forall|k: int|
            0 <= k < padded.len() && k != col ==> self.templates@[k] == padded[k]);
        assert(self.inks()[col as int] == padded[col as int].ink@ + ink@);
        assert(InkView::empty() + ink@ =~= ink@);
    }
}

/// The command codes: cut, copy, paste and fill.
pub open spec fn is_gesture_code(c: char) -> bool {
    c == 'X' || c == 'C' || c == 'V' || c == 'S'
}

/// The labelled shapes that stand for a command, in the order they had.
pub open spec fn gesture_shapes(all: Seq<(Points, char)>) -> Seq<(Points, char)>
    decreases all.len(),
{
    if all.len() == 0 {
        Seq::empty()
    } else if is_gesture_code(all.last().1) {
        gesture_shapes(all.drop_last()).push(all.last())
    } else {
        gesture_shapes(all.drop_last())
    }
}

/// `gesture_shapes`, computed.
pub fn select_gestures(all: Vec<(Points, char)>) -> (r: Vec<(Points, char)>)
    ensures
        r@ == gesture_shapes(all@),
{
    let mut rest = all;
    let mut done: Vec<(Points, char)> = Vec::new();
    let ghost mut n: int = 0;
    assert(all@.subrange(0, 0) =~= Seq::<(Points, char)>::empty());
    while rest.len() > 0
        invariant
            0 <= n <= all@.len(),
            n + rest@.len() == all@.len(),
            rest@ == all@.subrange(n, all@.len() as int),
            done@ == gesture_shapes(all@.subrange(0, n)),
        decreases rest@.len(),
    {
        proof {
            assert(all@.subrange(0, n + 1).drop_last() =~= all@.subrange(0, n));
            assert(all@.subrange(0, n + 1).last() == all@[n]);
        }
        let item = rest.remove(0);
        assert(rest@ =~= all@.subrange(n + 1, all@.len() as int));
        if item.1 == 'X' || item.1 == 'C' || item.1 == 'V' || item.1 == 'S' {
            done.push(item);
        }
        proof {
            n = n + 1;
        }
    }
    assert(all@.subrange(0, all@.len() as int) =~= all@);
    done
}

} // verus!

//! Pen ink as the editing engine reads it: strokes of timestamped samples on
//! an integer pixel grid.

use vstd::prelude::*;

verus! {

/// One pen sample: a position in pixels and the time it was taken at.
#[derive(Clone, Copy, Debug, PartialEq, Eq, Structural)]
pub struct Point {
    pub x: i32,
    pub y: i32,
    pub t: i32,
}

/// One continuous path of the pen, from pen-down to pen-up. Two measures of
/// the path come with its samples, as the input layer took them: `length`,
/// the length of the path in pixels, and `centre`, the horizontal coordinate
/// of its centroid in pixels.
#[derive(Debug)]
pub struct Stroke {
    pub points: Vec<Point>,
    pub length: u32,
    pub centre: i32,
}

/// What a stroke holds, as mathematics.
pub struct StrokeView {
    pub points: Seq<Point>,
    pub length: int,
    pub centre: int,
}

impl View for Stroke {
    type V = StrokeView;

    open spec fn view(&self) -> StrokeView {
        StrokeView {
            points: self.points@,
            length: self.length as int,
            centre: self.centre as int,
        }
    }
}

/// The strokes written in one pen interaction. May be empty.
#[derive(Debug)]
pub struct Ink {
    pub strokes: Vec<Stroke>,
}

/// What an ink holds, as mathematics: its strokes, in order.
pub type InkView = Seq<StrokeView>;

impl View for Ink {
    type V = InkView;

    open spec fn view(&self) -> InkView {
        Seq::new(self.strokes@.len(), |i: int| self.strokes@[i]@)
    }
}

/// `n`, held to the range of a pixel coordinate.
pub open spec fn clamp_i32(n: int) -> i32 {
    if n > i32::MAX {
        i32::MAX
    } else if n < i32::MIN {
        i32::MIN
    } else {
        n as i32
    }
}

/// The samples moved `dx` pixels to the left; a coordinate that would leave
/// the pixel range stops at its edge.
pub open spec fn shift_points(points: Seq<Point>, dx: int) -> Seq<Point> {
    Seq::new(
        points.len(),
        |i: int| Point { x: clamp_i32(points[i].x - dx), y: points[i].y, t: points[i].t },
    )
}

/// A stroke moved `dx` pixels to the left: its samples and its centre move,
/// its length is unchanged.
pub open spec fn shift_stroke(stroke: StrokeView, dx: int) -> StrokeView {
    StrokeView {
        points: shift_points(stroke.points, dx),
        length: stroke.length,
        centre: clamp_i32(stroke.centre - dx) as int,
    }
}

/// Every stroke of an ink moved `dx` pixels to the left.
pub open spec fn shift_ink(ink: InkView, dx: int) -> InkView {
    Seq::new(ink.len(), |i: int| shift_stroke(ink[i], dx))
}

/// The number of samples in all strokes together.
pub open spec fn sample_count(ink: InkView) -> int
    decreases ink.len(),
{
    if ink.len() == 0 {
        0
    } else {
        sample_count(ink.drop_last()) + ink.last().points.len()
    }
}

/// The length of all strokes together.
pub open spec fn path_length(ink: InkView) -> int
    decreases ink.len(),
{
    if ink.len() == 0 {
        0
    } else {
        path_length(ink.drop_last()) + ink.last().length
    }
}

impl Clone for Stroke {
    /// A stroke with the same samples and measures.
    fn clone(&self) -> (r: Stroke)
        ensures
            r@ == self@,
    {
        let mut points: Vec<Point> = Vec::new();
        let mut i: usize = 0;
        while i < self.points.len()
            invariant
                i <= self.points.len(),
                points@ == self.points@.subrange(0, i as int),
            decreases self.points.len() - i,
        {
            points.push(self.points[i]);
            i += 1;
        }
        assert(self.points@.subrange(0, self.points.len() as int) =~= self.points@);
        Stroke { points, length: self.length, centre: self.centre }
    }
}

impl Clone for Ink {
    /// An ink with the same strokes.
    fn clone(&self) -> (r: Ink)
        ensures
            r@ == self@,
    {
        let mut strokes: Vec<Stroke> = Vec::new();
        let mut i: usize = 0;
        while i < self.strokes.len()
            invariant
                i <= self.strokes.len(),
                strokes@.len() == i,
                forall|k: int| 0 <= k < i ==> (#[trigger] strokes@[k])@ == self@[k],
            decreases self.strokes.len() - i,
        {
            strokes.push(self.strokes[i].clone());
            i += 1;
        }
        let r = Ink { strokes };
        assert(r@ =~= self@);
        r
    }
}

impl Stroke {
    /// The stroke moved `dx` pixels to the left.
    pub fn translate(&self, dx: i64) -> (r: Stroke)
        ensures
            r@ == shift_stroke(self@, dx as int),
    {
        let mut points: Vec<Point> = Vec::new();
        let mut i: usize = 0;
        while i < self.points.len()
            invariant
                i <= self.points.len(),
                points@ == shift_points(self.points@.subrange(0, i as int), dx as int),
            decreases self.points.len() - i,
        {
            let p = self.points[i];
            let x: i32 = clamp(p.x as i128 - dx as i128);
            points.push(Point { x, y: p.y, t: p.t });
            assert(points@ =~= shift_points(self.points@.subrange(0, i + 1), dx as int));
            i += 1;
        }
        assert(self.points@.subrange(0, self.points.len() as int) =~= self.points@);
        let centre: i32 = clamp(self.centre as i128 - dx as i128);
        Stroke { points, length: self.length, centre }
    }
}

/// `clamp_i32`, computed.
fn clamp(wide: i128) -> (r: i32)
    ensures
        r == clamp_i32(wide as int),
{
    if wide > i32::MAX as i128 {
        i32::MAX
    } else if wide < i32::MIN as i128 {
        i32::MIN
    } else {
        wide as i32
    }
}

impl Ink {
    /// The ink without a stroke.
    pub fn new() -> (r: Ink)
        ensures
            r@ == InkView::empty(),
    {
        let r = Ink { strokes: Vec::new() };
        assert(r@ =~= InkView::empty());
        r
    }

    /// Adds one stroke behind the others.
    pub fn push(&mut self, stroke: Stroke)
        ensures
            final(self)@ == old(self)@.push(stroke@),
    {
        self.strokes.push(stroke);
        assert(self@ =~= old(self)@.push(stroke@));
    }

    /// Adds the strokes of `other` behind the strokes of this ink.
    pub fn append(&mut self, other: Ink)
        ensures
            final(self)@ == old(self)@ + other@,
    {
        let ghost added = other@;
        let mut other = other;
        self.strokes.append(&mut other.strokes);
        assert(self@ =~= old(self)@ + added);
    }

    /// Removes every stroke.
    pub fn clear(&mut self)
        ensures
            final(self)@ == InkView::empty(),
    {
        self.strokes.clear();
        assert(self@ =~= InkView::empty());
    }

    /// The number of samples in all strokes together. A count that does not
    /// fit the machine is reported as `usize::MAX`.
    pub fn len(&self) -> (n: usize)
        ensures
            n == crate::coord::saturate(sample_count(self@)),
    {
        let mut n: usize = 0;
        let mut i: usize = 0;
        assert(self@.subrange(0, 0) =~= InkView::empty());
        while i < self.strokes.len()
            invariant
                i <= self.strokes.len(),
                n == crate::coord::saturate(sample_count(self@.subrange(0, i as int))),
                sample_count(self@.subrange(0, i as int)) >= 0,
            decreases self.strokes.len() - i,
        {
            assert(self@.subrange(0, i + 1).drop_last() =~= self@.subrange(0, i as int));
            n = crate::coord::add_index(n, self.strokes[i].points.len());
            i += 1;
        }
        assert(self@.subrange(0, self.strokes.len() as int) =~= self@);
        n
    }

    /// The ink moved `dx` pixels to the left.
    pub fn translate(&self, dx: i64) -> (r: Ink)
        ensures
            r@ == shift_ink(self@, dx as int),
    {
        let mut strokes: Vec<Stroke> = Vec::new();
        let mut i: usize = 0;
        while i < self.strokes.len()
            invariant
                i <= self.strokes.len(),
                strokes@.len() == i,
                forall|k: int|
                    0 <= k < i ==> (#[trigger] strokes@[k])@ == shift_stroke(self@[k], dx as int),
            decreases self.strokes.len() - i,
        {
            strokes.push(self.strokes[i].translate(dx));
            i += 1;
        }
        let r = Ink { strokes };
        assert(r@ =~= shift_ink(self@, dx as int));
        r
    }
}

impl Ink {
    /// The length of all strokes together, in pixels.
    pub fn ink_len(&self) -> (r: u128)
        ensures
            r == path_length(self@),
            r <= 0xffff_ffff * self@.len(),
    {
        let mut sum: u128 = 0;
        let mut i: usize = 0;
        assert(self@.subrange(0, 0) =~= InkView::empty());
        while i < self.strokes.len()
            invariant
                i <= self.strokes.len(),
                sum == path_length(self@.subrange(0, i as int)),
                sum <= 0xffff_ffff * i,
            decreases self.strokes.len() - i,
        {
            proof {
                assert(self@.subrange(0, i + 1).drop_last() =~= self@.subrange(0, i as int));
            }
            sum = sum + self.strokes[i].length as u128;
            i += 1;
        }
        assert(self@.subrange(0, self.strokes.len() as int) =~= self@);
        sum
    }
}

} // verus!

//! Dealing the strokes of an ink out to the columns of the grid.
//!
//! A stroke whose centre lies clearly inside a column belongs to that
//! column. A stroke whose centre lies near a boundary between two columns
//! could belong to either: it goes to the side that was written nearer in
//! time.

use std::collections::HashMap;
use vstd::prelude::*;
use vstd::std_specs::hash::{group_hash_axioms, into_iter_keys};
use vstd::std_specs::iter::IteratorSpec;
use vstd::arithmetic::div_mod::{
    lemma_div_nonincreasing, lemma_div_pos_is_pos, lemma_fundamental_div_mod, lemma_mod_pos_bound,
};
use crate::grid::{grid_offset, larger, nearest_cell, off_grid, round_cell, smaller};
use crate::ink::{shift_stroke, Ink, InkView, Point, Stroke, StrokeView};

verus! {

broadcast use group_hash_axioms;

/// Where a stroke lies along the row, in pixels: the horizontal coordinate
/// of its centroid, not below 0.
pub open spec fn centre_x(stroke: StrokeView) -> int {
    if stroke.centre <= 0 {
        0
    } else {
        stroke.centre
    }
}

/// The time of the earliest of some samples.
pub open spec fn min_t(points: Seq<Point>) -> int
    decreases points.len(),
{
    if points.len() == 0 {
        0
    } else if points.len() == 1 {
        points[0].t as int
    } else {
        smaller(min_t(points.drop_last()), points.last().t as int)
    }
}

/// The time of the latest of some samples.
pub open spec fn max_t(points: Seq<Point>) -> int
    decreases points.len(),
{
    if points.len() == 0 {
        0
    } else if points.len() == 1 {
        points[0].t as int
    } else {
        larger(max_t(points.drop_last()), points.last().t as int)
    }
}

impl Stroke {
    /// Where the stroke lies along the row, in pixels.
    pub fn centre(&self) -> (r: i32)
        ensures
            r == centre_x(self@),
            r >= 0,
    {
        if self.centre <= 0 {
            0
        } else {
            self.centre
        }
    }

    /// The times of the earliest and of the latest sample of the stroke.
    pub fn t_range(&self) -> (r: (i32, i32))
        ensures
            r.0 == min_t(self@.points),
            r.1 == max_t(self@.points),
    {
        if self.points.len() == 0 {
            return (0, 0);
        }
        let mut lo: i32 = self.points[0].t;
        let mut hi: i32 = self.points[0].t;
        let mut i: usize = 1;
        assert(self.points@.subrange(0, 1).len() == 1);
        while i < self.points.len()
            invariant
                1 <= i <= self.points.len(),
                lo == min_t(self.points@.subrange(0, i as int)),
                hi == max_t(self.points@.subrange(0, i as int)),
            decreases self.points.len() - i,
        {
            proof {
                assert(self.points@.subrange(0, i + 1).drop_last() =~= self.points@.subrange(
                    0,
                    i as int,
                ));
            }
            let t = self.points[i].t;
            if t < lo {
                lo = t;
            }
            if t > hi {
                hi = t;
            }
            i += 1;
        }
        assert(self.points@.subrange(0, self.points.len() as int) =~= self.points@);
        (lo, hi)
    }
}

/// Whether a stroke lies clearly inside one column: its centre is more than
/// a fifth of a cell away from every column boundary.
pub open spec fn is_settled(stroke: StrokeView, width: int) -> bool {
    5 * off_grid(centre_x(stroke), width) > width
}

/// The column that the centre of a stroke lies in.
pub open spec fn home_cell(stroke: StrokeView, width: int) -> int {
    centre_x(stroke) / width
}

/// The column boundary nearest to the centre of a stroke: the index of the
/// column to the right of it.
pub open spec fn edge_cell(stroke: StrokeView, width: int) -> int {
    round_cell(centre_x(stroke), width)
}

/// The time span in which column `col` was written, as the settled strokes
/// among the first `k` strokes of the ink show it: from the earliest sample of
/// any of them to the latest. `None` where no settled stroke lies in the
/// column.
pub open spec fn column_span(ink: InkView, width: int, col: int, k: int) -> Option<(int, int)>
    decreases k,
{
    if k <= 0 {
        None
    } else {
        let before = column_span(ink, width, col, k - 1);
        let s = ink[k - 1];
        if is_settled(s, width) && home_cell(s, width) == col {
            match before {
                None => Some((min_t(s.points), max_t(s.points))),
                Some((lo, hi)) => Some(
                    (smaller(lo, min_t(s.points)), larger(hi, max_t(s.points))),
                ),
            }
        } else {
            before
        }
    }
}

/// The column that stroke `i` of the ink is taken to belong to. A settled
/// stroke belongs to the column it lies in. A stroke near a boundary goes by
/// time: to the neighbouring column whose time span lies nearer to its own,
/// to the one neighbour that has a span where the other has none, and to the
/// column right of the boundary where neither has one. At the left edge of
/// the row there is no neighbour to the left, and the stroke belongs to
/// column 0.
pub open spec fn assigned_cell(ink: InkView, width: int, i: int) -> int {
    let s = ink[i];
    if is_settled(s, width) {
        home_cell(s, width)
    } else {
        let right = edge_cell(s, width);
        if right == 0 {
            0
        } else {
            let left = right - 1;
            match (
                column_span(ink, width, left, ink.len() as int),
                column_span(ink, width, right, ink.len() as int),
            ) {
                (None, None) => right,
                (Some(_), None) => left,
                (None, Some(_)) => right,
                (Some(l), Some(r)) => {
                    if min_t(s.points) - l.1 < r.0 - max_t(s.points) {
                        left
                    } else {
                        right
                    }
                },
            }
        }
    }
}

/// The ink of each column after the first `k` strokes were dealt out: every
/// stroke goes to its column, moved so that the left edge of the column is at
/// 0, behind the strokes that the column has already.
pub open spec fn tokens_upto(ink: InkView, width: int, k: int) -> Map<int, InkView>
    decreases k,
{
    if k <= 0 {
        Map::empty()
    } else {
        let before = tokens_upto(ink, width, k - 1);
        let c = assigned_cell(ink, width, k - 1);
        let s = shift_stroke(ink[k - 1], c * width);
        before.insert(
            c,
            if before.dom().contains(c) {
                before[c].push(s)
            } else {
                seq![s]
            },
        )
    }
}

/// The ink of each column: the strokes of the ink dealt out to the columns
/// they belong to.
pub open spec fn spec_tokenize(ink: InkView, width: int) -> Map<int, InkView> {
    tokens_upto(ink, width, ink.len() as int)
}

/// The boundary rule. A stroke whose centre is more than a fifth of a cell
/// away from every column boundary belongs to the column that its centre lies
/// in. A stroke nearer to a boundary, with settled strokes in the columns on
/// both sides, belongs to the side whose time span is nearer in time: to the
/// left where the gap between the end of the left span and its own start is
/// the smaller, else to the right.
pub proof fn lemma_boundary_rule(ink: InkView, width: int, i: int)
    requires
        0 <= i < ink.len(),
        width >= 1,
    ensures
        is_settled(ink[i], width) ==> assigned_cell(ink, width, i) == home_cell(ink[i], width),
        ({
            let s = ink[i];
            let right = edge_cell(s, width);
            let left_span = column_span(ink, width, right - 1, ink.len() as int);
            let right_span = column_span(ink, width, right, ink.len() as int);
            !is_settled(s, width) && right >= 1 && left_span.is_some() && right_span.is_some()
                ==> assigned_cell(ink, width, i) == if min_t(s.points) - left_span.unwrap().1
                < right_span.unwrap().0 - max_t(s.points) {
                right - 1
            } else {
                right
            }
        }),
{
}

/// Every stroke is dealt to the column it belongs to: the ink of that column
/// holds the stroke, moved so that the left edge of the column is at 0.
pub proof fn lemma_stroke_is_dealt(ink: InkView, width: int, i: int)
    requires
        0 <= i < ink.len(),
    ensures
        ({
            let col = assigned_cell(ink, width, i);
            let tokens = spec_tokenize(ink, width);
            tokens.dom().contains(col) && tokens[col].contains(shift_stroke(ink[i], col * width))
        }),
{
    lemma_dealt_upto(ink, width, i, ink.len() as int);
}

/// A stroke that was dealt to its column stays there while the strokes behind
/// it are dealt.
proof fn lemma_dealt_upto(ink: InkView, width: int, i: int, k: int)
    requires
        0 <= i < k <= ink.len(),
    ensures
        ({
            let col = assigned_cell(ink, width, i);
            let tokens = tokens_upto(ink, width, k);
            tokens.dom().contains(col) && tokens[col].contains(shift_stroke(ink[i], col * width))
        }),
    decreases k,
{
    let col = assigned_cell(ink, width, i);
    let moved = shift_stroke(ink[i], col * width);
    let before = tokens_upto(ink, width, k - 1);
    let c = assigned_cell(ink, width, k - 1);
    let s = shift_stroke(ink[k - 1], c * width);
    if i == k - 1 {
        if before.dom().contains(c) {
            assert(before[c].push(s).last() == moved);
        } else {
            assert(seq![s][0] == moved);
        }
    } else {
        lemma_dealt_upto(ink, width, i, k - 1);
        if c == col {
            let j = choose|j: int| 0 <= j < before[col].len() && before[col][j] == moved;
            assert(before[col].push(s)[j] == moved);
        }
    }
}

/// The ink of one column, with the left edge of the column at 0.
#[derive(Clone, Debug)]
pub struct Token {
    pub col: usize,
    pub ink: Ink,
}

/// The tokens stand in the order of their columns, one token to a column.
pub open spec fn tokens_sorted(tokens: Seq<Token>) -> bool {
    forall|i: int, j: int| 0 <= i < j < tokens.len() ==> tokens[i].col < tokens[j].col
}

/// Whether `i` is the place of the token for column `col`.
pub open spec fn is_token_of(tokens: Seq<Token>, col: int, i: int) -> bool {
    0 <= i < tokens.len() && tokens[i].col == col
}

/// What the tokens hold, as a mapping from column to ink.
pub open spec fn tokens_map(tokens: Seq<Token>) -> Map<int, InkView> {
    Map::new(
        |col: int| exists|i: int| is_token_of(tokens, col, i),
        |col: int| tokens[choose|i: int| is_token_of(tokens, col, i)].ink@,
    )
}

/// The ink that the tokens hold for column `col`: none where they have no
/// token for it.
pub open spec fn ink_for(tokens: Map<int, InkView>, col: int) -> InkView {
    if tokens.dom().contains(col) {
        tokens[col]
    } else {
        Seq::empty()
    }
}

/// A token is found under its column.
pub proof fn lemma_token_lookup(tokens: Seq<Token>, i: int)
    requires
        tokens_sorted(tokens),
        0 <= i < tokens.len(),
    ensures
        tokens_map(tokens).dom().contains(tokens[i].col as int),
        tokens_map(tokens)[tokens[i].col as int] == tokens[i].ink@,
{
    let col = tokens[i].col as int;
    assert(is_token_of(tokens, col, i));
    let k = choose|k: int| is_token_of(tokens, col, k);
    assert(k == i);
}

/// What one more token adds to the tokens in front of it.
pub proof fn lemma_token_step(tokens: Seq<Token>, n: int)
    requires
        tokens_sorted(tokens),
        0 <= n < tokens.len(),
    ensures
        forall|c: int| #[trigger]
            ink_for(tokens_map(tokens.subrange(0, n + 1)), c) == if c == tokens[n].col {
                tokens[n].ink@
            } else {
                ink_for(tokens_map(tokens.subrange(0, n)), c)
            },
        forall|c: int| #[trigger]
            tokens_map(tokens.subrange(0, n + 1)).dom().contains(c) == (c == tokens[n].col
                || tokens_map(tokens.subrange(0, n)).dom().contains(c)),
        !tokens_map(tokens.subrange(0, n)).dom().contains(tokens[n].col as int),
        forall|c: int| #[trigger]
            tokens_map(tokens.subrange(0, n)).dom().contains(c) ==> c < tokens[n].col,
{
    let short = tokens.subrange(0, n);
    let long = tokens.subrange(0, n + 1);
    assert(tokens_sorted(short));
    assert(tokens_sorted(long));
    assert forall|c: int| #[trigger]
        tokens_map(short).dom().contains(c) implies c < tokens[n].col by {
        let i = choose|i: int| is_token_of(short, c, i);
        assert(short[i] == tokens[i]);
    }
    assert forall|c: int| #[trigger]
        tokens_map(long).dom().contains(c) == (c == tokens[n].col || tokens_map(
            short,
        ).dom().contains(c)) by {
        if tokens_map(long).dom().contains(c) {
            let i = choose|i: int| is_token_of(long, c, i);
            if i < n {
                assert(is_token_of(short, c, i));
            }
        }
        if tokens_map(short).dom().contains(c) {
            let i = choose|i: int| is_token_of(short, c, i);
            assert(is_token_of(long, c, i));
        }
        if c == tokens[n].col {
            assert(is_token_of(long, c, n));
        }
    }
    assert forall|c: int| #[trigger]
        ink_for(tokens_map(long), c) == if c == tokens[n].col {
            tokens[n].ink@
        } else {
            ink_for(tokens_map(short), c)
        } by {
        if tokens_map(long).dom().contains(c) {
            let i = choose|i: int| is_token_of(long, c, i);
            lemma_token_lookup(long, i);
            if i < n {
                lemma_token_lookup(short, i);
            }
        }
    }
}

/// What a map from column to ink holds, as mathematics.
pub open spec fn tokens_of(m: Map<usize, Ink>) -> Map<int, InkView> {
    Map::new(
        |col: int| 0 <= col <= usize::MAX && m.dom().contains(col as usize),
        |col: int| m[col as usize]@,
    )
}

/// Gives one more stroke to the ink of column `col`, which is made where
/// there is none yet.
pub(crate) fn add_stroke(tokens: &mut HashMap<usize, Ink>, col: usize, stroke: Stroke)
    ensures
        tokens_of(final(tokens)@) == tokens_of(old(tokens)@).insert(
            col as int,
            if tokens_of(old(tokens)@).dom().contains(col as int) {
                tokens_of(old(tokens)@)[col as int].push(stroke@)
            } else {
                seq![stroke@]
            },
        ),
        final(tokens)@.dom().contains(col),
{
    let mut ink = match tokens.remove(&col) {
        Some(ink) => ink,
        None => Ink::new(),
    };
    ink.push(stroke);
    tokens.insert(col, ink);
    proof {
        let before = tokens_of(old(tokens)@);
        let target = before.insert(
            col as int,
            if before.dom().contains(col as int) {
                before[col as int].push(stroke@)
            } else {
                seq![stroke@]
            },
        );
        assert(InkView::empty().push(stroke@) =~= seq![stroke@]);
        assert(tokens_of(tokens@) =~= target);
    }
}

/// The least column that the map has ink for.
fn first_column(tokens: &HashMap<usize, Ink>) -> (r: Option<usize>)
    ensures
        r.is_none() == (tokens@.dom().len() == 0),
        r matches Some(k) ==> tokens@.dom().contains(k) && forall|j: usize|
            tokens@.dom().contains(j) ==> k <= j,
{
    let mut best: Option<usize> = None;
    let keys = tokens.keys();
    let ghost all: Seq<usize> = into_iter_keys(keys);
    let ghost mut done: int = 0;
    for k in it: keys
        invariant
            it.seq().unref() == all,
            all.to_set() == tokens@.dom(),
            all.len() == tokens@.dom().len(),
            done == it.index(),
            best.is_none() == (done == 0),
            best matches Some(b) ==> (exists|j: int| 0 <= j < done && all[j] == b) && forall|j: int|
                0 <= j < done ==> b <= all[j],
    {
        proof {
            assert(all[done] == *it.seq()[done]);
            done = done + 1;
        }
        best = match best {
            Some(b) => if *k < b {
                Some(*k)
            } else {
                Some(b)
            },
            None => Some(*k),
        };
    }
    proof {
        if let Some(b) = best {
            let j = choose|j: int| 0 <= j < done && all[j] == b;
            assert(all.to_set().contains(b));
            assert forall|c: usize| tokens@.dom().contains(c) implies b <= c by {
                assert(all.to_set().contains(c));
                let q = choose|q: int| 0 <= q < all.len() && all[q] == c;
            }
        }
    }
    best
}

/// The inks of a map from column to ink, as tokens in the order of their
/// columns.
pub fn sorted_tokens(tokens: HashMap<usize, Ink>) -> (r: Vec<Token>)
    ensures
        tokens_sorted(r@),
        tokens_map(r@) == tokens_of(tokens@),
        r@.len() == tokens@.dom().len(),
{
    let mut rest = tokens;
    let mut list: Vec<Token> = Vec::new();
    loop
        invariant
            tokens_sorted(list@),
            rest@.dom().finite(),
            list@.len() + rest@.dom().len() == tokens@.dom().len(),
            forall|i: int, k: usize|
                0 <= i < list@.len() && #[trigger] rest@.dom().contains(k) ==> (
                #[trigger] list@[i]).col < k,
            forall|k: usize| #[trigger]
                rest@.dom().contains(k) ==> tokens@.dom().contains(k) && rest@[k] == tokens@[k],
            forall|i: int|
                0 <= i < list@.len() ==> tokens@.dom().contains((#[trigger] list@[i]).col)
                    && list@[i].ink == tokens@[list@[i].col] && !rest@.dom().contains(list@[i].col),
            forall|k: usize| #[trigger]
                tokens@.dom().contains(k) ==> rest@.dom().contains(k) || exists|i: int|
                    is_token_of(list@, k as int, i),
        ensures
            tokens_sorted(list@),
            rest@.dom().len() == 0,
            list@.len() == tokens@.dom().len(),
            forall|i: int|
                0 <= i < list@.len() ==> tokens@.dom().contains((#[trigger] list@[i]).col)
                    && list@[i].ink == tokens@[list@[i].col],
            forall|k: usize| #[trigger]
                tokens@.dom().contains(k) ==> exists|i: int| is_token_of(list@, k as int, i),
        decreases rest@.dom().len(),
    {
        match first_column(&rest) {
            None => {
                assert forall|k: usize| #[trigger] tokens@.dom().contains(k) implies exists|i: int|
                    is_token_of(list@, k as int, i) by {
                    assert(!rest@.dom().contains(k));
                }
                break ;
            },
            Some(col) => {
                let ghost before = rest@;
                let ghost listed = list@;
                match rest.remove(&col) {
                    Some(ink) => {
                        list.push(Token { col, ink });
                        proof {
                            assert(rest@.dom() =~= before.dom().remove(col));
                            assert forall|k: usize| #[trigger]
                                tokens@.dom().contains(k) implies rest@.dom().contains(k)
                                || exists|i: int| is_token_of(list@, k as int, i) by {
                                if k == col {
                                    assert(is_token_of(list@, k as int, listed.len() as int));
                                } else if !before.dom().contains(k) {
                                    let i = choose|i: int| is_token_of(listed, k as int, i);
                                    assert(is_token_of(list@, k as int, i));
                                }
                            }
                        }
                    },
                    None => {
                        assert(false);
                    },
                }
            },
        }
    }
    proof {
        let target = tokens_of(tokens@);
        assert forall|c: int| #[trigger]
            tokens_map(list@).dom().contains(c) == target.dom().contains(c) by {
            if tokens_map(list@).dom().contains(c) {
                let i = choose|i: int| is_token_of(list@, c, i);
                assert(tokens@.dom().contains(list@[i].col));
            }
            if target.dom().contains(c) {
                assert(tokens@.dom().contains(c as usize));
            }
        }
        assert forall|c: int| tokens_map(list@).dom().contains(c) implies #[trigger]
            tokens_map(list@)[c] == target[c] by {
            let i = choose|i: int| is_token_of(list@, c, i);
            lemma_token_lookup(list@, i);
        }
        assert(tokens_map(list@) =~= target);
    }
    list
}

/// Where a stroke lies in the grid: whether it is settled, the column its
/// centre lies in, and the column right of the boundary nearest to it.
fn place_of(stroke: &Stroke, width: i32) -> (r: (bool, i64, i64))
    requires
        width >= 1,
    ensures
        r.0 == is_settled(stroke@, width as int),
        r.1 == home_cell(stroke@, width as int),
        r.2 == edge_cell(stroke@, width as int),
        0 <= r.1 <= 0x7fff_ffff,
        0 <= r.2 <= 0x8000_0000,
        r.1 * width <= 0x7fff_ffff,
        r.2 * width <= 0xffff_ffff,
{
    let c: i64 = stroke.centre() as i64;
    let w: i64 = width as i64;
    let off: i64 = grid_offset(c, w);
    let edge: i64 = nearest_cell(c, w);
    proof {
        lemma_div_nonincreasing(c as int, w as int);
        lemma_div_pos_is_pos(c as int, w as int);
        lemma_mod_pos_bound(c as int, w as int);
        lemma_fundamental_div_mod(c as int, w as int);
        assert((c / w) * w <= c) by (nonlinear_arith)
            requires
                c == w * (c / w) + (c % w),
                0 <= c % w,
        ;
        assert((c / w + 1) * w == (c / w) * w + w) by (nonlinear_arith);
    }
    (5 * off > w, c / w, edge)
}

/// A time span, as unbounded integers.
pub open spec fn span_view(span: Option<(i32, i32)>) -> Option<(int, int)> {
    match span {
        Some(t) => Some((t.0 as int, t.1 as int)),
        None => None,
    }
}

/// `column_span` over all strokes, computed.
fn span_of(ink: &Ink, width: i32, col: i64) -> (r: Option<(i32, i32)>)
    requires
        width >= 1,
    ensures
        span_view(r) == column_span(ink@, width as int, col as int, ink@.len() as int),
{
    let mut span: Option<(i32, i32)> = None;
    let mut k: usize = 0;
    while k < ink.strokes.len()
        invariant
            k <= ink.strokes.len(),
            width >= 1,
            span_view(span) == column_span(ink@, width as int, col as int, k as int),
        decreases ink.strokes.len() - k,
    {
        let stroke = &ink.strokes[k];
        assert(ink@[k as int] == stroke@);
        let place = place_of(stroke, width);
        if place.0 && place.1 == col {
            let t = stroke.t_range();
            span = match span {
                None => Some(t),
                Some((lo, hi)) => Some(
                    (
                        if lo <= t.0 {
                            lo
                        } else {
                            t.0
                        },
                        if hi >= t.1 {
                            hi
                        } else {
                            t.1
                        },
                    ),
                ),
            };
        }
        k += 1;
    }
    span
}

/// `assigned_cell`, computed.
pub(crate) fn assign(ink: &Ink, width: i32, i: usize) -> (col: i64)
    requires
        width >= 1,
        i < ink.strokes.len(),
    ensures
        col == assigned_cell(ink@, width as int, i as int),
        0 <= col <= 0x8000_0000,
        col * width <= 0xffff_ffff,
{
    let stroke = &ink.strokes[i];
    assert(ink@[i as int] == stroke@);
    let place = place_of(stroke, width);
    if place.0 {
        place.1
    } else {
        let right: i64 = place.2;
        if right == 0 {
            0
        } else {
            let left: i64 = right - 1;
            assert(left * width <= right * width) by (nonlinear_arith)
                requires
                    left <= right,
                    width >= 1,
            ;
            let left_span = span_of(ink, width, left);
            let right_span = span_of(ink, width, right);
            let t = stroke.t_range();
            match (left_span, right_span) {
                (None, None) => right,
                (Some(_), None) => left,
                (None, Some(_)) => right,
                (Some(l), Some(r)) => {
                    if (t.0 as i64) - (l.1 as i64) < (r.0 as i64) - (t.1 as i64) {
                        left
                    } else {
                        right
                    }
                },
            }
        }
    }
}

} // verus!

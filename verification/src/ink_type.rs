//! What a piece of ink means: a strike through text, a scratch over a cell, a
//! carat between two cells, characters to be recognized, or nothing.

use std::collections::HashMap;
use vstd::prelude::*;
use vstd::std_specs::hash::group_hash_axioms;
use vstd::arithmetic::div_mod::{lemma_div_is_ordered_by_denominator, lemma_div_pos_is_pos};
use crate::grid::{
    grid_offset, larger, lemma_round_cell_monotone, nearest_cell, off_grid, round_cell,
};
use crate::extents::{extents_of, has_samples, in_ink, Extents};
use crate::ink::{path_length, shift_ink, Ink, InkView};
use crate::metrics::Metrics;
use crate::tokenizer::{add_stroke, assign, spec_tokenize, tokens_of, tokens_upto};

verus! {

broadcast use group_hash_axioms;

/// What a piece of ink means.
#[derive(Clone, Debug)]
pub enum InkType {
    /// A line through the text of columns `[start, end)`: take it out.
    Strikethrough { start: usize, end: usize },
    /// A scratch over the cell of column `col`: blank it.
    Scratch { col: usize },
    /// One or more characters: the ink of each column that was written in.
    Glyphs { tokens: HashMap<usize, Ink> },
    /// An upright line on the boundary in front of column `col`: an insertion
    /// mark. The ink is given with that boundary at 0.
    Carat { col: usize, ink: Ink },
    /// None of these.
    Junk,
}

/// What an `InkType` holds, as mathematics.
pub enum InkTypeView {
    Strikethrough { start: int, end: int },
    Scratch { col: int },
    Glyphs { tokens: Map<int, InkView> },
    Carat { col: int, ink: InkView },
    Junk,
}

impl View for InkType {
    type V = InkTypeView;

    open spec fn view(&self) -> InkTypeView {
        match *self {
            InkType::Strikethrough { start, end } => InkTypeView::Strikethrough {
                start: start as int,
                end: end as int,
            },
            InkType::Scratch { col } => InkTypeView::Scratch { col: col as int },
            InkType::Glyphs { tokens } => InkTypeView::Glyphs { tokens: tokens_of(tokens@) },
            InkType::Carat { col, ink } => InkTypeView::Carat { col: col as int, ink: ink@ },
            InkType::Junk => InkTypeView::Junk,
        }
    }
}

/// Whether the centre of an ink lies within three tenths of a cell of a
/// column boundary that is not left of the row. `twice` is the sum of the
/// least and the greatest horizontal coordinate, twice the centre.
pub open spec fn near_boundary(twice: int, width: int) -> bool {
    if twice >= 0 {
        5 * off_grid(twice, 2 * width) < 3 * width
    } else {
        5 * (-twice) < 3 * width
    }
}

/// Whether an ink is dense enough to be a scratch: its length is at least a
/// fifth of the area of its box, which counts as 500 square pixels at least.
pub open spec fn is_dense(length: int, e: Extents) -> bool {
    5 * length >= larger((e.x_max - e.x_min) * (e.y_max - e.y_min), 500)
}

/// What an ink means on a grid of cells `width` pixels wide and `height`
/// pixels high. The rules, in order:
///
/// 1. An ink without a sample is junk.
/// 2. A single stroke more than one and a half cells wide is a strike through
///    the columns from its left end to its right end, each rounded to the
///    nearest boundary, if it is less than 1.2 times as long as wide. If it
///    is longer, it is junk.
/// 3. An ink at least nine tenths of a cell high and less than three tenths
///    of a cell wide, whose centre lies within three tenths of a cell of a
///    boundary, is a carat on that boundary.
/// 4. An ink whose centre lies left of the row is junk.
/// 5. A dense ink is a scratch over the column its centre lies in.
/// 6. Anything else is characters, dealt out to their columns.
pub open spec fn spec_classify(ink: InkView, width: int, height: int) -> InkTypeView {
    if !has_samples(ink) {
        InkTypeView::Junk
    } else {
        let e = extents_of(ink);
        let wide = e.x_max - e.x_min;
        let high = e.y_max - e.y_min;
        let twice = e.x_min + e.x_max;
        if 2 * wide > 3 * width && ink.len() == 1 {
            if 5 * path_length(ink) < 6 * wide {
                InkTypeView::Strikethrough {
                    start: round_cell(e.x_min as int, width),
                    end: round_cell(e.x_max as int, width),
                }
            } else {
                InkTypeView::Junk
            }
        } else if 10 * high >= 9 * height && 10 * wide < 3 * width && near_boundary(twice, width) {
            let col = round_cell(twice, 2 * width);
            InkTypeView::Carat { col, ink: shift_ink(ink, col * width) }
        } else if twice < 0 {
            InkTypeView::Junk
        } else if is_dense(path_length(ink), e) {
            InkTypeView::Scratch { col: twice / (2 * width) }
        } else {
            InkTypeView::Glyphs { tokens: spec_tokenize(ink, width) }
        }
    }
}

/// Whether the ink is a scratch-out by its density: `is_dense` of its length
/// and its box. An ink without a sample has no box, and is no scratch.
pub fn is_erase(ink: &Ink) -> (r: bool)
    ensures
        r == (has_samples(ink@) && is_dense(path_length(ink@), extents_of(ink@))),
{
    match ink.extents() {
        None => false,
        Some(e) => {
            let length: u128 = ink.ink_len();
            dense(length, e)
        },
    }
}

/// `is_dense`, computed.
fn dense(length: u128, e: Extents) -> (r: bool)
    requires
        e.x_min <= e.x_max,
        e.y_min <= e.y_max,
    ensures
        r == is_dense(length as int, e),
{
    let wide: i128 = e.x_max as i128 - e.x_min as i128;
    let high: i128 = e.y_max as i128 - e.y_min as i128;
    assert(0 <= wide * high <= 0xffff_ffff * 0xffff_ffff) by (nonlinear_arith)
        requires
            0 <= wide <= 0xffff_ffff,
            0 <= high <= 0xffff_ffff,
    ;
    let area: u128 = (wide * high) as u128;
    let floor: u128 = if area >= 500 {
        area
    } else {
        500
    };
    if length > u128::MAX / 5 {
        true
    } else {
        5 * length >= floor
    }
}

impl InkType {
    /// Deals the strokes of an ink out to the columns they belong to: the
    /// ink of each column that a stroke belongs to.
    pub fn tokenize(metrics: &Metrics, ink: &Ink) -> (tokens: HashMap<usize, Ink>)
        ensures
            tokens_of(tokens@) == spec_tokenize(ink@, metrics.spec_width()),
            ink@.len() >= 1 ==> tokens@.dom().len() >= 1,
    {
        let width: i32 = metrics.width();
        let mut tokens: HashMap<usize, Ink> = HashMap::new();
        let mut i: usize = 0;
        assert(tokens_of(tokens@) =~= Map::<int, InkView>::empty());
        while i < ink.strokes.len()
            invariant
                i <= ink.strokes.len(),
                width >= 1,
                tokens_of(tokens@) == tokens_upto(ink@, width as int, i as int),
                tokens@.dom().finite(),
                i >= 1 ==> tokens@.dom().len() >= 1,
            decreases ink.strokes.len() - i,
        {
            let col: i64 = assign(ink, width, i);
            assert(ink@[i as int] == ink.strokes@[i as int]@);
            let moved = ink.strokes[i].translate(col * (width as i64));
            add_stroke(&mut tokens, col as usize, moved);
            proof {
                if tokens@.dom().len() == 0 {
                    assert(tokens@.dom() =~= Set::<usize>::empty());
                }
            }
            i += 1;
        }
        tokens
    }

    /// What the ink means on the grid.
    pub fn classify(metrics: &Metrics, ink: Ink) -> (r: InkType)
        ensures
            r@ == spec_classify(ink@, metrics.spec_width(), metrics.spec_height()),
            r matches InkType::Glyphs { tokens } ==> tokens@.dom().len() >= 1,
            r matches InkType::Strikethrough { start, end } ==> start <= end,
    {
        let e = match ink.extents() {
            None => {
                return InkType::Junk;
            },
            Some(e) => e,
        };
        let w: i64 = metrics.width() as i64;
        let h: i64 = metrics.height() as i64;
        let wide: i64 = e.x_max as i64 - e.x_min as i64;
        let high: i64 = e.y_max as i64 - e.y_min as i64;
        let twice: i64 = e.x_min as i64 + e.x_max as i64;
        let length: u128 = ink.ink_len();
        assert(ink@.len() == ink.strokes.len());
        assert(length <= 0xffff_ffff * 0xffff_ffff_ffff_ffff) by (nonlinear_arith)
            requires
                length <= 0xffff_ffff * ink@.len(),
                ink@.len() <= 0xffff_ffff_ffff_ffff,
        ;
        proof {
            let (a, b) = choose|a: int, b: int|
                in_ink(ink@, a, b) && (a < ink@.len() || (a == ink@.len() && b < 0))
                    && (#[trigger] ink@[a].points[b]).x == e.x_min;
            assert(e.x_min <= e.x_max && e.y_min <= e.y_max);
            assert(ink@.len() >= 1);
        }
        if 2 * wide > 3 * w && ink.strokes.len() == 1 {
            if 5 * (length as i128) < 6 * (wide as i128) {
                let start: i64 = nearest_cell(e.x_min as i64, w);
                let end: i64 = nearest_cell(e.x_max as i64, w);
                proof {
                    lemma_round_cell_monotone(e.x_min as int, e.x_max as int, w as int);
                }
                return InkType::Strikethrough { start: start as usize, end: end as usize };
            } else {
                return InkType::Junk;
            }
        }
        let near = if twice >= 0 {
            5 * grid_offset(twice, 2 * w) < 3 * w
        } else {
            5 * (-twice) < 3 * w
        };
        if 10 * high >= 9 * h && 10 * wide < 3 * w && near {
            let col: i64 = nearest_cell(twice, 2 * w);
            proof {
                if twice > 0 {
                    lemma_div_is_ordered_by_denominator(twice as int, 2, 2 * w);
                    lemma_div_pos_is_pos(twice as int, 2 * w);
                }
                assert(0 <= col <= 0x8000_0000);
                assert(col * w <= 0x8000_0000 * 0x7fff_ffff) by (nonlinear_arith)
                    requires
                        0 <= col <= 0x8000_0000,
                        1 <= w <= 0x7fff_ffff,
                ;
            }
            let moved = ink.translate(col * w);
            return InkType::Carat { col: col as usize, ink: moved };
        }
        if twice < 0 {
            return InkType::Junk;
        }
        if dense(length, e) {
            proof {
                lemma_div_is_ordered_by_denominator(twice as int, 2, 2 * w);
                lemma_div_pos_is_pos(twice as int, 2 * w);
            }
            return InkType::Scratch { col: (twice / (2 * w)) as usize };
        }
        InkType::Glyphs { tokens: InkType::tokenize(metrics, &ink) }
    }
}

} // verus!

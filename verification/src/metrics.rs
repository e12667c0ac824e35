//! The measures of the writing grid.

use vstd::prelude::*;

verus! {

/// The height of the screen, in pixels.
pub const SCREEN_HEIGHT: i32 = 1872;

/// The width of the screen, in pixels.
pub const SCREEN_WIDTH: i32 = 1404;

/// The margin kept free above and below the grid, in pixels.
pub const TOP_MARGIN: i32 = 100;

/// The margin kept free left and right of the grid, in pixels.
pub const LEFT_MARGIN: i32 = 100;

/// The measures of one grid: the size of a cell in pixels, where the baseline
/// runs in it, and how many cells fit on the screen. A cell is at least one
/// pixel wide and high.
#[derive(Clone, Copy, Debug, Hash)]
pub struct Metrics {
    height: i32,
    width: i32,
    baseline: i32,
    rows: usize,
    cols: usize,
}

impl Metrics {
    #[verifier::type_invariant]
    spec fn cells_fit(self) -> bool {
        &&& self.height >= 1
        &&& self.width >= 1
        &&& self.rows == (SCREEN_HEIGHT - 2 * TOP_MARGIN) / (self.height as int)
        &&& self.cols == (SCREEN_WIDTH - 2 * LEFT_MARGIN) / (self.width as int)
    }

    /// The height of a cell, in pixels.
    pub closed spec fn spec_height(self) -> int {
        if self.height >= 1 {
            self.height as int
        } else {
            1
        }
    }

    /// The width of a cell, in pixels.
    pub closed spec fn spec_width(self) -> int {
        if self.width >= 1 {
            self.width as int
        } else {
            1
        }
    }

    /// The distance of the baseline from the top of a cell, in pixels.
    pub closed spec fn spec_baseline(self) -> int {
        self.baseline as int
    }

    /// The number of rows that fit on the screen.
    pub closed spec fn spec_rows(self) -> int {
        self.rows as int
    }

    /// The number of columns that fit on the screen.
    pub closed spec fn spec_cols(self) -> int {
        self.cols as int
    }

    /// The grid for cells `height` pixels high and `width` pixels wide, whose
    /// font rises `ascent` pixels above the baseline. The baseline runs one
    /// pixel below the ascent, and the grid holds as many whole cells as the
    /// screen has room for between its margins.
    pub fn new(height: i32, width: i32, ascent: i32) -> (m: Metrics)
        requires
            height >= 1,
            width >= 1,
            ascent < i32::MAX,
        ensures
            m.spec_height() == height,
            m.spec_width() == width,
            m.spec_baseline() == ascent + 1,
            m.spec_rows() == (SCREEN_HEIGHT - 2 * TOP_MARGIN) / (height as int),
            m.spec_cols() == (SCREEN_WIDTH - 2 * LEFT_MARGIN) / (width as int),
    {
        let rows: i32 = (SCREEN_HEIGHT - TOP_MARGIN * 2) / height;
        let cols: i32 = (SCREEN_WIDTH - LEFT_MARGIN * 2) / width;
        assert(rows >= 0 && cols >= 0) by (nonlinear_arith)
            requires
                rows == 1672int / (height as int),
                cols == 1204int / (width as int),
                height >= 1,
                width >= 1,
        ;
        Metrics { height, width, baseline: ascent + 1, rows: rows as usize, cols: cols as usize }
    }

    /// The height of a cell, in pixels.
    pub fn height(&self) -> (r: i32)
        ensures
            r == self.spec_height(),
            r >= 1,
    {
        proof {
            use_type_invariant(self);
        }
        self.height
    }

    /// The width of a cell, in pixels.
    pub fn width(&self) -> (r: i32)
        ensures
            r == self.spec_width(),
            r >= 1,
    {
        proof {
            use_type_invariant(self);
        }
        self.width
    }

    /// The distance of the baseline from the top of a cell, in pixels.
    pub fn baseline(&self) -> (r: i32)
        ensures
            r == self.spec_baseline(),
    {
        self.baseline
    }

    /// The number of rows that fit on the screen.
    pub fn rows(&self) -> (r: usize)
        ensures
            r == self.spec_rows(),
    {
        self.rows
    }

    /// The number of columns that fit on the screen.
    pub fn cols(&self) -> (r: usize)
        ensures
            r == self.spec_cols(),
    {
        self.cols
    }

    /// The room right of the grid, in pixels: what the columns leave of the
    /// screen behind the left margin. It is never less than the left margin.
    pub fn right_margin(&self) -> (r: i32)
        ensures
            r == SCREEN_WIDTH - LEFT_MARGIN - self.spec_cols() * self.spec_width(),
            r >= LEFT_MARGIN,
    {
        proof {
            use_type_invariant(self);
            let room = (SCREEN_WIDTH - 2 * LEFT_MARGIN) as int;
            vstd::arithmetic::div_mod::lemma_fundamental_div_mod(room, self.width as int);
            vstd::arithmetic::div_mod::lemma_mod_pos_bound(room, self.width as int);
            vstd::arithmetic::div_mod::lemma_div_pos_is_pos(room, self.width as int);
            assert((room / (self.width as int)) * self.width == self.width * (room / (
            self.width as int))) by (nonlinear_arith);
        }
        let used: i32 = (self.cols as i32) * self.width;
        SCREEN_WIDTH - LEFT_MARGIN - used
    }
}

} // verus!

//! Arithmetic on the grid: pixel coordinates measured in cells.
//!
//! A measure in cells is a ratio of integers, a pixel coordinate over the
//! size of a cell. Ratios are compared exactly, without rounding.

use vstd::prelude::*;
use vstd::arithmetic::div_mod::{
    lemma_div_is_ordered, lemma_div_nonincreasing, lemma_div_pos_is_pos,
    lemma_fundamental_div_mod, lemma_mod_pos_bound,
};

verus! {

/// The cell index nearest to `n / d` that is not below 0; a ratio half way
/// between two indices goes to the higher.
pub open spec fn round_cell(n: int, d: int) -> int {
    if n <= 0 {
        0
    } else if 2 * (n % d) >= d {
        n / d + 1
    } else {
        n / d
    }
}

/// How far the ratio `n / d` lies from the nearest whole number, in `d`-ths.
pub open spec fn off_grid(n: int, d: int) -> int {
    if n % d <= d - n % d {
        n % d
    } else {
        d - n % d
    }
}

/// The greater of two integers.
pub open spec fn larger(a: int, b: int) -> int {
    if a >= b {
        a
    } else {
        b
    }
}

/// The smaller of two integers.
pub open spec fn smaller(a: int, b: int) -> int {
    if a <= b {
        a
    } else {
        b
    }
}

/// `round_cell`, computed.
pub(crate) fn nearest_cell(n: i64, d: i64) -> (r: i64)
    requires
        d >= 1,
        n <= 0x1_0000_0000,
        d <= 0x1_0000_0000,
    ensures
        r == round_cell(n as int, d as int),
        0 <= r,
        n >= 0 ==> r <= n / d + 1 <= n + 1,
        n <= 0 ==> r == 0,
{
    if n <= 0 {
        0
    } else {
        proof {
            lemma_div_nonincreasing(n as int, d as int);
            lemma_div_pos_is_pos(n as int, d as int);
            lemma_mod_pos_bound(n as int, d as int);
        }
        if 2 * (n % d) >= d {
            n / d + 1
        } else {
            n / d
        }
    }
}

/// `off_grid`, computed.
pub(crate) fn grid_offset(n: i64, d: i64) -> (r: i64)
    requires
        n >= 0,
        d >= 1,
        d <= 0x1_0000_0000,
    ensures
        r == off_grid(n as int, d as int),
        0 <= r <= d,
{
    proof {
        lemma_mod_pos_bound(n as int, d as int);
    }
    let rem: i64 = n % d;
    if rem <= d - rem {
        rem
    } else {
        d - rem
    }
}

/// Rounding to the nearest column keeps the order of two coordinates.
pub(crate) proof fn lemma_round_cell_monotone(a: int, b: int, d: int)
    requires
        a <= b,
        d >= 1,
    ensures
        round_cell(a, d) <= round_cell(b, d),
{
    if b > 0 {
        lemma_mod_pos_bound(b, d);
        lemma_div_pos_is_pos(b, d);
        if a > 0 {
            lemma_mod_pos_bound(a, d);
            lemma_fundamental_div_mod(a, d);
            lemma_fundamental_div_mod(b, d);
            lemma_div_is_ordered(a, b, d);
            if a / d == b / d {
                assert(a % d <= b % d) by (nonlinear_arith)
                    requires
                        a == d * (a / d) + (a % d),
                        b == d * (b / d) + (b % d),
                        a / d == b / d,
                        a <= b,
                ;
            }
        }
    }
}

} // verus!

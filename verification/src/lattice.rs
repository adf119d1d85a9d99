//! The arithmetic of the triangular numbering scheme.
//!
//! A lattice of width `w` has its unknowns at the coordinates `(x, y)` with
//! `1 <= x`, `1 <= y` and `x + y <= w + 1`. They are numbered band by band:
//! `x` ascending, and within one band `y` descending, so that the point next
//! to the hypotenuse comes first.

use vstd::prelude::*;

verus! {

/// How many unknowns a lattice of the given width has: band `x` holds
/// `width + 1 - x` of them.
pub open spec fn unknown_count(width: int) -> int {
    width * (width + 1) / 2
}

/// Whether `(x, y)` is the coordinate of an unknown.
pub open spec fn is_interior(width: int, x: int, y: int) -> bool {
    1 <= x && 1 <= y && x + y <= width + 1
}

/// Index of the first unknown of band `x`: the bands from `x` on form a
/// lattice of width `width + 1 - x`, and all other unknowns come before.
pub open spec fn band_start(width: int, x: int) -> int {
    unknown_count(width) - unknown_count(width + 1 - x)
}

/// Index of the unknown at `(x, y)`.
pub open spec fn rank(width: int, x: int, y: int) -> int {
    band_start(width, x) + (width + 1 - x - y)
}

/// Coordinate of the unknown with the given index. The first `width` indices
/// run down the first band; what follows is a lattice one narrower, moved one
/// step along the x axis.
pub open spec fn coord_at(width: int, index: int) -> (int, int)
    decreases width,
{
    if width <= 0 {
        (0, 0)
    } else if index < width {
        (1, width - index)
    } else {
        let inner = coord_at(width - 1, index - width);
        (inner.0 + 1, inner.1)
    }
}

/// Whether the unknown at `a` is numbered before the unknown at `b`.
pub open spec fn comes_before(a: (int, int), b: (int, int)) -> bool {
    a.0 < b.0 || (a.0 == b.0 && a.1 > b.1)
}

/// Adding one band to a lattice adds as many unknowns as the new width.
pub proof fn lemma_unknown_count_step(width: int)
    requires
        0 <= width,
    ensures
        unknown_count(width + 1) == unknown_count(width) + width + 1,
        unknown_count(width) >= 0,
        unknown_count(0) == 0,
{
    assert((width + 1) * (width + 2) == width * (width + 1) + 2 * (width + 1)) by (nonlinear_arith);
    assert(width * (width + 1) >= 0) by (nonlinear_arith)
        requires
            0 <= width,
    ;
}

/// A wider lattice has at least as many unknowns.
pub proof fn lemma_unknown_count_monotone(a: int, b: int)
    requires
        0 <= a <= b,
    ensures
        unknown_count(a) <= unknown_count(b),
    decreases b - a,
{
    if a < b {
        lemma_unknown_count_monotone(a, b - 1);
        lemma_unknown_count_step(b - 1);
    }
}

/// The first band starts at index 0, and the bands together hold every
/// unknown.
pub proof fn lemma_band_start_ends(width: int)
    requires
        0 <= width,
    ensures
        band_start(width, 1) == 0,
        band_start(width, width + 1) == unknown_count(width),
{
    lemma_unknown_count_step(0);
}

/// Each band starts where the one before it ends.
pub proof fn lemma_band_start_step(width: int, x: int)
    requires
        1 <= x <= width,
    ensures
        band_start(width, x + 1) == band_start(width, x) + (width + 1 - x),
{
    lemma_unknown_count_step(width - x);
}

/// Every unknown has an index below the number of unknowns.
pub proof fn lemma_rank_in_range(width: int, x: int, y: int)
    requires
        is_interior(width, x, y),
    ensures
        0 <= band_start(width, x) <= rank(width, x, y) < band_start(width, x + 1) <= unknown_count(
            width,
        ),
{
    lemma_band_start_step(width, x);
    lemma_band_start_ends(width);
    lemma_unknown_count_monotone(width + 1 - x, width);
    lemma_unknown_count_step(width - x);
}

/// Without its first band, a lattice is a lattice one narrower.
proof fn lemma_rank_peel(width: int, x: int, y: int)
    requires
        is_interior(width, x, y),
        2 <= x,
    ensures
        rank(width, x, y) == width + rank(width - 1, x - 1, y),
{
    lemma_unknown_count_step(width - 1);
}

/// The coordinate stored under the index of `(x, y)` is `(x, y)`.
pub proof fn lemma_coord_at_rank(width: int, x: int, y: int)
    requires
        is_interior(width, x, y),
    ensures
        coord_at(width, rank(width, x, y)) == (x, y),
    decreases width,
{
    lemma_rank_in_range(width, x, y);
    if x == 1 {
        lemma_band_start_ends(width);
    } else {
        lemma_rank_peel(width, x, y);
        lemma_rank_in_range(width - 1, x - 1, y);
        lemma_coord_at_rank(width - 1, x - 1, y);
    }
}

/// Every index below the number of unknowns belongs to an unknown, and that
/// unknown has this index.
pub proof fn lemma_rank_coord_at(width: int, index: int)
    requires
        0 <= index < unknown_count(width),
        0 <= width,
    ensures
        is_interior(width, coord_at(width, index).0, coord_at(width, index).1),
        rank(width, coord_at(width, index).0, coord_at(width, index).1) == index,
    decreases width,
{
    if width == 0 {
        lemma_unknown_count_step(0);
    } else if index < width {
        lemma_band_start_ends(width);
    } else {
        lemma_unknown_count_step(width - 1);
        lemma_rank_coord_at(width - 1, index - width);
        let inner = coord_at(width - 1, index - width);
        lemma_rank_peel(width, inner.0 + 1, inner.1);
    }
}

/// No two unknowns share an index.
pub proof fn lemma_rank_injective(width: int, a: (int, int), b: (int, int))
    requires
        is_interior(width, a.0, a.1),
        is_interior(width, b.0, b.1),
        rank(width, a.0, a.1) == rank(width, b.0, b.1),
    ensures
        a == b,
{
    lemma_coord_at_rank(width, a.0, a.1);
    lemma_coord_at_rank(width, b.0, b.1);
}

/// Band starts grow with the band.
proof fn lemma_band_start_monotone(width: int, x1: int, x2: int)
    requires
        1 <= x1 <= x2 <= width + 1,
    ensures
        band_start(width, x1) <= band_start(width, x2),
{
    lemma_unknown_count_monotone(width + 1 - x2, width + 1 - x1);
}

/// The numbering follows the enumeration order: bands by ascending `x`, and
/// within a band by descending `y`.
pub proof fn lemma_rank_order(width: int, a: (int, int), b: (int, int))
    requires
        is_interior(width, a.0, a.1),
        is_interior(width, b.0, b.1),
    ensures
        rank(width, a.0, a.1) < rank(width, b.0, b.1) <==> comes_before(a, b),
{
    lemma_rank_in_range(width, a.0, a.1);
    lemma_rank_in_range(width, b.0, b.1);
    if a.0 < b.0 {
        lemma_band_start_monotone(width, a.0 + 1, b.0);
    } else if b.0 < a.0 {
        lemma_band_start_monotone(width, b.0 + 1, a.0);
    }
}

/// A width whose unknowns can be counted in `usize` leaves room for the
/// coordinates around the triangle.
pub proof fn lemma_width_headroom(width: int)
    requires
        0 <= width,
        unknown_count(width) <= usize::MAX,
    ensures
        2 * width + 6 <= usize::MAX,
{
    if width >= 6 {
        assert(width * (width + 1) >= 2 * (2 * width + 6)) by (nonlinear_arith)
            requires
                width >= 6,
        ;
    }
}

/// The number of unknowns of a lattice of the given width, or `None` where
/// that number does not fit in `usize`.
pub fn count_unknowns(width: usize) -> (count: Option<usize>)
    ensures
        count == if unknown_count(width as int) <= usize::MAX {
            Some(unknown_count(width as int) as usize)
        } else {
            None
        },
{
    // One of `width` and `width + 1` is even: halve that one first.
    let half: usize = width / 2;
    if width % 2 == 0 {
        assert(unknown_count(width as int) == half * (width + 1)) by (nonlinear_arith)
            requires
                width == 2 * half,
        ;
        match width.checked_add(1) {
            Some(next) => half.checked_mul(next),
            None => None,
        }
    } else {
        assert(unknown_count(width as int) == width * (half + 1)) by (nonlinear_arith)
            requires
                width == 2 * half + 1,
        ;
        width.checked_mul(half + 1)
    }
}

} // verus!

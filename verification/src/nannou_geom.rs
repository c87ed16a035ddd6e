//! The two computations the library takes from nannou's geometry module.
//! Their contracts are believed, not proved: each restates what the called
//! method's source does on integer scalars.

use vstd::prelude::*;
use crate::arith::dist;
use crate::geometry::Corner;

verus! {

/// `pos` lies between the two ends of the range, whichever of them is the
/// greater; the ends themselves count.
pub open spec fn spans(start: int, end: int, pos: int) -> bool {
    (start <= pos <= end) || (end <= pos <= start)
}

/// `v` is at least as near to `start` as to `end`.
pub open spec fn nearer_start(start: int, end: int, v: int) -> bool {
    dist(v, start) <= dist(v, end)
}

/// The corner of the rectangle with the given range on each axis that lies
/// nearest to `(px, py)`, axis by axis; the start of a range wins a tie.
/// The start of the `x` range is the left side, that of the `y` range the
/// bottom.
pub open spec fn nearest_corner(
    x_start: int,
    x_end: int,
    y_start: int,
    y_end: int,
    px: int,
    py: int,
) -> Corner {
    if nearer_start(x_start, x_end, px) {
        if nearer_start(y_start, y_end, py) {
            Corner::BottomLeft
        } else {
            Corner::TopLeft
        }
    } else {
        if nearer_start(y_start, y_end, py) {
            Corner::BottomRight
        } else {
            Corner::TopRight
        }
    }
}

/// Calls `nannou::geom::Range::contains` on the range from `start` to `end`.
/// The method first puts the two ends in order and then tests
/// `start <= pos && pos <= end`; the contract says the same in one line.
#[verifier::external_body]
pub(crate) fn range_contains(start: i128, end: i128, pos: i128) -> (b: bool)
    ensures
        b == spans(start as int, end as int, pos as int),
{
    nannou::geom::Range::new(start, end).contains(pos)
}

/// Calls `nannou::geom::Rect::closest_corner` on the rectangle with the
/// given ranges. The method asks each range for its closest edge, which
/// compares the distance from the scalar to `start` with that to `end` and
/// answers `Start` when the first is not the greater, and then pairs the two
/// answers into a corner. It subtracts the scalar from each end or the end
/// from the scalar, so the precondition keeps each such difference within
/// `i128`.
#[verifier::external_body]
pub(crate) fn closest_corner(
    x_start: i128,
    x_end: i128,
    y_start: i128,
    y_end: i128,
    px: i128,
    py: i128,
) -> (c: Corner)
    requires
        dist(px as int, x_start as int) <= i128::MAX,
        dist(px as int, x_end as int) <= i128::MAX,
        dist(py as int, y_start as int) <= i128::MAX,
        dist(py as int, y_end as int) <= i128::MAX,
    ensures
        c == nearest_corner(
            x_start as int,
            x_end as int,
            y_start as int,
            y_end as int,
            px as int,
            py as int,
        ),
{
    let rect = nannou::geom::Rect {
        x: nannou::geom::Range::new(x_start, x_end),
        y: nannou::geom::Range::new(y_start, y_end),
    };
    match rect.closest_corner([px, py]) {
        nannou::geom::Corner::TopLeft => Corner::TopLeft,
        nannou::geom::Corner::TopRight => Corner::TopRight,
        nannou::geom::Corner::BottomLeft => Corner::BottomLeft,
        nannou::geom::Corner::BottomRight => Corner::BottomRight,
    }
}

} // verus!

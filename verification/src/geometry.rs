//! Lattice points, the viewport rectangle and its corners.

use vstd::prelude::*;

verus! {

/// Largest magnitude of a coordinate that the library accepts as input:
/// two to the power of thirty. Within it every intermediate product of the
/// ray arithmetic, and every projected coordinate, fits the machine integers.
pub const COORD_LIMIT: i64 = 1_073_741_824;

/// A point of the integer lattice.
#[derive(Clone, Copy, Debug, PartialEq, Eq, Structural)]
pub struct Point {
    pub x: i64,
    pub y: i64,
}

impl Point {
    /// Both coordinates lie within [`COORD_LIMIT`] of zero.
    pub open spec fn in_bounds(self) -> bool {
        &&& -COORD_LIMIT <= self.x <= COORD_LIMIT
        &&& -COORD_LIMIT <= self.y <= COORD_LIMIT
    }

    pub fn new(x: i64, y: i64) -> (p: Point)
        ensures
            p.x == x,
            p.y == y,
    {
        Point { x, y }
    }

    /// Tests [`Point::in_bounds`].
    pub fn is_in_bounds(&self) -> (b: bool)
        ensures
            b == self.in_bounds(),
    {
        -COORD_LIMIT <= self.x && self.x <= COORD_LIMIT && -COORD_LIMIT <= self.y && self.y
            <= COORD_LIMIT
    }
}

/// Every point of the sequence is in bounds.
pub open spec fn all_in_bounds(points: Seq<Point>) -> bool {
    forall|i: int| 0 <= i < points.len() ==> (#[trigger] points[i]).in_bounds()
}

/// Tests [`all_in_bounds`] on a slice.
pub fn points_in_bounds(points: &[Point]) -> (b: bool)
    ensures
        b == all_in_bounds(points@),
{
    let mut i: usize = 0;
    while i < points.len()
        invariant
            i <= points.len(),
            forall|j: int| 0 <= j < i ==> (#[trigger] points@[j]).in_bounds(),
        decreases points.len() - i,
    {
        if !points[i].is_in_bounds() {
            return false;
        }
        i += 1;
    }
    true
}

/// One of the four corners of a viewport.
#[derive(Clone, Copy, Debug, PartialEq, Eq, Structural)]
pub enum Corner {
    TopLeft,
    TopRight,
    BottomLeft,
    BottomRight,
}

/// The axis-aligned rectangle onto whose boundary shadows are projected.
/// `top` is the edge of greatest `y`, `right` the edge of greatest `x`.
#[derive(Clone, Copy, Debug, PartialEq, Eq, Structural)]
pub struct Viewport {
    pub left: i64,
    pub right: i64,
    pub bottom: i64,
    pub top: i64,
}

impl Viewport {
    /// The edges are in bounds and in order.
    pub open spec fn wf(self) -> bool {
        &&& -COORD_LIMIT <= self.left <= self.right <= COORD_LIMIT
        &&& -COORD_LIMIT <= self.bottom <= self.top <= COORD_LIMIT
    }

    /// The point lies in the rectangle or on its boundary.
    pub open spec fn contains(self, p: Point) -> bool {
        &&& self.left <= p.x <= self.right
        &&& self.bottom <= p.y <= self.top
    }

    /// Every point of the sequence lies in the rectangle.
    pub open spec fn contains_all(self, points: Seq<Point>) -> bool {
        forall|i: int| 0 <= i < points.len() ==> self.contains(#[trigger] points[i])
    }

    /// The position of a corner.
    pub open spec fn corner(self, c: Corner) -> Point {
        match c {
            Corner::TopLeft => Point { x: self.left, y: self.top },
            Corner::TopRight => Point { x: self.right, y: self.top },
            Corner::BottomLeft => Point { x: self.left, y: self.bottom },
            Corner::BottomRight => Point { x: self.right, y: self.bottom },
        }
    }

    /// The viewport with the given edges, where they are in bounds and in
    /// order; `None` otherwise.
    pub fn new(left: i64, right: i64, bottom: i64, top: i64) -> (v: Option<Viewport>)
        ensures
            v == (if (Viewport { left, right, bottom, top }).wf() {
                Some(Viewport { left, right, bottom, top })
            } else {
                None
            }),
    {
        let v = Viewport { left, right, bottom, top };
        if v.is_wf() {
            Some(v)
        } else {
            None
        }
    }

    /// Tests [`Viewport::wf`].
    pub fn is_wf(&self) -> (b: bool)
        ensures
            b == self.wf(),
    {
        -COORD_LIMIT <= self.left && self.left <= self.right && self.right <= COORD_LIMIT
            && -COORD_LIMIT <= self.bottom && self.bottom <= self.top && self.top <= COORD_LIMIT
    }

    /// Tests [`Viewport::contains`].
    pub fn has_point(&self, p: Point) -> (b: bool)
        ensures
            b == self.contains(p),
    {
        self.left <= p.x && p.x <= self.right && self.bottom <= p.y && p.y <= self.top
    }

    /// The position of a corner.
    pub fn corner_point(&self, c: Corner) -> (p: Point)
        ensures
            p == self.corner(c),
    {
        match c {
            Corner::TopLeft => Point { x: self.left, y: self.top },
            Corner::TopRight => Point { x: self.right, y: self.top },
            Corner::BottomLeft => Point { x: self.left, y: self.bottom },
            Corner::BottomRight => Point { x: self.right, y: self.bottom },
        }
    }

    pub fn top_left(&self) -> (p: Point)
        ensures
            p == self.corner(Corner::TopLeft),
    {
        Point { x: self.left, y: self.top }
    }

    pub fn top_right(&self) -> (p: Point)
        ensures
            p == self.corner(Corner::TopRight),
    {
        Point { x: self.right, y: self.top }
    }

    pub fn bottom_left(&self) -> (p: Point)
        ensures
            p == self.corner(Corner::BottomLeft),
    {
        Point { x: self.left, y: self.bottom }
    }

    pub fn bottom_right(&self) -> (p: Point)
        ensures
            p == self.corner(Corner::BottomRight),
    {
        Point { x: self.right, y: self.bottom }
    }
}

} // verus!

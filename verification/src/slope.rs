//! The slope of the line from the light to a vertex, as an exact fraction.
//!
//! A slope is kept as a numerator over a denominator that is never negative.
//! A vertex straight above the light has the slope `1/0`, one straight below
//! it `-1/0`: they stand above and below every finite slope. A vertex on the
//! light itself has `0/0`, which is no slope at all.

use vstd::prelude::*;
use crate::arith::{dist, lemma_product_bound};
use crate::geometry::Point;

verus! {

/// The sign of an integer: `1`, `0` or `-1`.
pub open spec fn sign(v: int) -> int {
    if v > 0 {
        1
    } else if v < 0 {
        -1
    } else {
        0
    }
}

/// A fraction of two integers, the mathematical value of a [`Slope`].
pub struct Fraction {
    pub num: int,
    pub den: int,
}

impl Fraction {
    /// The denominator is positive, or it is zero under a numerator of one
    /// or minus one.
    pub open spec fn proper(self) -> bool {
        self.den > 0 || (self.den == 0 && (self.num == 1 || self.num == -1))
    }

    /// `self < other`, by cross-multiplication; of two fractions over zero
    /// the one with the smaller numerator is the smaller.
    pub open spec fn lt(self, other: Fraction) -> bool {
        if self.den == 0 && other.den == 0 {
            self.num < other.num
        } else {
            self.num * other.den < other.num * self.den
        }
    }

    pub open spec fn is_negative(self) -> bool {
        self.num < 0
    }

    pub open spec fn is_positive(self) -> bool {
        self.num > 0
    }
}

impl Point {
    /// The slope of the line from `light` to this point:
    /// `(self.y - light.y) / (self.x - light.x)`, with the sign moved to the
    /// numerator. Where the two have one `x`, the sign of
    /// `self.y - light.y` over zero.
    pub open spec fn slope(self, light: Point) -> Fraction {
        let dx = self.x - light.x;
        let dy = self.y - light.y;
        Fraction {
            num: if dx > 0 {
                dy
            } else if dx < 0 {
                -dy
            } else {
                sign(dy)
            },
            den: dist(self.x as int, light.x as int),
        }
    }
}

/// `a <= b < c` gives `a < c`.
pub proof fn lemma_le_lt(a: Fraction, b: Fraction, c: Fraction)
    requires
        a.proper(),
        b.proper(),
        c.proper(),
        !b.lt(a),
        b.lt(c),
    ensures
        a.lt(c),
{
    if a.den > 0 && b.den > 0 && c.den > 0 {
        assert(a.num * c.den < c.num * a.den) by (nonlinear_arith)
            requires
                a.den > 0,
                b.den > 0,
                c.den > 0,
                b.num * a.den >= a.num * b.den,
                b.num * c.den < c.num * b.den,
        ;
    } else {
        assert(a.lt(c)) by (nonlinear_arith)
            requires
                a.proper(),
                b.proper(),
                c.proper(),
                !(a.den > 0 && b.den > 0 && c.den > 0),
                !b.lt(a),
                b.lt(c),
        ;
    }
}

/// `a < b <= c` gives `a < c`.
pub proof fn lemma_lt_le(a: Fraction, b: Fraction, c: Fraction)
    requires
        a.proper(),
        b.proper(),
        c.proper(),
        a.lt(b),
        !c.lt(b),
    ensures
        a.lt(c),
{
    if a.den > 0 && b.den > 0 && c.den > 0 {
        assert(a.num * c.den < c.num * a.den) by (nonlinear_arith)
            requires
                a.den > 0,
                b.den > 0,
                c.den > 0,
                a.num * b.den < b.num * a.den,
                c.num * b.den >= b.num * c.den,
        ;
    } else {
        assert(a.lt(c)) by (nonlinear_arith)
            requires
                a.proper(),
                b.proper(),
                c.proper(),
                !(a.den > 0 && b.den > 0 && c.den > 0),
                a.lt(b),
                !c.lt(b),
        ;
    }
}

/// The slope of a vertex as the library computes with it: two machine
/// integers, the denominator never negative.
#[derive(Clone, Copy, Debug)]
pub struct Slope {
    pub num: i64,
    pub den: i64,
}

impl View for Slope {
    type V = Fraction;

    open spec fn view(&self) -> Fraction {
        Fraction { num: self.num as int, den: self.den as int }
    }
}

impl Slope {
    /// Whether this slope is smaller than the other.
    pub fn less_than(&self, other: &Slope) -> (b: bool)
        ensures
            b == self@.lt(other@),
    {
        if self.den == 0 && other.den == 0 {
            self.num < other.num
        } else {
            proof {
                lemma_product_bound(
                    self.num as int,
                    other.den as int,
                    0x8000_0000_0000_0000,
                    0x8000_0000_0000_0000,
                );
                lemma_product_bound(
                    other.num as int,
                    self.den as int,
                    0x8000_0000_0000_0000,
                    0x8000_0000_0000_0000,
                );
            }
            (self.num as i128) * (other.den as i128) < (other.num as i128) * (self.den as i128)
        }
    }

    pub fn is_negative(&self) -> (b: bool)
        ensures
            b == self@.is_negative(),
    {
        self.num < 0
    }

    pub fn is_positive(&self) -> (b: bool)
        ensures
            b == self@.is_positive(),
    {
        self.num > 0
    }
}

impl Point {
    /// The slope of the line from `light` to this point.
    pub fn slope_to(&self, light: Point) -> (s: Slope)
        requires
            self.in_bounds(),
            light.in_bounds(),
        ensures
            s@ == self.slope(light),
    {
        let dx: i64 = self.x - light.x;
        let dy: i64 = self.y - light.y;
        if dx > 0 {
            Slope { num: dy, den: dx }
        } else if dx < 0 {
            Slope { num: -dy, den: -dx }
        } else if dy > 0 {
            Slope { num: 1, den: 0 }
        } else if dy < 0 {
            Slope { num: -1, den: 0 }
        } else {
            Slope { num: 0, den: 0 }
        }
    }
}

} // verus!

//! Exact integer helpers: division rounded down, and bounds on products.

use vstd::prelude::*;
use vstd::arithmetic::div_mod::{lemma_fundamental_div_mod, lemma_fundamental_div_mod_converse};

verus! {

/// The quotient `a / b` rounded down to an integer, for a divisor other
/// than zero.
pub open spec fn floor_div(a: int, b: int) -> int
    recommends
        b != 0,
{
    if b > 0 {
        a / b
    } else {
        (-a) / (-b)
    }
}

/// The distance between two integers.
pub open spec fn dist(a: int, b: int) -> int {
    if a < b {
        b - a
    } else {
        a - b
    }
}

/// `floor_div(a, b)` is the one integer `q` with `q * b <= a < (q + 1) * b`
/// for a positive divisor, and with the inequalities turned for a negative one.
pub proof fn lemma_floor_div_bounds(a: int, b: int)
    requires
        b != 0,
    ensures
        b > 0 ==> floor_div(a, b) * b <= a < floor_div(a, b) * b + b,
        b < 0 ==> floor_div(a, b) * b >= a > floor_div(a, b) * b + b,
{
    if b > 0 {
        lemma_fundamental_div_mod(a, b);
        assert(b * (a / b) == (a / b) * b) by (nonlinear_arith);
    } else {
        let q = (-a) / (-b);
        lemma_fundamental_div_mod(-a, -b);
        assert((-b) * q == -(q * b)) by (nonlinear_arith);
    }
}

/// An integer between the bounds of [`lemma_floor_div_bounds`] is the quotient.
pub proof fn lemma_floor_div_unique(a: int, b: int, q: int)
    requires
        b > 0,
        q * b <= a < q * b + b,
    ensures
        q == floor_div(a, b),
{
    lemma_fundamental_div_mod_converse(a, b, q, a - q * b);
}

/// A product is no larger in magnitude than the product of the bounds.
pub proof fn lemma_product_bound(a: int, b: int, m: int, n: int)
    requires
        -m <= a <= m,
        -n <= b <= n,
    ensures
        -(m * n) <= a * b <= m * n,
{
    assert(-(m * n) <= a * b <= m * n) by (nonlinear_arith)
        requires
            -m <= a <= m,
            -n <= b <= n,
    ;
}

/// Division rounded down.
pub fn div_floor(a: i128, b: i128) -> (q: i128)
    requires
        b != 0,
        i128::MIN < a,
        i128::MIN < b,
    ensures
        q == floor_div(a as int, b as int),
{
    let (n, d) = if b < 0 {
        (-a, -b)
    } else {
        (a, b)
    };
    assert(floor_div(a as int, b as int) == floor_div(n as int, d as int));
    if n >= 0 {
        n / d
    } else {
        let m: i128 = -n;
        let k: i128 = m / d;
        let r: i128 = m % d;
        proof {
            lemma_fundamental_div_mod(m as int, d as int);
            assert(d * (m / d) == (m / d) * d) by (nonlinear_arith);
            assert(0 <= k <= m) by (nonlinear_arith)
                requires
                    m >= 0,
                    d >= 1,
                    k == m as int / d as int,
                    m == k * d + r,
                    0 <= r < d,
            ;
        }
        if r == 0 {
            proof {
                assert((-k) * d == -(k * d)) by (nonlinear_arith);
                lemma_floor_div_unique(n as int, d as int, -k);
            }
            -k
        } else {
            proof {
                assert((-k - 1) * d == -(k * d) - d) by (nonlinear_arith);
                lemma_floor_div_unique(n as int, d as int, -k - 1);
            }
            -k - 1
        }
    }
}

} // verus!

use shadow_caster::{Point, Slope};

fn slope(px: i64, py: i64, lx: i64, ly: i64) -> Slope {
    Point::new(px, py).slope_to(Point::new(lx, ly))
}

#[test]
fn slope_keeps_the_denominator_positive() {
    let s = slope(30, 7, 0, 0);
    assert_eq!((s.num, s.den), (7, 30));
    let s = slope(-30, 7, 0, 0);
    assert_eq!((s.num, s.den), (-7, 30));
    let s = slope(-30, -7, 0, 0);
    assert_eq!((s.num, s.den), (7, 30));
    let s = slope(30, -7, 0, 0);
    assert_eq!((s.num, s.den), (-7, 30));
}

#[test]
fn slope_is_taken_from_the_light() {
    let s = slope(13, 9, 10, 5);
    assert_eq!((s.num, s.den), (4, 3));
    let s = slope(7, 9, 10, 5);
    assert_eq!((s.num, s.den), (-4, 3));
}

#[test]
fn slope_of_a_vertical_line_is_one_over_zero() {
    let s = slope(0, 10, 0, 0);
    assert_eq!((s.num, s.den), (1, 0));
    let s = slope(0, -10, 0, 0);
    assert_eq!((s.num, s.den), (-1, 0));
    let s = slope(5, 5, 5, 5);
    assert_eq!((s.num, s.den), (0, 0));
}

#[test]
fn slope_signs() {
    assert!(slope(3, 1, 0, 0).is_positive());
    assert!(!slope(3, 1, 0, 0).is_negative());
    assert!(slope(-3, 1, 0, 0).is_negative());
    assert!(slope(0, 4, 0, 0).is_positive());
    assert!(slope(0, -4, 0, 0).is_negative());
    assert!(!slope(4, 0, 0, 0).is_positive());
    assert!(!slope(4, 0, 0, 0).is_negative());
    assert!(!slope(0, 0, 0, 0).is_positive());
    assert!(!slope(0, 0, 0, 0).is_negative());
}

#[test]
fn slope_order_is_by_cross_multiplication() {
    // 1/3 < 1/2, and 2/4 is the same as 1/2.
    assert!(slope(3, 1, 0, 0).less_than(&slope(2, 1, 0, 0)));
    assert!(!slope(2, 1, 0, 0).less_than(&slope(3, 1, 0, 0)));
    assert!(!slope(4, 2, 0, 0).less_than(&slope(2, 1, 0, 0)));
    assert!(!slope(2, 1, 0, 0).less_than(&slope(4, 2, 0, 0)));
    // -1/2 < 1/3
    assert!(slope(-2, 1, 0, 0).less_than(&slope(3, 1, 0, 0)));
}

#[test]
fn vertical_slopes_bound_the_finite_ones() {
    let up = slope(0, 1, 0, 0);
    let down = slope(0, -1, 0, 0);
    let steep = slope(1, 1_000_000, 0, 0);
    let steep_down = slope(1, -1_000_000, 0, 0);
    assert!(steep.less_than(&up));
    assert!(!up.less_than(&steep));
    assert!(down.less_than(&steep_down));
    assert!(!steep_down.less_than(&down));
    assert!(down.less_than(&up));
    assert!(!up.less_than(&down));
    assert!(!up.less_than(&slope(0, 7, 0, 0)));
}

#[test]
fn slope_order_holds_at_the_coordinate_limit() {
    let m = shadow_caster::COORD_LIMIT;
    let a = slope(m, m, -m, -m);
    let b = slope(m, m - 1, -m, -m);
    assert_eq!((a.num, a.den), (2 * m, 2 * m));
    assert!(b.less_than(&a));
    assert!(!a.less_than(&b));
}

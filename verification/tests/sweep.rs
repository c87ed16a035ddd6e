use shadow_caster::{Light, Model, Point, Viewport};

// A second computation of every result, kept apart from the library: exact
// integer arithmetic with `i128` and `div_euclid`.

type P = (i64, i64);

fn slope(p: P, l: P) -> (i128, i128) {
    let dx = (p.0 - l.0) as i128;
    let dy = (p.1 - l.1) as i128;
    if dx > 0 {
        (dy, dx)
    } else if dx < 0 {
        (-dy, -dx)
    } else {
        (dy.signum(), 0)
    }
}

fn less(a: (i128, i128), b: (i128, i128)) -> bool {
    if a.1 == 0 && b.1 == 0 {
        a.0 < b.0
    } else {
        a.0 * b.1 < b.0 * a.1
    }
}

fn floor_div(a: i128, b: i128) -> i128 {
    if b > 0 {
        a.div_euclid(b)
    } else {
        (-a).div_euclid(-b)
    }
}

fn expected_silhouette(l: P, wall: &[P]) -> Option<(P, P)> {
    let within = wall.iter().all(|p| p.0 > l.0) || wall.iter().all(|p| p.0 < l.0);
    let mut left: Option<P> = None;
    let mut right: Option<P> = None;
    for &p in wall {
        let s = slope(p, l);
        if (within || s.0 < 0) && left.map_or(true, |b| less(slope(b, l), s)) {
            left = Some(p);
        }
        if (within || s.0 > 0) && right.map_or(true, |b| less(s, slope(b, l))) {
            right = Some(p);
        }
    }
    match (left, right) {
        (Some(a), Some(b)) => Some((a, b)),
        _ => None,
    }
}

fn expected_projection(l: P, p: P, vp: &Viewport) -> P {
    let dx = (p.0 - l.0) as i128;
    let dy = (p.1 - l.1) as i128;
    let level = if l.1 < p.1 { vp.top } else { vp.bottom };
    if dx == 0 {
        return (p.0, level);
    }
    let side = if dx > 0 { vp.right } else { vp.left };
    let crossing = p.1 as i128 * dx + dy * (side - p.0) as i128;
    let low = vp.bottom as i128 * dx;
    let high = vp.top as i128 * dx;
    if low.min(high) <= crossing && crossing <= low.max(high) {
        (side, floor_div(crossing, dx) as i64)
    } else if dy == 0 {
        (side, level)
    } else {
        (p.0 + floor_div((level - p.1) as i128 * dx, dy) as i64, level)
    }
}

fn expected_corners(a: P, b: P, vp: &Viewport) -> Vec<P> {
    let (l, r, bo, t) = (vp.left, vp.right, vp.bottom, vp.top);
    let (sx, sy) = (a.0 as i128 + b.0 as i128, a.1 as i128 + b.1 as i128);
    if a.1 == b.1 || a.0 == b.0 {
        vec![]
    } else if sy == 0 {
        if a.1 < b.1 {
            vec![(l, bo), (l, t)]
        } else {
            vec![(r, t), (r, bo)]
        }
    } else if sx == 0 {
        if a.0 < b.0 {
            vec![(l, t), (r, t)]
        } else {
            vec![(r, bo), (l, bo)]
        }
    } else {
        let near_left = (sx - 2 * l as i128).abs() <= (sx - 2 * r as i128).abs();
        let near_bottom = (sy - 2 * bo as i128).abs() <= (sy - 2 * t as i128).abs();
        vec![(if near_left { l } else { r }, if near_bottom { bo } else { t })]
    }
}

fn expected_shadow(l: P, wall: &[P], vp: &Viewport) -> Option<Vec<P>> {
    let (left, right) = expected_silhouette(l, wall)?;
    let lp = expected_projection(l, left, vp);
    let rp = expected_projection(l, right, vp);
    let mut outline = vec![lp];
    outline.extend(expected_corners(lp, rp, vp));
    outline.extend([rp, right, left]);
    Some(outline)
}

fn model_with_light(l: P) -> Model {
    let mut model = Model::new();
    model.light = Light::new(Point::new(l.0, l.1));
    model
}

fn points(coords: &[P]) -> Vec<Point> {
    coords.iter().map(|&(x, y)| Point::new(x, y)).collect()
}

// A small generator of numbers, the same on every run.
struct Sequence(u64);

impl Sequence {
    fn next(&mut self, low: i64, high: i64) -> i64 {
        self.0 = self.0.wrapping_mul(6364136223846793005).wrapping_add(1442695040888963407);
        low + ((self.0 >> 33) % ((high - low + 1) as u64)) as i64
    }
}

#[test]
fn every_projection_on_a_small_grid() {
    let viewports = [
        Viewport::new(-4, 5, -3, 4).unwrap(),
        Viewport::new(-5, 5, -5, 5).unwrap(),
        Viewport::new(0, 7, 0, 3).unwrap(),
        Viewport::new(2, 2, -1, 6).unwrap(),
    ];
    for vp in viewports {
        for lx in -7..=8 {
            for ly in -7..=8 {
                let model = model_with_light((lx, ly));
                for px in -7..=8 {
                    for py in -7..=8 {
                        let far = model.get_intersection_point(Point::new(px, py), vp);
                        assert_eq!(
                            (far.x, far.y),
                            expected_projection((lx, ly), (px, py), &vp),
                            "light ({lx}, {ly}), vertex ({px}, {py}), viewport {vp:?}"
                        );
                        if vp.has_point(Point::new(px, py)) {
                            assert!(vp.has_point(far));
                            assert!(
                                far.x == vp.left
                                    || far.x == vp.right
                                    || far.y == vp.bottom
                                    || far.y == vp.top
                            );
                        }
                    }
                }
            }
        }
    }
}

#[test]
fn many_silhouettes_and_their_reverses() {
    let mut numbers = Sequence(1);
    for _ in 0..20000 {
        let light = (numbers.next(-6, 6), numbers.next(-6, 6));
        let count = numbers.next(0, 5);
        let wall: Vec<P> =
            (0..count).map(|_| (numbers.next(-8, 8), numbers.next(-8, 8))).collect();
        let model = model_with_light(light);
        let edge = model.outer_most_points(&points(&wall)).map(|(a, b)| ((a.x, a.y), (b.x, b.y)));
        assert_eq!(edge, expected_silhouette(light, &wall), "light {light:?}, wall {wall:?}");
        // Without a tie between different vertices the direction of the
        // wall does not matter.
        let mut distinct = true;
        for (i, &a) in wall.iter().enumerate() {
            for &b in &wall[..i] {
                let (s, t) = (slope(a, light), slope(b, light));
                if a != b && !less(s, t) && !less(t, s) {
                    distinct = false;
                }
            }
        }
        if distinct {
            let mut reversed = points(&wall);
            reversed.reverse();
            assert_eq!(
                model.outer_most_points(&reversed).map(|(a, b)| ((a.x, a.y), (b.x, b.y))),
                edge,
                "light {light:?}, wall {wall:?}"
            );
        }
    }
}

#[test]
fn many_shadows() {
    let viewports = [
        Viewport::new(-20, 20, -20, 20).unwrap(),
        Viewport::new(0, 30, 0, 20).unwrap(),
        Viewport::new(-7, 12, -15, 4).unwrap(),
    ];
    let mut numbers = Sequence(2);
    for _ in 0..30000 {
        let vp = viewports[numbers.next(0, 2) as usize];
        let light = (numbers.next(-25, 35), numbers.next(-25, 25));
        let count = numbers.next(1, 4);
        let wall: Vec<P> =
            (0..count).map(|_| (numbers.next(-22, 32), numbers.next(-22, 22))).collect();
        let model = model_with_light(light);
        let shadow = model
            .shadow_polygon(&points(&wall), vp)
            .map(|polygon| polygon.points.iter().map(|p| (p.x, p.y)).collect::<Vec<P>>());
        assert_eq!(
            shadow,
            expected_shadow(light, &wall, &vp),
            "light {light:?}, wall {wall:?}, viewport {vp:?}"
        );
        if let Some(outline) = shadow {
            assert!(outline.len() >= 4 && outline.len() <= 6);
            if wall.iter().all(|&(x, y)| vp.has_point(Point::new(x, y))) {
                assert!(outline.iter().all(|&(x, y)| vp.has_point(Point::new(x, y))));
            }
        }
    }
}

#[test]
fn many_shadows_near_the_coordinate_limit() {
    let m = shadow_caster::COORD_LIMIT;
    let vp = Viewport::new(-m, m, -m + 1, m).unwrap();
    let mut numbers = Sequence(3);
    for _ in 0..20000 {
        let mut far = |n: &mut Sequence| match n.next(0, 3) {
            0 => m - n.next(0, 3),
            1 => -m + n.next(0, 3),
            2 => n.next(-3, 3),
            _ => n.next(-m, m),
        };
        let light = (far(&mut numbers), far(&mut numbers));
        let wall: Vec<P> = (0..3).map(|_| (far(&mut numbers), far(&mut numbers))).collect();
        let model = model_with_light(light);
        let shadow = model
            .shadow_polygon(&points(&wall), vp)
            .map(|polygon| polygon.points.iter().map(|p| (p.x, p.y)).collect::<Vec<P>>());
        assert_eq!(
            shadow,
            expected_shadow(light, &wall, &vp),
            "light {light:?}, wall {wall:?}"
        );
    }
}

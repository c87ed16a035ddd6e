//! The far end of a shadow ray: a silhouette vertex carried away from the
//! light onto the boundary of the viewport.
//!
//! The ray through a vertex `p` is followed to the vertical edge that it
//! heads to. Where it meets that edge within the vertical extent of the
//! viewport, the meeting point is the projection; else the ray has left
//! through the top or the bottom edge, and the projection lies there. Which
//! of the cases holds is decided exactly; the one coordinate that is a
//! quotient is then rounded down.

use vstd::prelude::*;
use crate::arith::{dist, div_floor, floor_div, lemma_floor_div_bounds, lemma_product_bound};
use crate::geometry::{Point, Viewport, COORD_LIMIT};
use crate::model::Model;
use crate::nannou_geom::{range_contains, spans};

verus! {

/// The vertical edge that the ray heads to: the right one for a vertex to
/// the right of the light, else the left one.
pub open spec fn side_edge(light: Point, p: Point, vp: Viewport) -> int {
    if p.x > light.x {
        vp.right as int
    } else {
        vp.left as int
    }
}

/// The horizontal edge that the ray heads to: the top one for a vertex
/// above the light (of greater `y`), else the bottom one.
pub open spec fn level_edge(light: Point, p: Point, vp: Viewport) -> int {
    if light.y < p.y {
        vp.top as int
    } else {
        vp.bottom as int
    }
}

/// The height at which the ray meets its vertical edge, times
/// `p.x - light.x`.
pub open spec fn side_crossing(light: Point, p: Point, vp: Viewport) -> int {
    p.y * (p.x - light.x) + (p.y - light.y) * (side_edge(light, p, vp) - p.x)
}

/// The ray is not vertical and meets its vertical edge within the vertical
/// extent of the viewport.
pub open spec fn meets_side(light: Point, p: Point, vp: Viewport) -> bool {
    &&& p.x != light.x
    &&& spans(
        vp.bottom * (p.x - light.x),
        vp.top * (p.x - light.x),
        side_crossing(light, p, vp),
    )
}

/// The `x` of the projection of `p`.
///
/// A vertical ray keeps the `x` of its vertex. A horizontal ray that runs
/// above or below the viewport never meets the top or the bottom edge: its
/// projection is put at the end of that edge to which the ray heads.
pub open spec fn projection_x(light: Point, p: Point, vp: Viewport) -> int {
    if p.x == light.x {
        p.x as int
    } else if meets_side(light, p, vp) || p.y == light.y {
        side_edge(light, p, vp)
    } else {
        p.x + floor_div((level_edge(light, p, vp) - p.y) * (p.x - light.x), p.y - light.y)
    }
}

/// The `y` of the projection of `p`.
pub open spec fn projection_y(light: Point, p: Point, vp: Viewport) -> int {
    if meets_side(light, p, vp) {
        floor_div(side_crossing(light, p, vp), p.x - light.x)
    } else {
        level_edge(light, p, vp)
    }
}

/// The projection of `p` away from the light onto the boundary of the
/// viewport.
pub open spec fn projection(light: Point, p: Point, vp: Viewport) -> Point {
    Point { x: projection_x(light, p, vp) as i64, y: projection_y(light, p, vp) as i64 }
}

/// A quotient rounded down lies between two integers when the dividend lies
/// between their multiples of the divisor.
pub proof fn lemma_floor_div_between(n: int, d: int, lo: int, hi: int)
    requires
        d != 0,
        lo <= hi,
        spans(lo * d, hi * d, n),
    ensures
        lo <= floor_div(n, d) <= hi,
{
    let q = floor_div(n, d);
    lemma_floor_div_bounds(n, d);
    if d > 0 {
        assert(lo * d <= hi * d) by (nonlinear_arith)
            requires
                lo <= hi,
                d > 0,
        ;
        assert(lo <= q <= hi) by (nonlinear_arith)
            requires
                d > 0,
                q * d <= n < q * d + d,
                lo * d <= n <= hi * d,
        ;
    } else {
        assert(hi * d <= lo * d) by (nonlinear_arith)
            requires
                lo <= hi,
                d < 0,
        ;
        assert(lo <= q <= hi) by (nonlinear_arith)
            requires
                d < 0,
                q * d >= n > q * d + d,
                hi * d <= n <= lo * d,
        ;
    }
}

/// A quotient rounded down is no larger in magnitude than its dividend.
pub proof fn lemma_floor_div_magnitude(n: int, d: int, m: int)
    requires
        d != 0,
        -m <= n <= m,
    ensures
        -m <= floor_div(n, d) <= m,
{
    let q = floor_div(n, d);
    lemma_floor_div_bounds(n, d);
    if d > 0 {
        assert(-m <= q <= m) by (nonlinear_arith)
            requires
                d > 0,
                q * d <= n < q * d + d,
                -m <= n <= m,
        ;
    } else {
        assert(-m <= q <= m) by (nonlinear_arith)
            requires
                d < 0,
                q * d >= n > q * d + d,
                -m <= n <= m,
        ;
    }
}

/// The projection of a vertex that lies in the viewport lies in the
/// viewport, wherever the light stands.
pub proof fn lemma_projection_inside(light: Point, p: Point, vp: Viewport)
    requires
        vp.wf(),
        vp.contains(p),
    ensures
        vp.left <= projection_x(light, p, vp) <= vp.right,
        vp.bottom <= projection_y(light, p, vp) <= vp.top,
        vp.contains(projection(light, p, vp)),
{
    lemma_projection_between(light, p, vp);
}

/// The projection lies on one of the four lines that carry the edges of the
/// viewport; that of a vertex in the viewport lies on its boundary.
pub proof fn lemma_projection_on_boundary(light: Point, p: Point, vp: Viewport)
    ensures
        ({
            let x = projection_x(light, p, vp);
            let y = projection_y(light, p, vp);
            x == vp.left || x == vp.right || y == vp.bottom || y == vp.top
        }),
{
}

/// The projection of a vertex that lies in the viewport lies beyond the
/// vertex as seen from the light: on each axis it is as far from the light
/// as the vertex or farther, on the same side.
pub proof fn lemma_projection_away(light: Point, p: Point, vp: Viewport)
    requires
        vp.wf(),
        vp.contains(p),
    ensures
        p.x > light.x ==> projection_x(light, p, vp) >= p.x,
        p.x < light.x ==> projection_x(light, p, vp) <= p.x,
        p.x == light.x ==> projection_x(light, p, vp) == p.x,
        p.y > light.y ==> projection_y(light, p, vp) >= p.y,
        p.y <= light.y ==> projection_y(light, p, vp) <= p.y,
{
    lemma_projection_between(light, p, vp);
}

/// The projection of a vertex that lies in the viewport lies between the
/// vertex and the edges that the ray heads to.
proof fn lemma_projection_between(light: Point, p: Point, vp: Viewport)
    requires
        vp.wf(),
        vp.contains(p),
    ensures
        dist(projection_x(light, p, vp), p.x as int) <= dist(side_edge(light, p, vp), p.x as int),
        p.x >= light.x ==> p.x <= projection_x(light, p, vp) <= vp.right,
        p.x <= light.x ==> vp.left <= projection_x(light, p, vp) <= p.x,
        p.y > light.y ==> p.y <= projection_y(light, p, vp) <= vp.top,
        p.y <= light.y ==> vp.bottom <= projection_y(light, p, vp) <= p.y,
{
    let dx = p.x - light.x;
    let dy = p.y - light.y;
    let xe = side_edge(light, p, vp);
    let ye = level_edge(light, p, vp);
    let n = side_crossing(light, p, vp);
    let run = xe - p.x;
    if dx != 0 {
        assert(n == p.y * dx + dy * run);
        assert((dx > 0) == (dy > 0) ==> dy * run >= 0) by (nonlinear_arith)
            requires
                dx > 0 ==> run >= 0,
                dx < 0 ==> run <= 0,
                dx != 0,
        ;
        assert((dx > 0) != (dy > 0) ==> dy * run <= 0) by (nonlinear_arith)
            requires
                dx > 0 ==> run >= 0,
                dx < 0 ==> run <= 0,
                dx != 0,
        ;
        assert(dy == 0 ==> dy * run == 0) by (nonlinear_arith);
        assert(dx > 0 ==> vp.bottom * dx <= p.y * dx <= vp.top * dx) by (nonlinear_arith)
            requires
                vp.bottom <= p.y <= vp.top,
        ;
        assert(dx < 0 ==> vp.top * dx <= p.y * dx <= vp.bottom * dx) by (nonlinear_arith)
            requires
                vp.bottom <= p.y <= vp.top,
        ;
    }
    if meets_side(light, p, vp) {
        if dy > 0 {
            // The ray climbs: it meets the edge at the height of the vertex
            // or above it.
            assert(spans(p.y * dx, vp.top * dx, n));
            lemma_floor_div_between(n, dx, p.y as int, vp.top as int);
        } else {
            assert(spans(vp.bottom * dx, p.y * dx, n));
            lemma_floor_div_between(n, dx, vp.bottom as int, p.y as int);
        }
    } else if dx != 0 && dy != 0 {
        let a = ye - p.y;
        let q = floor_div(a * dx, dy);
        lemma_floor_div_bounds(a * dx, dy);
        // The ray reaches the height of its horizontal edge before it has
        // run the whole way to its vertical edge.
        if dx > 0 {
            if dy > 0 {
                assert(0 <= q <= run) by (nonlinear_arith)
                    requires
                        dx > 0,
                        dy > 0,
                        a >= 0,
                        run >= 0,
                        a == vp.top - p.y,
                        n == p.y * dx + dy * run,
                        !(n <= vp.top * dx),
                        q * dy <= a * dx < q * dy + dy,
                ;
            } else {
                assert(0 <= q <= run) by (nonlinear_arith)
                    requires
                        dx > 0,
                        dy < 0,
                        a <= 0,
                        run >= 0,
                        a == vp.bottom - p.y,
                        n == p.y * dx + dy * run,
                        !(vp.bottom * dx <= n),
                        q * dy >= a * dx > q * dy + dy,
                ;
            }
        } else {
            if dy > 0 {
                assert(run <= q <= 0) by (nonlinear_arith)
                    requires
                        dx < 0,
                        dy > 0,
                        a >= 0,
                        run <= 0,
                        a == vp.top - p.y,
                        n == p.y * dx + dy * run,
                        !(vp.top * dx <= n),
                        q * dy <= a * dx < q * dy + dy,
                ;
            } else {
                assert(run <= q <= 0) by (nonlinear_arith)
                    requires
                        dx < 0,
                        dy < 0,
                        a <= 0,
                        run <= 0,
                        a == vp.bottom - p.y,
                        n == p.y * dx + dy * run,
                        !(n <= vp.bottom * dx),
                        q * dy >= a * dx > q * dy + dy,
                ;
            }
        }
    }
}

impl Model {
    /// The projection of a silhouette vertex away from the light onto the
    /// boundary of the viewport.
    pub fn get_intersection_point(&self, point: Point, window_rect: Viewport) -> (far: Point)
        requires
            self.light.pos.in_bounds(),
            point.in_bounds(),
            window_rect.wf(),
        ensures
            far.x == projection_x(self.light.pos, point, window_rect),
            far.y == projection_y(self.light.pos, point, window_rect),
            far == projection(self.light.pos, point, window_rect),
    {
        let light = self.light.pos;
        let dx: i128 = point.x as i128 - light.x as i128;
        let dy: i128 = point.y as i128 - light.y as i128;
        let level: i64 = if light.y < point.y {
            window_rect.top
        } else {
            window_rect.bottom
        };
        if dx == 0 {
            return Point { x: point.x, y: level };
        }
        let side: i64 = if dx > 0 {
            window_rect.right
        } else {
            window_rect.left
        };
        let run: i128 = side as i128 - point.x as i128;
        proof {
            lemma_product_bound(point.y as int, dx as int, COORD_LIMIT as int, 2 * COORD_LIMIT);
            lemma_product_bound(dy as int, run as int, 2 * COORD_LIMIT, 2 * COORD_LIMIT);
            lemma_product_bound(
                window_rect.bottom as int,
                dx as int,
                COORD_LIMIT as int,
                2 * COORD_LIMIT,
            );
            lemma_product_bound(
                window_rect.top as int,
                dx as int,
                COORD_LIMIT as int,
                2 * COORD_LIMIT,
            );
        }
        let crossing: i128 = point.y as i128 * dx + dy * run;
        if range_contains(window_rect.bottom as i128 * dx, window_rect.top as i128 * dx, crossing) {
            proof {
                lemma_floor_div_between(
                    crossing as int,
                    dx as int,
                    window_rect.bottom as int,
                    window_rect.top as int,
                );
            }
            let y = div_floor(crossing, dx);
            Point { x: side, y: y as i64 }
        } else if dy == 0 {
            Point { x: side, y: level }
        } else {
            let rise: i128 = level as i128 - point.y as i128;
            proof {
                lemma_product_bound(rise as int, dx as int, 2 * COORD_LIMIT, 2 * COORD_LIMIT);
                lemma_floor_div_magnitude(
                    rise * dx,
                    dy as int,
                    (2 * COORD_LIMIT) * (2 * COORD_LIMIT),
                );
            }
            let x = point.x as i128 + div_floor(rise * dx, dy);
            Point { x: x as i64, y: level }
        }
    }
}

} // verus!

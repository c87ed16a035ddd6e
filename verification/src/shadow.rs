//! The shadow behind a wall: the region between the two shadow rays, closed
//! along the boundary of the viewport.

use vstd::prelude::*;
use crate::geometry::{all_in_bounds, Corner, Point, Viewport};
use crate::model::{outlines, Model, Polygon};
use crate::nannou_geom::{closest_corner, nearest_corner};
use crate::projection::{lemma_projection_inside, level_edge, meets_side, projection};
use crate::silhouette::{
    has_silhouette, is_left_tangent, is_right_tangent, lemma_silhouette_some, silhouette,
};

verus! {

/// The corner of the viewport nearest to the midpoint of `a` and `b`. The
/// midpoint may fall between lattice points, so every length is taken
/// twice.
pub open spec fn corner_near_midpoint(a: Point, b: Point, vp: Viewport) -> Corner {
    nearest_corner(
        2 * vp.left,
        2 * vp.right,
        2 * vp.bottom,
        2 * vp.top,
        a.x + b.x,
        a.y + b.y,
    )
}

/// The corners of the viewport that the outline of a shadow passes on its
/// way from the left projection `lp` to the right projection `rp`.
///
/// None where the two share a coordinate. Two where their heights are
/// opposite numbers, and two where their abscissas are: the corners of the
/// side that the outline follows. In every other case the one corner
/// nearest to the midpoint of the two.
pub open spec fn corners_between(lp: Point, rp: Point, vp: Viewport) -> Seq<Point> {
    if lp.y == rp.y || lp.x == rp.x {
        Seq::empty()
    } else if lp.y + rp.y == 0 {
        if lp.y < rp.y {
            seq![vp.corner(Corner::BottomLeft), vp.corner(Corner::TopLeft)]
        } else {
            seq![vp.corner(Corner::TopRight), vp.corner(Corner::BottomRight)]
        }
    } else if lp.x + rp.x == 0 {
        if lp.x < rp.x {
            seq![vp.corner(Corner::TopLeft), vp.corner(Corner::TopRight)]
        } else {
            seq![vp.corner(Corner::BottomRight), vp.corner(Corner::BottomLeft)]
        }
    } else {
        seq![vp.corner(corner_near_midpoint(lp, rp, vp))]
    }
}

/// The outline of the shadow behind the silhouette edge from `left` to
/// `right`: the projection of `left`, the corners between the projections,
/// the projection of `right`, then `right` and `left` themselves.
pub open spec fn shadow_outline(light: Point, left: Point, right: Point, vp: Viewport) -> Seq<
    Point,
> {
    let lp = projection(light, left, vp);
    let rp = projection(light, right, vp);
    seq![lp] + corners_between(lp, rp, vp) + seq![rp, right, left]
}

/// The shadow that a wall casts; `None` for a wall without a silhouette.
pub open spec fn shadow_polygon(light: Point, wall: Seq<Point>, vp: Viewport) -> Option<
    Seq<Point>,
> {
    match silhouette(light, wall) {
        Some((left, right)) => Some(shadow_outline(light, left, right, vp)),
        None => None,
    }
}

/// The shadows of the walls that have one, in the order of the walls.
pub open spec fn shadow_polygons(light: Point, walls: Seq<Seq<Point>>, vp: Viewport) -> Seq<
    Seq<Point>,
>
    decreases walls.len(),
{
    if walls.len() == 0 {
        Seq::empty()
    } else {
        let before = shadow_polygons(light, walls.drop_last(), vp);
        match shadow_polygon(light, walls.last(), vp) {
            Some(shadow) => before.push(shadow),
            None => before,
        }
    }
}

/// The corners between two projections, appended to `points`.
fn push_corners_between(points: &mut Vec<Point>, lp: Point, rp: Point, vp: Viewport)
    ensures
        final(points)@ == old(points)@ + corners_between(lp, rp, vp),
{
    if lp.y != rp.y && lp.x != rp.x {
        if lp.y as i128 + rp.y as i128 == 0 {
            let (first, second) = if lp.y < rp.y {
                (vp.bottom_left(), vp.top_left())
            } else {
                (vp.top_right(), vp.bottom_right())
            };
            points.push(first);
            points.push(second);
        } else if lp.x as i128 + rp.x as i128 == 0 {
            let (first, second) = if lp.x < rp.x {
                (vp.top_left(), vp.top_right())
            } else {
                (vp.bottom_right(), vp.bottom_left())
            };
            points.push(first);
            points.push(second);
        } else {
            let corner = closest_corner(
                2 * (vp.left as i128),
                2 * (vp.right as i128),
                2 * (vp.bottom as i128),
                2 * (vp.top as i128),
                lp.x as i128 + rp.x as i128,
                lp.y as i128 + rp.y as i128,
            );
            points.push(vp.corner_point(corner));
        }
    }
    assert(final(points)@ =~= old(points)@ + corners_between(lp, rp, vp));
}

impl Model {
    /// The shadow that one wall casts onto the viewport; `None` for a wall
    /// without a silhouette.
    pub fn shadow_polygon(&self, wall: &[Point], window_rect: Viewport) -> (shadow: Option<
        Polygon,
    >)
        requires
            self.light.pos.in_bounds(),
            all_in_bounds(wall@),
            window_rect.wf(),
        ensures
            match shadow {
                Some(polygon) => Some(polygon@),
                None => None,
            } == shadow_polygon(self.light.pos, wall@, window_rect),
            shadow is Some <==> has_silhouette(self.light.pos, wall@),
    {
        match self.outer_most_points(wall) {
            None => None,
            Some((left, right)) => {
                let left_int = self.get_intersection_point(left, window_rect);
                let right_int = self.get_intersection_point(right, window_rect);
                let mut points: Vec<Point> = Vec::new();
                points.push(left_int);
                push_corners_between(&mut points, left_int, right_int, window_rect);
                points.push(right_int);
                points.push(right);
                points.push(left);
                assert(points@ =~= shadow_outline(self.light.pos, left, right, window_rect));
                Some(Polygon { points })
            },
        }
    }

    /// The shadows of the committed walls, in the order of the walls. A wall
    /// without a silhouette casts none.
    pub fn get_shadow_polygons(&self, window_rect: Viewport) -> (shadows: Vec<Polygon>)
        requires
            self@.walls_in_bounds(),
            window_rect.wf(),
        ensures
            outlines(shadows@) == shadow_polygons(self.light.pos, self@.walls, window_rect),
    {
        let mut shadows: Vec<Polygon> = Vec::new();
        let mut i: usize = 0;
        assert(self@.walls.take(0) =~= Seq::<Seq<Point>>::empty());
        assert(outlines(shadows@) =~= Seq::<Seq<Point>>::empty());
        while i < self.walls.len()
            invariant
                i <= self.walls.len(),
                self@.walls_in_bounds(),
                window_rect.wf(),
                outlines(shadows@) == shadow_polygons(
                    self.light.pos,
                    self@.walls.take(i as int),
                    window_rect,
                ),
            decreases self.walls.len() - i,
        {
            let ghost before = shadows@;
            let ghost done = self@.walls.take(i as int);
            let ghost next = self@.walls.take(i + 1);
            assert(next.drop_last() =~= done);
            assert(next.last() == self.walls@[i as int]@);
            assert(all_in_bounds(self@.walls[i as int]));
            match self.shadow_polygon(self.walls[i].points.as_slice(), window_rect) {
                Some(polygon) => {
                    shadows.push(polygon);
                    assert(outlines(shadows@) =~= outlines(before).push(polygon@));
                },
                None => {},
            }
            i += 1;
        }
        assert(self@.walls.take(i as int) =~= self@.walls);
        shadows
    }
}

/// The vertices named by a silhouette are vertices of the wall.
pub proof fn lemma_silhouette_of_wall(light: Point, wall: Seq<Point>)
    ensures
        silhouette(light, wall) matches Some((left, right)) ==> wall.contains(left)
            && wall.contains(right),
{
    if silhouette(light, wall) is Some {
        let l = choose|i: int| is_left_tangent(light, wall, i);
        let r = choose|i: int| is_right_tangent(light, wall, i);
        assert(wall.contains(wall[l]));
        assert(wall.contains(wall[r]));
    }
}

/// The shadow of a wall that lies in the viewport lies in the viewport,
/// wherever the light stands.
pub proof fn lemma_shadow_inside(light: Point, wall: Seq<Point>, vp: Viewport)
    requires
        vp.wf(),
        vp.contains_all(wall),
        shadow_polygon(light, wall, vp) is Some,
    ensures
        vp.contains_all(shadow_polygon(light, wall, vp)->0),
{
    let (left, right) = silhouette(light, wall)->0;
    lemma_silhouette_of_wall(light, wall);
    let lp = projection(light, left, vp);
    let rp = projection(light, right, vp);
    lemma_projection_inside(light, left, vp);
    lemma_projection_inside(light, right, vp);
    let shadow = shadow_polygon(light, wall, vp)->0;
    let corners = corners_between(lp, rp, vp);
    assert forall|i: int| 0 <= i < corners.len() implies vp.contains(#[trigger] corners[i]) by {}
    assert forall|i: int| 0 <= i < shadow.len() implies vp.contains(#[trigger] shadow[i]) by {
        if i == 0 {
        } else if i <= corners.len() {
            assert(shadow[i] == corners[i - 1]);
        } else {
        }
    }
}

/// The shadows of walls that lie in the viewport lie in the viewport.
pub proof fn lemma_shadows_inside(light: Point, walls: Seq<Seq<Point>>, vp: Viewport)
    requires
        vp.wf(),
        forall|i: int| 0 <= i < walls.len() ==> vp.contains_all(#[trigger] walls[i]),
    ensures
        forall|k: int|
            0 <= k < shadow_polygons(light, walls, vp).len() ==> vp.contains_all(
                #[trigger] shadow_polygons(light, walls, vp)[k],
            ),
    decreases walls.len(),
{
    if walls.len() > 0 {
        let before = walls.drop_last();
        assert forall|i: int| 0 <= i < before.len() implies vp.contains_all(
            #[trigger] before[i],
        ) by {
            assert(before[i] == walls[i]);
        }
        lemma_shadows_inside(light, before, vp);
        assert(vp.contains_all(walls[walls.len() - 1]));
        if shadow_polygon(light, walls.last(), vp) is Some {
            lemma_shadow_inside(light, walls.last(), vp);
        }
        let earlier = shadow_polygons(light, before, vp);
        let all = shadow_polygons(light, walls, vp);
        assert forall|k: int| 0 <= k < all.len() implies vp.contains_all(#[trigger] all[k]) by {
            if k < earlier.len() {
                assert(all[k] == earlier[k]);
            }
        }
    }
}

/// The light stands on the perpendicular bisector of a horizontal wall of
/// two vertices, and both shadow rays leave the viewport through its top or
/// its bottom edge. Then the two projections lie on that one edge, no corner
/// comes between them, and the shadow has four vertices: the two
/// projections and the two ends of the wall.
pub proof fn lemma_bisected_wall_shadow(light: Point, wall: Seq<Point>, vp: Viewport)
    requires
        wall.len() == 2,
        wall[0].y == wall[1].y,
        wall[0].x != wall[1].x,
        wall[0].x + wall[1].x == 2 * light.x,
        wall[0].y != light.y,
        !meets_side(light, wall[0], vp),
        !meets_side(light, wall[1], vp),
    ensures
        shadow_polygon(light, wall, vp) matches Some(shadow) && {
            let low = if wall[0].x < wall[1].x {
                wall[0]
            } else {
                wall[1]
            };
            let high = if wall[0].x < wall[1].x {
                wall[1]
            } else {
                wall[0]
            };
            let left = if light.y < low.y {
                low
            } else {
                high
            };
            let right = if light.y < low.y {
                high
            } else {
                low
            };
            &&& shadow == seq![
                projection(light, left, vp),
                projection(light, right, vp),
                right,
                left,
            ]
            &&& shadow.len() == 4
            &&& shadow[0].y == level_edge(light, left, vp)
            &&& shadow[1].y == level_edge(light, right, vp)
            &&& shadow[0].y == shadow[1].y
        },
{
    let l: int = if (wall[0].x < wall[1].x) == (light.y < wall[0].y) {
        0
    } else {
        1
    };
    let r = 1 - l;
    assert(wall[l].slope(light).is_negative());
    assert(wall[r].slope(light).is_positive());
    assert(is_left_tangent(light, wall, l));
    assert(is_right_tangent(light, wall, r));
    lemma_silhouette_some(light, wall);
    let lp = projection(light, wall[l], vp);
    let rp = projection(light, wall[r], vp);
    assert(lp.y == rp.y);
    assert(corners_between(lp, rp, vp) =~= Seq::<Point>::empty());
    assert(shadow_outline(light, wall[l], wall[r], vp) =~= seq![lp, rp, wall[r], wall[l]]);
}

/// There are no more shadows than walls; where every wall has a silhouette
/// there is one shadow for each wall, in the order of the walls.
pub proof fn lemma_one_shadow_per_wall(light: Point, walls: Seq<Seq<Point>>, vp: Viewport)
    ensures
        shadow_polygons(light, walls, vp).len() <= walls.len(),
        (forall|i: int| 0 <= i < walls.len() ==> has_silhouette(light, #[trigger] walls[i])) ==> {
            &&& shadow_polygons(light, walls, vp).len() == walls.len()
            &&& forall|i: int|
                0 <= i < walls.len() ==> shadow_polygon(light, #[trigger] walls[i], vp) == Some(
                    shadow_polygons(light, walls, vp)[i],
                )
        },
    decreases walls.len(),
{
    if walls.len() > 0 {
        let before = walls.drop_last();
        lemma_one_shadow_per_wall(light, before, vp);
        if forall|i: int| 0 <= i < walls.len() ==> has_silhouette(light, #[trigger] walls[i]) {
            assert forall|i: int| 0 <= i < before.len() implies has_silhouette(
                light,
                #[trigger] before[i],
            ) by {
                assert(before[i] == walls[i]);
            }
            assert(has_silhouette(light, walls[walls.len() - 1]));
            lemma_silhouette_some(light, walls.last());
            let all = shadow_polygons(light, walls, vp);
            assert forall|i: int| 0 <= i < walls.len() implies shadow_polygon(
                light,
                #[trigger] walls[i],
                vp,
            ) == Some(all[i]) by {
                if i < before.len() {
                    assert(before[i] == walls[i]);
                }
            }
        }
    }
}

/// The shadows are a function of the light, the walls and the viewport:
/// equal inputs give equal shadows, vertex for vertex, however often they
/// are computed and whatever happened in between.
pub proof fn lemma_shadows_repeatable(
    light_a: Point,
    walls_a: Seq<Seq<Point>>,
    vp_a: Viewport,
    light_b: Point,
    walls_b: Seq<Seq<Point>>,
    vp_b: Viewport,
)
    requires
        light_a == light_b,
        walls_a == walls_b,
        vp_a == vp_b,
    ensures
        shadow_polygons(light_a, walls_a, vp_a) == shadow_polygons(light_b, walls_b, vp_b),
{
}

} // verus!

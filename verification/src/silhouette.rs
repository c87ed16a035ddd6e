//! The silhouette edge of a wall: the two vertices at which the rays from
//! the light touch it.

use vstd::prelude::*;
use crate::geometry::{all_in_bounds, Point};
use crate::model::Model;
use crate::slope::{lemma_le_lt, lemma_lt_le, Slope};

verus! {

/// Every vertex lies strictly to one side of the light along the x axis:
/// all of them to its right, or all of them to its left.
pub open spec fn all_points_within(light: Point, points: Seq<Point>) -> bool {
    ||| forall|i: int| 0 <= i < points.len() ==> (#[trigger] points[i]).x > light.x
    ||| forall|i: int| 0 <= i < points.len() ==> (#[trigger] points[i]).x < light.x
}

/// Vertex `i` may be the left tangent: every vertex may where the wall lies
/// to one side of the light, else those of negative slope.
pub open spec fn eligible_left(light: Point, points: Seq<Point>, i: int) -> bool {
    &&& 0 <= i < points.len()
    &&& all_points_within(light, points) || points[i].slope(light).is_negative()
}

/// Vertex `i` may be the right tangent: every vertex may where the wall lies
/// to one side of the light, else those of positive slope.
pub open spec fn eligible_right(light: Point, points: Seq<Point>, i: int) -> bool {
    &&& 0 <= i < points.len()
    &&& all_points_within(light, points) || points[i].slope(light).is_positive()
}

/// Among the first `n` vertices, `i` is the first of those that may be the
/// left tangent and have the greatest slope.
pub open spec fn left_tangent_among(light: Point, points: Seq<Point>, n: int, i: int) -> bool {
    &&& i < n
    &&& eligible_left(light, points, i)
    &&& forall|j: int|
        j < n && #[trigger] eligible_left(light, points, j) ==> !points[i].slope(light).lt(
            points[j].slope(light),
        )
    &&& forall|j: int|
        j < i && #[trigger] eligible_left(light, points, j) ==> points[j].slope(light).lt(
            points[i].slope(light),
        )
}

/// Among the first `n` vertices, `i` is the first of those that may be the
/// right tangent and have the least slope.
pub open spec fn right_tangent_among(light: Point, points: Seq<Point>, n: int, i: int) -> bool {
    &&& i < n
    &&& eligible_right(light, points, i)
    &&& forall|j: int|
        j < n && #[trigger] eligible_right(light, points, j) ==> !points[j].slope(light).lt(
            points[i].slope(light),
        )
    &&& forall|j: int|
        j < i && #[trigger] eligible_right(light, points, j) ==> points[i].slope(light).lt(
            points[j].slope(light),
        )
}

/// Vertex `i` is the left tangent of the wall: of the eligible vertices of
/// greatest slope, the one met first.
pub open spec fn is_left_tangent(light: Point, points: Seq<Point>, i: int) -> bool {
    left_tangent_among(light, points, points.len() as int, i)
}

/// Vertex `i` is the right tangent of the wall: of the eligible vertices of
/// least slope, the one met first.
pub open spec fn is_right_tangent(light: Point, points: Seq<Point>, i: int) -> bool {
    right_tangent_among(light, points, points.len() as int, i)
}

/// The wall has a vertex for each side of its silhouette.
pub open spec fn has_silhouette(light: Point, points: Seq<Point>) -> bool {
    &&& exists|i: int| eligible_left(light, points, i)
    &&& exists|i: int| eligible_right(light, points, i)
}

/// The silhouette edge of the wall as seen from the light, left tangent
/// first; `None` for a wall that lacks a vertex for one of the sides.
pub open spec fn silhouette(light: Point, points: Seq<Point>) -> Option<(Point, Point)> {
    if (exists|i: int| is_left_tangent(light, points, i)) && (exists|i: int|
        is_right_tangent(light, points, i)) {
        Some(
            (
                points[choose|i: int| is_left_tangent(light, points, i)],
                points[choose|i: int| is_right_tangent(light, points, i)],
            ),
        )
    } else {
        None
    }
}

/// A wall has at most one left tangent.
pub proof fn lemma_left_tangent_unique(light: Point, points: Seq<Point>, i: int, k: int)
    requires
        is_left_tangent(light, points, i),
        is_left_tangent(light, points, k),
    ensures
        i == k,
{
}

/// A wall has at most one right tangent.
pub proof fn lemma_right_tangent_unique(light: Point, points: Seq<Point>, i: int, k: int)
    requires
        is_right_tangent(light, points, i),
        is_right_tangent(light, points, k),
    ensures
        i == k,
{
}

/// The slope of a vertex that may be a tangent is a proper fraction.
pub proof fn lemma_eligible_proper(light: Point, points: Seq<Point>, i: int)
    requires
        eligible_left(light, points, i) || eligible_right(light, points, i),
    ensures
        points[i].slope(light).proper(),
{
}

/// Among the vertices that may be the left tangent, `i` is the last of
/// greatest slope.
pub open spec fn is_last_left_tangent(light: Point, points: Seq<Point>, i: int) -> bool {
    &&& eligible_left(light, points, i)
    &&& forall|j: int| #[trigger]
        eligible_left(light, points, j) ==> !points[i].slope(light).lt(points[j].slope(light))
    &&& forall|j: int|
        i < j && #[trigger] eligible_left(light, points, j) ==> points[j].slope(light).lt(
            points[i].slope(light),
        )
}

/// Among the vertices that may be the right tangent, `i` is the last of
/// least slope.
pub open spec fn is_last_right_tangent(light: Point, points: Seq<Point>, i: int) -> bool {
    &&& eligible_right(light, points, i)
    &&& forall|j: int| #[trigger]
        eligible_right(light, points, j) ==> !points[j].slope(light).lt(points[i].slope(light))
    &&& forall|j: int|
        i < j && #[trigger] eligible_right(light, points, j) ==> points[i].slope(light).lt(
            points[j].slope(light),
        )
}

/// Where two vertices tie for a tangent, they are one point: the first and
/// the last vertex of greatest slope agree, and so do the first and the last
/// of least slope.
pub open spec fn ties_agree(light: Point, points: Seq<Point>) -> bool {
    &&& forall|i: int, j: int|
        is_left_tangent(light, points, i) && is_last_left_tangent(light, points, j)
            ==> points[i] == points[j]
    &&& forall|i: int, j: int|
        is_right_tangent(light, points, i) && is_last_right_tangent(light, points, j)
            ==> points[i] == points[j]
}

/// Among the first `n` vertices, one of which may be the left tangent, the
/// returned one is the first of greatest slope.
pub proof fn lemma_left_tangent_exists(light: Point, points: Seq<Point>, n: int) -> (i: int)
    requires
        0 <= n <= points.len(),
        exists|j: int| j < n && eligible_left(light, points, j),
    ensures
        left_tangent_among(light, points, n, i),
    decreases n,
{
    let last = n - 1;
    if exists|j: int| j < last && eligible_left(light, points, j) {
        let b = lemma_left_tangent_exists(light, points, last);
        let best = points[b].slope(light);
        let next = points[last].slope(light);
        if eligible_left(light, points, last) && best.lt(next) {
            lemma_eligible_proper(light, points, last);
            lemma_eligible_proper(light, points, b);
            assert forall|j: int|
                j < last && #[trigger] eligible_left(light, points, j) implies points[j].slope(
                light,
            ).lt(next) by {
                lemma_eligible_proper(light, points, j);
                lemma_le_lt(points[j].slope(light), best, next);
            }
            last
        } else {
            b
        }
    } else {
        last
    }
}

/// Among the first `n` vertices, one of which may be the right tangent, the
/// returned one is the first of least slope.
pub proof fn lemma_right_tangent_exists(light: Point, points: Seq<Point>, n: int) -> (i: int)
    requires
        0 <= n <= points.len(),
        exists|j: int| j < n && eligible_right(light, points, j),
    ensures
        right_tangent_among(light, points, n, i),
    decreases n,
{
    let last = n - 1;
    if exists|j: int| j < last && eligible_right(light, points, j) {
        let b = lemma_right_tangent_exists(light, points, last);
        let best = points[b].slope(light);
        let next = points[last].slope(light);
        if eligible_right(light, points, last) && next.lt(best) {
            lemma_eligible_proper(light, points, last);
            lemma_eligible_proper(light, points, b);
            assert forall|j: int|
                j < last && #[trigger] eligible_right(light, points, j) implies next.lt(
                points[j].slope(light),
            ) by {
                lemma_eligible_proper(light, points, j);
                lemma_lt_le(next, best, points[j].slope(light));
            }
            last
        } else {
            b
        }
    } else {
        last
    }
}

/// A wall has a silhouette edge exactly where it has a vertex for each side,
/// and the edge is then made of its left and its right tangent.
pub proof fn lemma_silhouette_some(light: Point, points: Seq<Point>)
    ensures
        silhouette(light, points) is Some <==> has_silhouette(light, points),
        forall|i: int, k: int|
            is_left_tangent(light, points, i) && is_right_tangent(light, points, k)
                ==> silhouette(light, points) == Some((points[i], points[k])),
{
    if has_silhouette(light, points) {
        let l = lemma_left_tangent_exists(light, points, points.len() as int);
        let r = lemma_right_tangent_exists(light, points, points.len() as int);
        assert(is_left_tangent(light, points, l));
        assert(is_right_tangent(light, points, r));
    }
    assert forall|i: int, k: int|
        is_left_tangent(light, points, i) && is_right_tangent(
            light,
            points,
            k,
        ) implies silhouette(light, points) == Some((points[i], points[k])) by {
        let cl = choose|i: int| is_left_tangent(light, points, i);
        let cr = choose|i: int| is_right_tangent(light, points, i);
        lemma_left_tangent_unique(light, points, cl, i);
        lemma_right_tangent_unique(light, points, cr, k);
    }
}

/// The first tangents of the reversed wall are the last tangents of the
/// wall.
pub proof fn lemma_reverse_tangents(light: Point, points: Seq<Point>, i: int)
    requires
        0 <= i < points.len(),
    ensures
        all_points_within(light, points.reverse()) == all_points_within(light, points),
        eligible_left(light, points.reverse(), i) == eligible_left(
            light,
            points,
            points.len() - 1 - i,
        ),
        eligible_right(light, points.reverse(), i) == eligible_right(
            light,
            points,
            points.len() - 1 - i,
        ),
        is_left_tangent(light, points.reverse(), i) == is_last_left_tangent(
            light,
            points,
            points.len() - 1 - i,
        ),
        is_right_tangent(light, points.reverse(), i) == is_last_right_tangent(
            light,
            points,
            points.len() - 1 - i,
        ),
{
    let rev = points.reverse();
    let n = points.len() as int;
    lemma_reverse_within(light, points);
    lemma_reverse_within(light, rev);
    assert(rev.reverse() =~= points);
    assert forall|j: int| 0 <= j < n implies rev[j] == points[n - 1 - j] by {}
    if is_left_tangent(light, rev, i) {
        assert forall|j: int| #[trigger]
            eligible_left(light, points, j) implies !points[n - 1 - i].slope(light).lt(
            points[j].slope(light),
        ) by {
            assert(eligible_left(light, rev, n - 1 - j));
        }
        assert forall|j: int|
            n - 1 - i < j && #[trigger] eligible_left(light, points, j) implies points[j].slope(
            light,
        ).lt(points[n - 1 - i].slope(light)) by {
            assert(eligible_left(light, rev, n - 1 - j));
        }
    }
    if is_last_left_tangent(light, points, n - 1 - i) {
        assert forall|j: int|
            j < n && #[trigger] eligible_left(light, rev, j) implies !rev[i].slope(light).lt(
            rev[j].slope(light),
        ) by {
            assert(eligible_left(light, points, n - 1 - j));
        }
        assert forall|j: int|
            j < i && #[trigger] eligible_left(light, rev, j) implies rev[j].slope(light).lt(
            rev[i].slope(light),
        ) by {
            assert(eligible_left(light, points, n - 1 - j));
        }
    }
    if is_right_tangent(light, rev, i) {
        assert forall|j: int| #[trigger]
            eligible_right(light, points, j) implies !points[j].slope(light).lt(
            points[n - 1 - i].slope(light),
        ) by {
            assert(eligible_right(light, rev, n - 1 - j));
        }
        assert forall|j: int|
            n - 1 - i < j && #[trigger] eligible_right(light, points, j) implies points[n - 1
                - i].slope(light).lt(points[j].slope(light)) by {
            assert(eligible_right(light, rev, n - 1 - j));
        }
    }
    if is_last_right_tangent(light, points, n - 1 - i) {
        assert forall|j: int|
            j < n && #[trigger] eligible_right(light, rev, j) implies !rev[j].slope(light).lt(
            rev[i].slope(light),
        ) by {
            assert(eligible_right(light, points, n - 1 - j));
        }
        assert forall|j: int|
            j < i && #[trigger] eligible_right(light, rev, j) implies rev[i].slope(light).lt(
            rev[j].slope(light),
        ) by {
            assert(eligible_right(light, points, n - 1 - j));
        }
    }
}

/// A wall that lies to one side of the light does so in any order.
proof fn lemma_reverse_within(light: Point, points: Seq<Point>)
    ensures
        all_points_within(light, points) ==> all_points_within(light, points.reverse()),
{
    let rev = points.reverse();
    let n = points.len() as int;
    if forall|i: int| 0 <= i < points.len() ==> (#[trigger] points[i]).x > light.x {
        assert forall|i: int| 0 <= i < rev.len() implies (#[trigger] rev[i]).x > light.x by {
            assert(rev[i] == points[n - 1 - i]);
        }
    }
    if forall|i: int| 0 <= i < points.len() ==> (#[trigger] points[i]).x < light.x {
        assert forall|i: int| 0 <= i < rev.len() implies (#[trigger] rev[i]).x < light.x by {
            assert(rev[i] == points[n - 1 - i]);
        }
    }
}

/// A wall has a vertex for each side exactly where the reversed wall has.
proof fn lemma_reverse_has_silhouette(light: Point, points: Seq<Point>)
    ensures
        has_silhouette(light, points.reverse()) == has_silhouette(light, points),
{
    let rev = points.reverse();
    let n = points.len() as int;
    if exists|i: int| eligible_left(light, points, i) {
        let e = choose|i: int| eligible_left(light, points, i);
        lemma_reverse_tangents(light, points, n - 1 - e);
        assert(eligible_left(light, rev, n - 1 - e));
    }
    if exists|i: int| eligible_right(light, points, i) {
        let e = choose|i: int| eligible_right(light, points, i);
        lemma_reverse_tangents(light, points, n - 1 - e);
        assert(eligible_right(light, rev, n - 1 - e));
    }
    if exists|i: int| eligible_left(light, rev, i) {
        let e = choose|i: int| eligible_left(light, rev, i);
        lemma_reverse_tangents(light, points, e);
        assert(eligible_left(light, points, n - 1 - e));
    }
    if exists|i: int| eligible_right(light, rev, i) {
        let e = choose|i: int| eligible_right(light, rev, i);
        lemma_reverse_tangents(light, points, e);
        assert(eligible_right(light, points, n - 1 - e));
    }
}

/// The left tangent of the wall and that of the reversed wall, which are one
/// point where ties agree.
proof fn lemma_reverse_left(light: Point, points: Seq<Point>) -> (pair: (int, int))
    requires
        has_silhouette(light, points),
        has_silhouette(light, points.reverse()),
        ties_agree(light, points),
    ensures
        is_left_tangent(light, points, pair.0),
        is_left_tangent(light, points.reverse(), pair.1),
        points[pair.0] == points.reverse()[pair.1],
{
    let n = points.len() as int;
    let l = lemma_left_tangent_exists(light, points, n);
    let rl = lemma_left_tangent_exists(light, points.reverse(), n);
    lemma_reverse_tangents(light, points, rl);
    assert(is_last_left_tangent(light, points, n - 1 - rl));
    assert(points.reverse()[rl] == points[n - 1 - rl]);
    (l, rl)
}

/// The right tangent of the wall and that of the reversed wall, which are
/// one point where ties agree.
proof fn lemma_reverse_right(light: Point, points: Seq<Point>) -> (pair: (int, int))
    requires
        has_silhouette(light, points),
        has_silhouette(light, points.reverse()),
        ties_agree(light, points),
    ensures
        is_right_tangent(light, points, pair.0),
        is_right_tangent(light, points.reverse(), pair.1),
        points[pair.0] == points.reverse()[pair.1],
{
    let n = points.len() as int;
    let r = lemma_right_tangent_exists(light, points, n);
    let rr = lemma_right_tangent_exists(light, points.reverse(), n);
    lemma_reverse_tangents(light, points, rr);
    assert(is_last_right_tangent(light, points, n - 1 - rr));
    assert(points.reverse()[rr] == points[n - 1 - rr]);
    (r, rr)
}

/// The silhouette edge does not depend on the direction in which the wall
/// is walked: the reversed wall has the same left and the same right
/// tangent. Only a tie between two different vertices tells the directions
/// apart, as the first of them is taken.
pub proof fn lemma_silhouette_reverse(light: Point, points: Seq<Point>)
    requires
        has_silhouette(light, points) ==> ties_agree(light, points),
    ensures
        silhouette(light, points.reverse()) == silhouette(light, points),
{
    lemma_silhouette_some(light, points);
    lemma_silhouette_some(light, points.reverse());
    lemma_reverse_has_silhouette(light, points);
    if has_silhouette(light, points) {
        let left = lemma_reverse_left(light, points);
        let right = lemma_reverse_right(light, points);
    }
}

/// Tests [`all_points_within`].
fn points_to_one_side(light: Point, points: &[Point]) -> (b: bool)
    ensures
        b == all_points_within(light, points@),
{
    let mut right: bool = true;
    let mut left: bool = true;
    let mut i: usize = 0;
    while i < points.len()
        invariant
            i <= points.len(),
            right == (forall|j: int| 0 <= j < i ==> (#[trigger] points@[j]).x > light.x),
            left == (forall|j: int| 0 <= j < i ==> (#[trigger] points@[j]).x < light.x),
        decreases points.len() - i,
    {
        if points[i].x <= light.x {
            right = false;
        }
        if points[i].x >= light.x {
            left = false;
        }
        i += 1;
    }
    right || left
}

impl Model {
    /// The silhouette edge of a wall as seen from the light: the left
    /// tangent, then the right one. `None` for a wall without a vertex for
    /// one of the two sides: a wall that reaches across the light and has no
    /// vertex of negative slope, or none of positive slope.
    pub fn outer_most_points(&self, points: &[Point]) -> (edge: Option<(Point, Point)>)
        requires
            self.light.pos.in_bounds(),
            all_in_bounds(points@),
        ensures
            edge == silhouette(self.light.pos, points@),
            edge is Some <==> has_silhouette(self.light.pos, points@),
            edge matches Some((left, right)) ==> exists|i: int, k: int|
                is_left_tangent(self.light.pos, points@, i) && is_right_tangent(
                    self.light.pos,
                    points@,
                    k,
                ) && left == points@[i] && right == points@[k],
    {
        let light = self.light.pos;
        let within = points_to_one_side(light, points);
        let mut best_left: Option<(usize, Slope)> = None;
        let mut best_right: Option<(usize, Slope)> = None;
        let mut i: usize = 0;
        while i < points.len()
            invariant
                i <= points.len(),
                light.in_bounds(),
                all_in_bounds(points@),
                within == all_points_within(light, points@),
                match best_left {
                    Some((b, s)) => left_tangent_among(light, points@, i as int, b as int) && s@
                        == points@[b as int].slope(light),
                    None => forall|j: int| j < i ==> !eligible_left(light, points@, j),
                },
                match best_right {
                    Some((b, s)) => right_tangent_among(light, points@, i as int, b as int) && s@
                        == points@[b as int].slope(light),
                    None => forall|j: int| j < i ==> !eligible_right(light, points@, j),
                },
            decreases points.len() - i,
        {
            let p = points[i];
            assert(p.in_bounds());
            let s = p.slope_to(light);
            if within || s.is_negative() {
                assert(eligible_left(light, points@, i as int));
                let better = match best_left {
                    Some((b, t)) => {
                        let better = t.less_than(&s);
                        proof {
                            lemma_eligible_proper(light, points@, i as int);
                            lemma_eligible_proper(light, points@, b as int);
                            if better {
                                assert forall|j: int|
                                    j < i && #[trigger] eligible_left(
                                        light,
                                        points@,
                                        j,
                                    ) implies points@[j].slope(light).lt(s@) by {
                                    lemma_eligible_proper(light, points@, j);
                                    lemma_le_lt(points@[j].slope(light), t@, s@);
                                }
                            }
                        }
                        better
                    },
                    None => true,
                };
                if better {
                    best_left = Some((i, s));
                }
            }
            if within || s.is_positive() {
                assert(eligible_right(light, points@, i as int));
                let better = match best_right {
                    Some((b, t)) => {
                        let better = s.less_than(&t);
                        proof {
                            lemma_eligible_proper(light, points@, i as int);
                            lemma_eligible_proper(light, points@, b as int);
                            if better {
                                assert forall|j: int|
                                    j < i && #[trigger] eligible_right(
                                        light,
                                        points@,
                                        j,
                                    ) implies s@.lt(points@[j].slope(light)) by {
                                    lemma_eligible_proper(light, points@, j);
                                    lemma_lt_le(s@, t@, points@[j].slope(light));
                                }
                            }
                        }
                        better
                    },
                    None => true,
                };
                if better {
                    best_right = Some((i, s));
                }
            }
            i += 1;
        }
        match (best_left, best_right) {
            (Some((l, _)), Some((r, _))) => {
                proof {
                    assert(is_left_tangent(light, points@, l as int));
                    assert(is_right_tangent(light, points@, r as int));
                    let cl = choose|i: int| is_left_tangent(light, points@, i);
                    let cr = choose|i: int| is_right_tangent(light, points@, i);
                    lemma_left_tangent_unique(light, points@, cl, l as int);
                    lemma_right_tangent_unique(light, points@, cr, r as int);
                }
                Some((points[l], points[r]))
            },
            _ => None,
        }
    }
}

} // verus!

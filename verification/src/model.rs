//! The state of a scene: one light, the committed walls, and the wall that
//! is being drawn.

use vstd::prelude::*;
use crate::geometry::{all_in_bounds, points_in_bounds, Point};

verus! {

/// The radius with which every light is drawn.
pub const LIGHT_RADIUS: u32 = 10;

/// The point light. Its radius serves the drawing only: the geometry treats
/// the light as the point `pos`.
#[derive(Clone, Copy, Debug, PartialEq, Eq, Structural)]
pub struct Light {
    pub pos: Point,
    pub radius: u32,
}

impl Light {
    /// A light at `pos`, of the radius [`LIGHT_RADIUS`].
    pub fn new(pos: Point) -> (light: Light)
        ensures
            light == (Light { pos, radius: LIGHT_RADIUS }),
    {
        Self { pos, radius: LIGHT_RADIUS }
    }
}

/// An ordered list of vertices: a wall, or the shadow behind one.
#[derive(Clone, Debug, PartialEq, Eq)]
pub struct Polygon {
    pub points: Vec<Point>,
}

impl View for Polygon {
    type V = Seq<Point>;

    open spec fn view(&self) -> Seq<Point> {
        self.points@
    }
}

/// The vertex lists of a sequence of polygons.
pub open spec fn outlines(polygons: Seq<Polygon>) -> Seq<Seq<Point>> {
    Seq::new(polygons.len(), |i: int| polygons[i]@)
}

/// The mathematical value of a [`Model`].
pub struct ModelView {
    pub light: Light,
    pub walls: Seq<Seq<Point>>,
    pub wall_building: Option<Seq<Point>>,
}

impl ModelView {
    /// The light and every vertex of a committed wall are in bounds: what
    /// the computation of the shadows asks for.
    pub open spec fn walls_in_bounds(self) -> bool {
        &&& self.light.pos.in_bounds()
        &&& forall|i: int| 0 <= i < self.walls.len() ==> all_in_bounds(#[trigger] self.walls[i])
    }

    /// The light and every vertex are in bounds, those of the wall under
    /// construction too.
    pub open spec fn wf(self) -> bool {
        &&& self.walls_in_bounds()
        &&& self.wall_building matches Some(points) ==> all_in_bounds(points)
    }
}

/// The light, the committed walls in the order in which they were committed,
/// and the vertices of a wall under construction, if there is one.
#[derive(Clone, Debug, PartialEq, Eq)]
pub struct Model {
    pub light: Light,
    pub walls: Vec<Polygon>,
    pub wall_building: Option<Vec<Point>>,
}

impl View for Model {
    type V = ModelView;

    open spec fn view(&self) -> ModelView {
        ModelView {
            light: self.light,
            walls: outlines(self.walls@),
            wall_building: match self.wall_building {
                Some(points) => Some(points@),
                None => None,
            },
        }
    }
}

impl Model {
    /// The model at start: the light at the origin, no wall.
    pub fn new() -> (model: Model)
        ensures
            model@ == (ModelView {
                light: Light { pos: Point { x: 0, y: 0 }, radius: LIGHT_RADIUS },
                walls: Seq::<Seq<Point>>::empty(),
                wall_building: None,
            }),
            model@.wf(),
    {
        let model = Model {
            light: Light::new(Point { x: 0, y: 0 }),
            walls: Vec::new(),
            wall_building: None,
        };
        assert(model@.walls =~= Seq::<Seq<Point>>::empty());
        model
    }

    /// Tests [`ModelView::wf`]: whether the light and every vertex are in
    /// bounds.
    pub fn is_wf(&self) -> (b: bool)
        ensures
            b == self@.wf(),
    {
        if !self.light.pos.is_in_bounds() {
            return false;
        }
        let mut i: usize = 0;
        while i < self.walls.len()
            invariant
                i <= self.walls.len(),
                forall|j: int| 0 <= j < i ==> all_in_bounds(#[trigger] self@.walls[j]),
            decreases self.walls.len() - i,
        {
            if !points_in_bounds(self.walls[i].points.as_slice()) {
                assert(!all_in_bounds(self@.walls[i as int]));
                return false;
            }
            i += 1;
        }
        match &self.wall_building {
            Some(points) => points_in_bounds(points.as_slice()),
            None => true,
        }
    }
}

} // verus!

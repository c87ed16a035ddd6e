//! What is drawn for a frame, in the order in which it is drawn.

use vstd::prelude::*;
use vstd::slice::slice_to_vec;
use crate::geometry::{Point, Viewport};
use crate::model::{outlines, Light, Model, ModelView, Polygon};
use crate::shadow::shadow_polygons;

verus! {

/// One thing to draw.
#[derive(Clone, Debug, PartialEq, Eq)]
pub enum DrawCommand {
    /// The filled polygon of a shadow.
    Shadow(Polygon),
    /// The filled polygon of a wall.
    Wall(Polygon),
    /// The filled disc of the light.
    Light(Light),
    /// The open stroked path through the vertices of the wall under
    /// construction.
    Path(Vec<Point>),
}

/// The mathematical value of a [`DrawCommand`].
pub enum Shape {
    Shadow(Seq<Point>),
    Wall(Seq<Point>),
    Light(Light),
    Path(Seq<Point>),
}

impl View for DrawCommand {
    type V = Shape;

    open spec fn view(&self) -> Shape {
        match self {
            DrawCommand::Shadow(polygon) => Shape::Shadow(polygon@),
            DrawCommand::Wall(polygon) => Shape::Wall(polygon@),
            DrawCommand::Light(light) => Shape::Light(*light),
            DrawCommand::Path(points) => Shape::Path(points@),
        }
    }
}

/// The shapes of a list of commands.
pub open spec fn shapes(commands: Seq<DrawCommand>) -> Seq<Shape> {
    Seq::new(commands.len(), |i: int| commands[i]@)
}

/// The path through the wall under construction, once it has two vertices.
pub open spec fn path_shapes(wall_building: Option<Seq<Point>>) -> Seq<Shape> {
    match wall_building {
        Some(points) => if points.len() >= 2 {
            seq![Shape::Path(points)]
        } else {
            Seq::empty()
        },
        None => Seq::empty(),
    }
}

/// The frame of a model, back to front: the shadows, the walls, the light,
/// and last the path through the wall under construction.
pub open spec fn frame(model: ModelView, vp: Viewport) -> Seq<Shape> {
    let shadows = shadow_polygons(model.light.pos, model.walls, vp);
    Seq::new(shadows.len(), |i: int| Shape::Shadow(shadows[i])) + Seq::new(
        model.walls.len(),
        |i: int| Shape::Wall(model.walls[i]),
    ) + seq![Shape::Light(model.light)] + path_shapes(model.wall_building)
}

impl Model {
    /// What to draw for the model, in drawing order.
    pub fn draw_list(&self, window_rect: Viewport) -> (commands: Vec<DrawCommand>)
        requires
            self@.walls_in_bounds(),
            window_rect.wf(),
        ensures
            shapes(commands@) == frame(self@, window_rect),
    {
        let ghost shadow_seqs = shadow_polygons(self.light.pos, self@.walls, window_rect);
        let ghost shadow_shapes = Seq::new(
            shadow_seqs.len(),
            |i: int| Shape::Shadow(shadow_seqs[i]),
        );
        let ghost wall_shapes = Seq::new(
            self@.walls.len(),
            |i: int| Shape::Wall(self@.walls[i]),
        );
        let shadows = self.get_shadow_polygons(window_rect);
        let mut commands: Vec<DrawCommand> = Vec::new();
        let ghost cast = shadows@;
        for polygon in iter: shadows
            invariant
                iter.seq() == cast,
                outlines(cast) == shadow_seqs,
                shapes(commands@) == shadow_shapes.take(iter.index() as int),
                shadow_shapes == Seq::new(
                    shadow_seqs.len(),
                    |i: int| Shape::Shadow(shadow_seqs[i]),
                ),
        {
            let ghost before = commands@;
            assert(polygon@ == outlines(cast)[iter.index() as int]);
            commands.push(DrawCommand::Shadow(polygon));
            assert(shapes(commands@) =~= shapes(before).push(Shape::Shadow(polygon@)));
            assert(shadow_shapes.take(iter.index() + 1) =~= shadow_shapes.take(
                iter.index() as int,
            ).push(shadow_shapes[iter.index() as int]));
        }
        assert(shapes(commands@) =~= shadow_shapes);
        let mut i: usize = 0;
        while i < self.walls.len()
            invariant
                i <= self.walls.len(),
                shapes(commands@) == shadow_shapes + wall_shapes.take(i as int),
                wall_shapes == Seq::new(
                    self@.walls.len(),
                    |i: int| Shape::Wall(self@.walls[i]),
                ),
            decreases self.walls.len() - i,
        {
            let ghost before = commands@;
            let points = slice_to_vec(self.walls[i].points.as_slice());
            commands.push(DrawCommand::Wall(Polygon { points }));
            assert(shapes(commands@) =~= shapes(before).push(wall_shapes[i as int]));
            assert(wall_shapes.take(i + 1) =~= wall_shapes.take(i as int).push(
                wall_shapes[i as int],
            ));
            i += 1;
        }
        assert(wall_shapes.take(i as int) =~= wall_shapes);
        let ghost before = commands@;
        commands.push(DrawCommand::Light(self.light));
        assert(shapes(commands@) =~= shapes(before).push(Shape::Light(self.light)));
        match &self.wall_building {
            Some(points) => {
                if points.len() >= 2 {
                    let ghost before = commands@;
                    let path = slice_to_vec(points.as_slice());
                    commands.push(DrawCommand::Path(path));
                    assert(shapes(commands@) =~= shapes(before).push(Shape::Path(points@)));
                }
            },
            None => {},
        }
        assert(shapes(commands@) =~= frame(self@, window_rect));
        commands
    }
}

} // verus!

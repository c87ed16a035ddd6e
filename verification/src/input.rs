//! What the pointer does to the scene.

use vstd::prelude::*;
use crate::geometry::Point;
use crate::model::{Light, Model, ModelView, Polygon};

verus! {

/// An event of the pointer, as far as the scene depends on it.
#[derive(Clone, Copy, Debug, PartialEq, Eq, Structural)]
pub enum InputEvent {
    /// The primary button went down at `at`.
    PrimaryPressed { at: Point },
    /// The secondary button went down at `at`; `modified` says whether the
    /// modifier key was held.
    SecondaryPressed { at: Point, modified: bool },
    /// The pointer moved to `to`; `primary_down` says whether the primary
    /// button was held meanwhile.
    CursorMoved { to: Point, primary_down: bool },
    /// Any other event.
    Other,
}

impl InputEvent {
    /// The position that the event carries, if any, is in bounds.
    pub open spec fn in_bounds(self) -> bool {
        match self {
            InputEvent::PrimaryPressed { at } => at.in_bounds(),
            InputEvent::SecondaryPressed { at, .. } => at.in_bounds(),
            InputEvent::CursorMoved { to, .. } => to.in_bounds(),
            InputEvent::Other => true,
        }
    }
}

impl ModelView {
    /// This model with the light moved to `pos`.
    pub open spec fn with_light_at(self, pos: Point) -> ModelView {
        ModelView { light: Light { pos, radius: self.light.radius }, ..self }
    }

    /// The model after an event.
    ///
    /// A press of the primary button puts the light under the pointer, and
    /// so does a move of the pointer while that button is held. A plain
    /// press of the secondary button adds a vertex to the wall under
    /// construction, and starts one if there is none. A modified press
    /// commits the wall under construction as the last of the walls; without
    /// one it changes nothing.
    pub open spec fn after(self, event: InputEvent) -> ModelView {
        match event {
            InputEvent::PrimaryPressed { at } => self.with_light_at(at),
            InputEvent::SecondaryPressed { at, modified } => if modified {
                match self.wall_building {
                    Some(points) => ModelView {
                        walls: self.walls.push(points),
                        wall_building: None,
                        ..self
                    },
                    None => self,
                }
            } else {
                ModelView {
                    wall_building: Some(
                        match self.wall_building {
                            Some(points) => points.push(at),
                            None => seq![at],
                        },
                    ),
                    ..self
                }
            },
            InputEvent::CursorMoved { to, primary_down } => if primary_down {
                self.with_light_at(to)
            } else {
                self
            },
            InputEvent::Other => self,
        }
    }
}

/// An event whose position is in bounds keeps the model in bounds.
pub proof fn lemma_after_keeps_bounds(model: ModelView, event: InputEvent)
    requires
        model.wf(),
        event.in_bounds(),
    ensures
        model.after(event).wf(),
{
    let next = model.after(event);
    assert forall|i: int| 0 <= i < next.walls.len() implies crate::geometry::all_in_bounds(
        #[trigger] next.walls[i],
    ) by {
        if i < model.walls.len() {
            assert(next.walls[i] == model.walls[i]);
        }
    }
}

impl Model {
    /// Applies an event of the pointer to the model.
    pub fn handle_event(&mut self, event: InputEvent)
        ensures
            final(self)@ == old(self)@.after(event),
    {
        match event {
            InputEvent::PrimaryPressed { at } => {
                self.light.pos = at;
            },
            InputEvent::SecondaryPressed { at, modified } => {
                let building = self.wall_building.take();
                if modified {
                    match building {
                        Some(points) => {
                            let ghost walls = self@.walls;
                            self.walls.push(Polygon { points });
                            assert(self@.walls =~= walls.push(points@));
                        },
                        None => {},
                    }
                } else {
                    let mut points = match building {
                        Some(points) => points,
                        None => Vec::new(),
                    };
                    points.push(at);
                    self.wall_building = Some(points);
                }
            },
            InputEvent::CursorMoved { to, primary_down } => {
                if primary_down {
                    self.light.pos = to;
                }
            },
            InputEvent::Other => {},
        }
    }
}

} // verus!

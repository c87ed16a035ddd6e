use shadow_caster::{InputEvent, Light, Model, Point, Polygon, LIGHT_RADIUS};

#[test]
fn model_starts_with_the_light_at_the_origin_and_no_wall() {
    let model = Model::new();
    assert_eq!(model.light, Light { pos: Point::new(0, 0), radius: LIGHT_RADIUS });
    assert_eq!(model.light.radius, 10);
    assert!(model.walls.is_empty());
    assert_eq!(model.wall_building, None);
    assert!(model.is_wf());
}

#[test]
fn light_new_has_the_fixed_radius() {
    let light = Light::new(Point::new(-7, 12));
    assert_eq!(light.pos, Point::new(-7, 12));
    assert_eq!(light.radius, 10);
}

#[test]
fn plain_secondary_press_starts_a_wall_of_one_vertex() {
    let mut model = Model::new();
    model.handle_event(InputEvent::SecondaryPressed { at: Point::new(3, 4), modified: false });
    assert_eq!(model.wall_building, Some(vec![Point::new(3, 4)]));
    assert!(model.walls.is_empty());
    assert_eq!(model.light.pos, Point::new(0, 0));
}

#[test]
fn plain_secondary_presses_add_vertices_in_order() {
    let mut model = Model::new();
    for (x, y) in [(3, 4), (5, 6), (7, 1)] {
        model.handle_event(InputEvent::SecondaryPressed { at: Point::new(x, y), modified: false });
    }
    assert_eq!(
        model.wall_building,
        Some(vec![Point::new(3, 4), Point::new(5, 6), Point::new(7, 1)])
    );
    assert!(model.walls.is_empty());
}

#[test]
fn modified_secondary_press_commits_the_wall() {
    let mut model = Model::new();
    for (x, y) in [(3, 4), (5, 6), (7, 1)] {
        model.handle_event(InputEvent::SecondaryPressed { at: Point::new(x, y), modified: false });
    }
    model.handle_event(InputEvent::SecondaryPressed { at: Point::new(50, 50), modified: true });
    assert_eq!(model.wall_building, None);
    assert_eq!(
        model.walls,
        vec![Polygon { points: vec![Point::new(3, 4), Point::new(5, 6), Point::new(7, 1)] }]
    );
    // A second wall goes behind the first.
    model.handle_event(InputEvent::SecondaryPressed { at: Point::new(9, 9), modified: false });
    model.handle_event(InputEvent::SecondaryPressed { at: Point::new(0, 0), modified: true });
    assert_eq!(model.walls.len(), 2);
    assert_eq!(model.walls[1], Polygon { points: vec![Point::new(9, 9)] });
    assert_eq!(model.wall_building, None);
}

#[test]
fn modified_secondary_press_without_a_wall_changes_nothing() {
    let mut model = Model::new();
    model.handle_event(InputEvent::SecondaryPressed { at: Point::new(3, 4), modified: true });
    assert_eq!(model, Model::new());
}

#[test]
fn primary_press_moves_the_light() {
    let mut model = Model::new();
    model.handle_event(InputEvent::SecondaryPressed { at: Point::new(3, 4), modified: false });
    model.handle_event(InputEvent::PrimaryPressed { at: Point::new(-20, 35) });
    assert_eq!(model.light, Light { pos: Point::new(-20, 35), radius: 10 });
    assert_eq!(model.wall_building, Some(vec![Point::new(3, 4)]));
}

#[test]
fn cursor_drags_the_light_only_with_the_primary_button_down() {
    let mut model = Model::new();
    model.handle_event(InputEvent::CursorMoved { to: Point::new(8, 9), primary_down: false });
    assert_eq!(model.light.pos, Point::new(0, 0));
    model.handle_event(InputEvent::CursorMoved { to: Point::new(8, 9), primary_down: true });
    assert_eq!(model.light.pos, Point::new(8, 9));
    model.handle_event(InputEvent::CursorMoved { to: Point::new(11, 2), primary_down: true });
    assert_eq!(model.light.pos, Point::new(11, 2));
}

#[test]
fn other_events_change_nothing() {
    let mut model = Model::new();
    model.handle_event(InputEvent::SecondaryPressed { at: Point::new(3, 4), modified: false });
    let before = model.clone();
    model.handle_event(InputEvent::Other);
    assert_eq!(model, before);
}

#[test]
fn model_bounds_follow_the_positions_it_was_given() {
    let far = shadow_caster::COORD_LIMIT + 1;
    let mut model = Model::new();
    model.handle_event(InputEvent::SecondaryPressed { at: Point::new(far, 0), modified: false });
    assert!(!model.is_wf());
    model.handle_event(InputEvent::SecondaryPressed { at: Point::new(0, 0), modified: true });
    assert!(!model.is_wf());
    let mut model = Model::new();
    model.handle_event(InputEvent::PrimaryPressed { at: Point::new(0, -far) });
    assert!(!model.is_wf());
    model.handle_event(InputEvent::PrimaryPressed { at: Point::new(0, 1 - far) });
    assert!(model.is_wf());
}

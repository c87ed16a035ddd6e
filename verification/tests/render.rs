use shadow_caster::{DrawCommand, InputEvent, Light, Model, Point, Polygon, Viewport};

fn points(coords: &[(i64, i64)]) -> Vec<Point> {
    coords.iter().map(|&(x, y)| Point::new(x, y)).collect()
}

fn centred() -> Viewport {
    Viewport::new(-100, 100, -100, 100).unwrap()
}

fn press(model: &mut Model, x: i64, y: i64) {
    model.handle_event(InputEvent::SecondaryPressed { at: Point::new(x, y), modified: false });
}

fn commit(model: &mut Model) {
    model.handle_event(InputEvent::SecondaryPressed { at: Point::new(0, 0), modified: true });
}

#[test]
fn empty_model_draws_the_light_alone() {
    let model = Model::new();
    assert_eq!(
        model.draw_list(centred()),
        vec![DrawCommand::Light(Light { pos: Point::new(0, 0), radius: 10 })]
    );
}

#[test]
fn first_vertex_of_a_wall_draws_nothing() {
    let mut model = Model::new();
    press(&mut model, 30, 40);
    assert_eq!(model.wall_building, Some(vec![Point::new(30, 40)]));
    let commands = model.draw_list(centred());
    assert_eq!(commands, vec![DrawCommand::Light(Light::new(Point::new(0, 0)))]);
    assert!(!commands.iter().any(|c| matches!(c, DrawCommand::Shadow(_) | DrawCommand::Wall(_))));
    assert!(!commands.iter().any(|c| matches!(c, DrawCommand::Path(_))));
}

#[test]
fn second_vertex_of_a_wall_draws_the_path() {
    let mut model = Model::new();
    press(&mut model, 30, 40);
    press(&mut model, 50, 40);
    assert_eq!(
        model.draw_list(centred()),
        vec![
            DrawCommand::Light(Light::new(Point::new(0, 0))),
            DrawCommand::Path(points(&[(30, 40), (50, 40)])),
        ]
    );
}

#[test]
fn frame_is_drawn_back_to_front() {
    let mut model = Model::new();
    for (x, y) in [(10, 10), (20, 10), (20, 20), (10, 20)] {
        press(&mut model, x, y);
    }
    commit(&mut model);
    for (x, y) in [(-10, 20), (10, 20)] {
        press(&mut model, x, y);
    }
    commit(&mut model);
    for (x, y) in [(-60, -60), (-50, -60), (-50, -50)] {
        press(&mut model, x, y);
    }
    model.handle_event(InputEvent::PrimaryPressed { at: Point::new(0, 0) });
    let square = points(&[(10, 10), (20, 10), (20, 20), (10, 20)]);
    let base = points(&[(-10, 20), (10, 20)]);
    assert_eq!(
        model.draw_list(centred()),
        vec![
            DrawCommand::Shadow(Polygon {
                points: points(&[(50, 100), (100, 100), (100, 50), (20, 10), (10, 20)]),
            }),
            DrawCommand::Shadow(Polygon {
                points: points(&[(-50, 100), (50, 100), (10, 20), (-10, 20)]),
            }),
            DrawCommand::Wall(Polygon { points: square }),
            DrawCommand::Wall(Polygon { points: base }),
            DrawCommand::Light(Light::new(Point::new(0, 0))),
            DrawCommand::Path(points(&[(-60, -60), (-50, -60), (-50, -50)])),
        ]
    );
}

#[test]
fn wall_without_a_silhouette_is_drawn_without_a_shadow() {
    let mut model = Model::new();
    press(&mut model, -10, 0);
    press(&mut model, 20, 0);
    commit(&mut model);
    assert_eq!(
        model.draw_list(centred()),
        vec![
            DrawCommand::Wall(Polygon { points: points(&[(-10, 0), (20, 0)]) }),
            DrawCommand::Light(Light::new(Point::new(0, 0))),
        ]
    );
}

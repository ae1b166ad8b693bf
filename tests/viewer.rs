use lsystem::config::{Model, Rule};
use lsystem::viewer::{on_key, Command, Controls, Key, Modifier, Viewer, START_DIST};

fn model(start: &str, symbol: char, production: &str, delta: i64) -> Model {
    Model {
        start: start.to_string(),
        rules: vec![(symbol, vec![Rule::from(production.to_string())])],
        delta,
        name: start.to_string(),
    }
}

fn viewer() -> Viewer {
    Viewer::new(vec![model("F", 'F', "F+F", 90_000), model("a", 'a', "ab", 20_000)])
}

#[test]
fn starts_on_first_grammar_generation_one() {
    let v = viewer();
    let c = v.controls();
    assert_eq!((c.model_idx, c.step, c.dist, c.delta), (0, 1, START_DIST, 90_000));
    assert_eq!(v.sequence(), "F+F");
}

#[test]
fn arrows_cycle_grammars_and_generations() {
    let mut v = viewer();
    v.process_event(Key::Right, Modifier::Plain);
    assert_eq!(v.controls().model_idx, 1);
    assert_eq!(v.controls().delta, 20_000);
    assert_eq!(v.sequence(), "ab");
    v.process_event(Key::Right, Modifier::Plain);
    assert_eq!(v.controls().model_idx, 0);
    v.process_event(Key::Left, Modifier::Plain);
    assert_eq!(v.controls().model_idx, 1);
    v.process_event(Key::Up, Modifier::Plain);
    assert_eq!(v.sequence(), "abb");
    v.process_event(Key::Down, Modifier::Plain);
    v.process_event(Key::Down, Modifier::Plain);
    v.process_event(Key::Down, Modifier::Plain);
    assert_eq!(v.controls().step, 0);
    assert_eq!(v.sequence(), "a");
}

#[test]
fn modifiers_change_length_and_angle() {
    let mut v = viewer();
    v.process_event(Key::Add, Modifier::Control);
    assert_eq!(v.controls().dist, START_DIST + 1);
    v.process_event(Key::Subtract, Modifier::Alt);
    assert_eq!(v.controls().delta, 89_000);
    v.process_event(Key::Add, Modifier::Plain);
    v.process_event(Key::Other, Modifier::Control);
    assert_eq!(v.controls().dist, START_DIST + 1);
    v.process_event(Key::R, Modifier::Plain);
    assert_eq!(v.controls().delta, 90_000);
    assert_eq!(v.sequence(), "F+F");
}

#[test]
fn control_edges() {
    let c = Controls { model_idx: 2, step: 0, dist: 0, delta: -500 };
    let (d, cmd) = on_key(c, 3, Key::Subtract, Modifier::Control);
    assert_eq!(d.dist, 0);
    assert!(matches!(cmd, Command::Nothing));
    let (d, _) = on_key(c, 3, Key::Subtract, Modifier::Alt);
    assert_eq!(d.delta, -500);
    let (d, cmd) = on_key(c, 3, Key::Right, Modifier::Other);
    assert_eq!(d.model_idx, 0);
    assert!(matches!(cmd, Command::Regenerate));
    let (d, _) = on_key(c, 3, Key::Down, Modifier::Plain);
    assert_eq!(d.step, 0);
    let top = Controls { model_idx: 0, step: 1, dist: 3, delta: 360_000 };
    let (d, _) = on_key(top, 1, Key::Add, Modifier::Alt);
    assert_eq!(d.delta, 360_000);
    let (_, cmd) = on_key(top, 1, Key::R, Modifier::Plain);
    assert!(matches!(cmd, Command::Restart));
}

#[test]
fn draws_the_shown_generation() {
    let mut v = viewer();
    let path = v.draw();
    assert_eq!(path.points.len(), 2);
    assert_eq!(path.points[0].angle, 90_000);
    assert_eq!(path.points[1].angle, 180_000);
    assert_eq!(path.actions.len(), 2);
}

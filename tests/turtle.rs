use lsystem::math::{rotate_angle, Rotation, FULL_TURN};
use lsystem::turtle::{DrawAction, Drawer, TurtlePath};

/// Coordinates of every point of `path`, with the origin at `(0, 0)`.
fn coordinates(path: &TurtlePath, step: f64) -> Vec<(f64, f64)> {
    let mut pts = vec![(0.0, 0.0)];
    for p in &path.points {
        let (x, y) = pts[p.from];
        let a = (p.angle as f64 / 1000.0).to_radians();
        pts.push((x + step * a.cos(), y + step * a.sin()));
    }
    pts
}

fn close(a: (f64, f64), b: (f64, f64)) -> bool {
    (a.0 - b.0).abs() < 1e-9 && (a.1 - b.1).abs() < 1e-9
}

fn segments(path: &TurtlePath, step: f64) -> Vec<((f64, f64), (f64, f64))> {
    let pts = coordinates(path, step);
    let mut out = Vec::new();
    for a in &path.actions {
        if let DrawAction::Segment { from, to } = a {
            out.push((pts[*from], pts[*to]));
        }
    }
    out
}

#[test]
fn rotation_values() {
    assert_eq!(Rotation::ClockWise.value(), 1);
    assert_eq!(Rotation::AntiClockWise.value(), -1);
}

#[test]
fn rotation_wraps_both_ways() {
    assert_eq!(rotate_angle(0, &Rotation::AntiClockWise, 90_000), 270_000);
    assert_eq!(rotate_angle(350_000, &Rotation::ClockWise, 20_000), 10_000);
    assert_eq!(rotate_angle(10_000, &Rotation::ClockWise, 450_000), 100_000);
    assert_eq!(rotate_angle(10_000, &Rotation::ClockWise, -730_000), 0);
    assert_eq!(rotate_angle(0, &Rotation::AntiClockWise, i64::MIN), 55_808);
}

#[test]
fn turn_then_step_draws_two_segments() {
    let mut pen = Drawer::new(0);
    let path = pen.draw("F+F", 90_000);
    let segs = segments(&path, 1.0);
    assert_eq!(segs.len(), 2);
    assert!(close(segs[0].0, (0.0, 0.0)) && close(segs[0].1, (1.0, 0.0)));
    assert!(close(segs[1].0, (1.0, 0.0)) && close(segs[1].1, (1.0, 1.0)));
}

#[test]
fn branch_restores_position_and_heading() {
    let mut pen = Drawer::new(90_000);
    let path = pen.draw("F[+F]F", 20_000);
    assert_eq!(path.points.len(), 3);
    assert_eq!((path.points[0].from, path.points[0].angle), (0, 90_000));
    assert_eq!((path.points[1].from, path.points[1].angle), (1, 110_000));
    assert_eq!((path.points[2].from, path.points[2].angle), (1, 90_000));
    let segs = segments(&path, 2.0);
    assert!(close(segs[2].0, (0.0, 2.0)) && close(segs[2].1, (0.0, 4.0)));
}

#[test]
fn pen_up_moves_and_unknown_symbols() {
    let mut pen = Drawer::new(0);
    let path = pen.draw("fXF", 45_000);
    assert_eq!(path.actions.len(), 2);
    assert!(matches!(path.actions[0], DrawAction::Move { to: 1 }));
    assert!(matches!(path.actions[1], DrawAction::Segment { from: 1, to: 2 }));
    assert!(segments(&path, 1.0).len() == 1);
}

#[test]
fn unmatched_close_is_ignored() {
    let mut pen = Drawer::new(0);
    let path = pen.draw("]F]-F", 90_000);
    assert_eq!(path.points.len(), 2);
    assert_eq!(path.points[1].angle, 270_000);
    assert!(matches!(path.actions[1], DrawAction::Segment { from: 1, to: 2 }));
}

#[test]
fn each_draw_starts_from_the_origin() {
    let mut pen = Drawer::new(-90_000);
    let first = pen.draw("+[F", 30_000);
    assert_eq!(first.points[0].angle, 300_000);
    let again = pen.draw("]F", 30_000);
    assert_eq!(again.points[0].from, 0);
    assert_eq!(again.points[0].angle, 270_000);
    assert!(FULL_TURN == 360_000);
}

#[test]
fn drawer_pose_stack() {
    let mut pen = Drawer::new(0);
    pen.save_state();
    pen.rotate(Rotation::ClockWise, 10_000);
    pen.load_last_state();
    pen.load_last_state();
    pen.reset();
    let path = pen.draw("F", 10_000);
    assert_eq!(path.points[0].angle, 0);
}

//! Curves through sampled points.

use wayscriber_images::smoothing::{append_smooth_path, PathPoint, PathStep};

fn smooth(points: &[(i32, i32)]) -> Vec<PathStep> {
    let mut path = Vec::new();
    append_smooth_path(&mut path, points);
    path
}

fn pixels(point: PathPoint) -> (f64, f64) {
    (point.x as f64 / 6.0, point.y as f64 / 6.0)
}

fn current_point(path: &[PathStep]) -> Option<(f64, f64)> {
    path.last().map(|step| match *step {
        PathStep::MoveTo(point) | PathStep::LineTo(point) => pixels(point),
        PathStep::CurveTo { end, .. } => pixels(end),
    })
}

/// The bounding box of a path: left, top, right, bottom.
fn path_extents(path: &[PathStep]) -> (f64, f64, f64, f64) {
    let mut visited: Vec<(f64, f64)> = Vec::new();
    for step in path {
        match *step {
            PathStep::MoveTo(point) | PathStep::LineTo(point) => visited.push(pixels(point)),
            PathStep::CurveTo { control_1, control_2, end } => {
                let from = *visited.last().unwrap();
                let (c1, c2, to) = (pixels(control_1), pixels(control_2), pixels(end));
                for i in 1..=1000 {
                    let t = i as f64 / 1000.0;
                    let s = 1.0 - t;
                    let at = |p0: f64, p1: f64, p2: f64, p3: f64| {
                        s * s * s * p0
                            + 3.0 * s * s * t * p1
                            + 3.0 * s * t * t * p2
                            + t * t * t * p3
                    };
                    visited.push((at(from.0, c1.0, c2.0, to.0), at(from.1, c1.1, c2.1, to.1)));
                }
            }
        }
    }
    visited.iter().fold(
        (f64::MAX, f64::MAX, f64::MIN, f64::MIN),
        |(left, top, right, bottom), &(x, y)| {
            (left.min(x), top.min(y), right.max(x), bottom.max(y))
        },
    )
}

#[test]
fn an_empty_input_leaves_the_path_empty() {
    let path = smooth(&[]);

    assert!(current_point(&path).is_none());
}

#[test]
fn the_curve_starts_and_ends_on_the_sampled_points() {
    let points = [(4, 4), (20, 30), (40, 10), (60, 50)];

    let path = smooth(&points);

    let (x, y) = current_point(&path).unwrap();
    assert!((x - 60.0).abs() < 1e-9, "curve ended at x={x}");
    assert!((y - 50.0).abs() < 1e-9, "curve ended at y={y}");
    let extents = path_extents(&path);
    assert!(extents.0 <= 4.0 && extents.1 <= 4.0);
}

#[test]
fn a_two_point_input_stays_a_straight_segment() {
    let path = smooth(&[(0, 0), (10, 10)]);

    // A straight line's extents are exactly its endpoints; a curve that
    // overshot would report a larger box.
    let extents = path_extents(&path);
    assert!((extents.0 - 0.0).abs() < 1e-9);
    assert!((extents.2 - 10.0).abs() < 1e-9);
}

#[test]
fn smoothing_does_not_overshoot_a_straight_run() {
    // Collinear samples must stay on the line: a spline with too much
    // tension would bow away from it.
    let points = [(0, 20), (10, 20), (20, 20), (30, 20)];

    let path = smooth(&points);

    let extents = path_extents(&path);
    assert!(
        (extents.1 - 20.0).abs() < 1e-6 && (extents.3 - 20.0).abs() < 1e-6,
        "collinear points bowed to {:?}",
        extents
    );
}

#[test]
fn a_single_point_only_starts_the_path() {
    assert_eq!(
        smooth(&[(3, -4)]),
        vec![PathStep::MoveTo(PathPoint { x: 18, y: -24 })]
    );
}

#[test]
fn control_points_lie_a_sixth_of_the_neighbors_distance_away() {
    let path = smooth(&[(0, 0), (6, 12), (18, 6)]);

    assert_eq!(
        path,
        vec![
            PathStep::MoveTo(PathPoint { x: 0, y: 0 }),
            PathStep::CurveTo {
                control_1: PathPoint { x: 6, y: 12 },
                control_2: PathPoint { x: 18, y: 66 },
                end: PathPoint { x: 36, y: 72 },
            },
            PathStep::CurveTo {
                control_1: PathPoint { x: 54, y: 78 },
                control_2: PathPoint { x: 96, y: 42 },
                end: PathPoint { x: 108, y: 36 },
            },
        ]
    );
}

#[test]
fn a_path_is_continued() {
    let mut path = smooth(&[(0, 0), (1, 1)]);
    append_smooth_path(&mut path, &[(5, 5)]);

    assert_eq!(path.len(), 3);
    assert_eq!(path[2], PathStep::MoveTo(PathPoint { x: 30, y: 30 }));
}

#[test]
fn extreme_coordinates_are_exact() {
    let path = smooth(&[(i32::MIN, i32::MAX), (i32::MAX, i32::MIN), (i32::MIN, i32::MAX)]);

    match path[1] {
        PathStep::CurveTo { control_1, end, .. } => {
            let (low, high) = (i32::MIN as i64, i32::MAX as i64);
            assert_eq!(control_1, PathPoint { x: 5 * low + high, y: 5 * high + low });
            assert_eq!(end, PathPoint { x: 6 * high, y: 6 * low });
        }
        other => panic!("expected a curve, got {other:?}"),
    }
}

//! Spline smoothing for hand-drawn point sequences.
//!
//! Pointer sampling gives integer coordinates at irregular intervals, so a raw
//! polyline through them shows visible corners, most obviously on wide,
//! translucent marker strokes where every vertex is several pixels across.
//! Fitting a curve through the samples removes the faceting without changing
//! the stored data.
//!
//! The fit is a Catmull-Rom spline of tension one half: high enough to round the
//! corners, low enough not to overshoot on sharp direction changes the way a
//! looser spline does. Written as cubic Beziers, its control points lie a sixth
//! of the distance between two samples away from a sample, so a sixth of a
//! pixel is the unit of every coordinate here.

use vstd::prelude::*;

verus! {

/// A point on the drawing surface, in sixths of a pixel.
#[derive(Debug, Clone, Copy, PartialEq, Eq, Structural)]
pub struct PathPoint {
    pub x: i64,
    pub y: i64,
}

/// One step of a path.
#[derive(Debug, Clone, Copy, PartialEq, Eq, Structural)]
pub enum PathStep {
    /// Starts the path.
    MoveTo(PathPoint),
    /// Goes straight to a point.
    LineTo(PathPoint),
    /// Goes to a point along a cubic Bezier curve.
    CurveTo { control_1: PathPoint, control_2: PathPoint, end: PathPoint },
}

/// Where a sampled point lies.
pub open spec fn placed(point: (i32, i32)) -> PathPoint {
    PathPoint { x: (6 * point.0) as i64, y: (6 * point.1) as i64 }
}

/// The sample at an index, or the nearest one where the index is past an end.
pub open spec fn sample(points: Seq<(i32, i32)>, index: int) -> (i32, i32) {
    if index < 0 {
        points[0]
    } else if index >= points.len() {
        points.last()
    } else {
        points[index]
    }
}

/// A point moved by a sixth of the way from one sample to another.
pub open spec fn nudged(point: (i32, i32), from: (i32, i32), to: (i32, i32)) -> PathPoint {
    PathPoint { x: (6 * point.0 + to.0 - from.0) as i64, y: (6 * point.1 + to.1 - from.1) as i64 }
}

/// The curve from one sample to the next. The samples on either side of the two
/// decide in which direction it leaves the first and reaches the second.
pub open spec fn segment(points: Seq<(i32, i32)>, index: int) -> PathStep {
    let previous = sample(points, index - 1);
    let start = sample(points, index);
    let end = sample(points, index + 1);
    let next = sample(points, index + 2);
    PathStep::CurveTo {
        control_1: nudged(start, previous, end),
        control_2: nudged(end, next, start),
        end: placed(end),
    }
}

/// The path through several samples: a curve, or straight segments where there
/// are too few samples to fit one.
pub open spec fn smooth_path(points: Seq<(i32, i32)>) -> Seq<PathStep> {
    Seq::new(
        points.len(),
        |i: int|
            if i == 0 {
                PathStep::MoveTo(placed(points[0]))
            } else if points.len() < 3 {
                PathStep::LineTo(placed(points[i]))
            } else {
                segment(points, i - 1)
            },
    )
}

fn place(point: (i32, i32)) -> (placed_point: PathPoint)
    ensures
        placed_point == placed(point),
{
    PathPoint { x: 6 * point.0 as i64, y: 6 * point.1 as i64 }
}

fn nudge(point: (i32, i32), from: (i32, i32), to: (i32, i32)) -> (moved: PathPoint)
    ensures
        moved == nudged(point, from, to),
{
    PathPoint {
        x: 6 * point.0 as i64 + to.0 as i64 - from.0 as i64,
        y: 6 * point.1 as i64 + to.1 as i64 - from.1 as i64,
    }
}

/// Clamped sample, so indices just past either end reuse the endpoint.
fn point_at(points: &[(i32, i32)], index: i128) -> (point: (i32, i32))
    requires
        points@.len() > 0,
    ensures
        point == sample(points@, index as int),
{
    if index < 0 {
        points[0]
    } else if index >= points.len() as i128 {
        points[points.len() - 1]
    } else {
        points[index as usize]
    }
}

/// Appends a smooth curve through `points` to a path.
///
/// Falls back to straight segments for one- and two-point inputs, where there
/// is no curve to fit.
pub fn append_smooth_path(path: &mut Vec<PathStep>, points: &[(i32, i32)])
    ensures
        final(path)@ == old(path)@ + smooth_path(points@),
{
    let ghost whole = smooth_path(points@);
    if points.len() == 0 {
        assert(path@ =~= old(path)@ + whole);
        return;
    }
    path.push(PathStep::MoveTo(place(points[0])));
    assert(path@ =~= old(path)@ + whole.take(1));
    let mut i: usize = 1;
    while i < points.len()
        invariant
            1 <= i <= points.len(),
            whole == smooth_path(points@),
            path@ == old(path)@ + whole.take(i as int),
        decreases points.len() - i,
    {
        if points.len() < 3 {
            path.push(PathStep::LineTo(place(points[i])));
        } else {
            // Catmull-Rom needs a neighbor on each side; duplicate the endpoints
            // so the first and last segments keep the curve anchored exactly on
            // them.
            let index: i128 = i as i128 - 1;
            let previous = point_at(points, index - 1);
            let start = point_at(points, index);
            let end = point_at(points, index + 1);
            let next = point_at(points, index + 2);

            // Convert the Catmull-Rom segment to the equivalent cubic Bezier.
            path.push(
                PathStep::CurveTo {
                    control_1: nudge(start, previous, end),
                    control_2: nudge(end, next, start),
                    end: place(end),
                },
            );
        }
        assert(path@ =~= old(path)@ + whole.take(i + 1));
        i = i + 1;
    }
    assert(whole.take(points@.len() as int) =~= whole);
}

/// Where a step ends.
pub open spec fn end_of(step: PathStep) -> PathPoint {
    match step {
        PathStep::MoveTo(point) => point,
        PathStep::LineTo(point) => point,
        PathStep::CurveTo { end, .. } => end,
    }
}

/// A path visits every sample in order: it starts on the first one and has one
/// step for each of the others, which ends exactly there. Without samples it is
/// empty.
pub proof fn paths_visit_every_sample(points: Seq<(i32, i32)>)
    ensures
        smooth_path(points).len() == points.len(),
        points.len() > 0 ==> smooth_path(points)[0] is MoveTo,
        forall|i: int|
            0 <= i < points.len() ==> end_of(#[trigger] smooth_path(points)[i]) == placed(
                points[i],
            ),
{
}

/// One or two samples are joined by straight segments; three or more by curves.
pub proof fn few_samples_make_straight_paths(points: Seq<(i32, i32)>)
    ensures
        forall|i: int|
            0 < i < points.len() ==> if points.len() < 3 {
                #[trigger] smooth_path(points)[i] is LineTo
            } else {
                smooth_path(points)[i] is CurveTo
            },
{
}

/// The curve has no corners: where two of its segments meet, the control point
/// before the sample and the one after it lie opposite each other, at the same
/// distance.
pub proof fn segments_meet_without_a_corner(points: Seq<(i32, i32)>, index: int)
    requires
        points.len() >= 3,
        0 < index < points.len() - 1,
    ensures
        ({
            let before = smooth_path(points)[index]->control_2;
            let after = smooth_path(points)[index + 1]->control_1;
            &&& before.x + after.x == 2 * placed(points[index]).x
            &&& before.y + after.y == 2 * placed(points[index]).y
        }),
{
}

/// Whether a point lies on the line of all `(x, y)` in pixels with
/// `a * x + b * y == c`.
pub open spec fn on_line(point: PathPoint, a: int, b: int, c: int) -> bool {
    a * point.x + b * point.y == 6 * c
}

/// Whether a step, with all its control points, lies on a line. A Bezier curve
/// never leaves the hull of its control points, so all of it is then on the
/// line.
pub open spec fn step_on_line(step: PathStep, a: int, b: int, c: int) -> bool {
    match step {
        PathStep::MoveTo(point) => on_line(point, a, b, c),
        PathStep::LineTo(point) => on_line(point, a, b, c),
        PathStep::CurveTo { control_1, control_2, end } => {
            &&& on_line(control_1, a, b, c)
            &&& on_line(control_2, a, b, c)
            &&& on_line(end, a, b, c)
        },
    }
}

proof fn lemma_nudged_on_line(
    point: (i32, i32),
    from: (i32, i32),
    to: (i32, i32),
    a: int,
    b: int,
    c: int,
)
    requires
        a * point.0 + b * point.1 == c,
        a * from.0 + b * from.1 == c,
        a * to.0 + b * to.1 == c,
    ensures
        on_line(nudged(point, from, to), a, b, c),
        on_line(placed(point), a, b, c),
{
    let (px, py) = (point.0 as int, point.1 as int);
    let (fx, fy) = (from.0 as int, from.1 as int);
    let (tx, ty) = (to.0 as int, to.1 as int);
    assert(a * (6 * px + tx - fx) == 6 * (a * px) + a * tx - a * fx) by (nonlinear_arith);
    assert(b * (6 * py + ty - fy) == 6 * (b * py) + b * ty - b * fy) by (nonlinear_arith);
    assert(a * (6 * px) == 6 * (a * px)) by (nonlinear_arith);
    assert(b * (6 * py) == 6 * (b * py)) by (nonlinear_arith);
}

/// Samples on a straight line stay on it: smoothing does not bow away from a
/// straight run.
pub proof fn straight_runs_stay_straight(points: Seq<(i32, i32)>, a: int, b: int, c: int)
    requires
        forall|i: int|
            0 <= i < points.len() ==> a * (#[trigger] points[i]).0 + b * points[i].1 == c,
    ensures
        forall|i: int|
            0 <= i < points.len() ==> step_on_line(#[trigger] smooth_path(points)[i], a, b, c),
{
    assert forall|i: int| 0 <= i < points.len() implies step_on_line(
        #[trigger] smooth_path(points)[i],
        a,
        b,
        c,
    ) by {
        if i == 0 || points.len() < 3 {
            lemma_nudged_on_line(points[i], points[i], points[i], a, b, c);
        } else {
            let previous = sample(points, i - 2);
            let start = sample(points, i - 1);
            let end = sample(points, i);
            let next = sample(points, i + 1);
            lemma_nudged_on_line(start, previous, end, a, b, c);
            lemma_nudged_on_line(end, next, start, a, b, c);
        }
    }
}

/// Where the curve between two samples leaves the first and reaches the second:
/// in sixths of a pixel, its first control point is as far from the first sample
/// as the second sample is from the one before the first, and its second control
/// point comes before the second sample by as much as the one after it is from
/// the first. At either end of the stroke the outermost sample stands in for the
/// missing one. This holds however many samples there are, from three on.
pub proof fn control_points_follow_the_neighbors(points: Seq<(i32, i32)>, index: int)
    requires
        points.len() >= 3,
        0 <= index < points.len() - 1,
    ensures
        ({
            let start = points[index];
            let end = points[index + 1];
            let previous = if index == 0 {
                points[0]
            } else {
                points[index - 1]
            };
            let next = if index + 2 == points.len() {
                points[index + 1]
            } else {
                points[index + 2]
            };
            let step = smooth_path(points)[index + 1];
            &&& step is CurveTo
            &&& step->control_1.x - 6 * start.0 == end.0 - previous.0
            &&& step->control_1.y - 6 * start.1 == end.1 - previous.1
            &&& 6 * end.0 - step->control_2.x == next.0 - start.0
            &&& 6 * end.1 - step->control_2.y == next.1 - start.1
            &&& step->end.x == 6 * end.0
            &&& step->end.y == 6 * end.1
        }),
{
}

/// A path starts on the first sample, and one or two samples make a path of
/// nothing but straight segments that end on the samples. Coordinates are six
/// times those of the samples.
pub proof fn short_paths_go_straight_through_the_samples(points: Seq<(i32, i32)>)
    ensures
        smooth_path(points).len() == points.len(),
        points.len() > 0 ==> smooth_path(points)[0] == PathStep::MoveTo(
            PathPoint { x: (6 * points[0].0) as i64, y: (6 * points[0].1) as i64 },
        ),
        points.len() == 2 ==> smooth_path(points)[1] == PathStep::LineTo(
            PathPoint { x: (6 * points[1].0) as i64, y: (6 * points[1].1) as i64 },
        ),
{
}

/// Drawing a stroke backwards gives the same curves, each with its control
/// points exchanged.
pub proof fn strokes_are_the_same_backwards(points: Seq<(i32, i32)>, index: int)
    requires
        points.len() >= 3,
        0 <= index < points.len() - 1,
    ensures
        ({
            let there = smooth_path(points)[index + 1];
            let back = smooth_path(points.reverse())[points.len() - 1 - index];
            &&& there->control_1 == back->control_2
            &&& there->control_2 == back->control_1
        }),
{
}

/// Moving all samples moves the whole path with them.
pub proof fn moved_strokes_keep_their_shape(
    points: Seq<(i32, i32)>,
    moved: Seq<(i32, i32)>,
    dx: int,
    dy: int,
    index: int,
)
    requires
        points.len() == moved.len(),
        points.len() >= 3,
        forall|i: int|
            0 <= i < points.len() ==> (#[trigger] moved[i]).0 == points[i].0 + dx && moved[i].1
                == points[i].1 + dy,
        0 < index < points.len(),
    ensures
        ({
            let before = smooth_path(points)[index];
            let after = smooth_path(moved)[index];
            &&& after->control_1.x == before->control_1.x + 6 * dx
            &&& after->control_1.y == before->control_1.y + 6 * dy
            &&& after->control_2.x == before->control_2.x + 6 * dx
            &&& after->control_2.y == before->control_2.y + 6 * dy
        }),
{
}

} // verus!

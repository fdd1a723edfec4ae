//! Trajectories seen from above, and the part of the plane that a picture of them
//! shows.
use crate::extremes::{greatest_of, smallest_of};
use crate::scalar::{
    functional, less, less_of, minus_of, over_of, plus_of, ratio_of, times_of, Scalar,
};
use vstd::prelude::*;

verus! {

/// A pose at a point in time.
pub struct PoseData<S, T> {
    pub timestamp: S,
    /// x, y and z.
    pub position: [T; 3],
    /// w, x, y and z.
    pub rotation_quat: [T; 4],
}

/// The two trajectories of a run.
pub struct TrajectoryOutput<S, T> {
    pub icp_trajectory: Vec<PoseData<S, T>>,
    pub imu_raw_trajectory: Vec<PoseData<S, T>>,
}

/// The positions seen from above: x and y.
pub open spec fn seen_from_above<S, T>(poses: Seq<PoseData<S, T>>) -> Seq<(T, T)> {
    Seq::new(poses.len(), |i: int| (poses[i].position[0], poses[i].position[1]))
}

/// The positions of a trajectory seen from above.
pub fn plane_series<S, T: Copy>(poses: &Vec<PoseData<S, T>>) -> (series: Vec<(T, T)>)
    ensures
        series@ == seen_from_above(poses@),
{
    let mut series: Vec<(T, T)> = Vec::new();
    let mut i: usize = 0;
    while i < poses.len()
        invariant
            i <= poses@.len(),
            series@ == seen_from_above(poses@.take(i as int)),
        decreases poses@.len() - i,
    {
        let position: [T; 3] = poses[i].position;
        series.push((position[0], position[1]));
        i += 1;
    }
    assert(poses@.take(i as int) == poses@);
    series
}

/// The ranges that the coordinates span.
pub struct Bounds<T> {
    pub min_x: T,
    pub max_x: T,
    pub min_y: T,
    pub max_y: T,
}

/// Why no picture can be drawn.
#[derive(Clone, Copy, PartialEq, Eq, Structural, Debug)]
pub enum TrajectoryError {
    /// There is no position to show.
    Empty,
}

impl TrajectoryError {
    /// What to tell a user.
    pub fn message(&self) -> (text: &'static str)
        ensures
            text@ == "Trajectory data is empty"@,
    {
        "Trajectory data is empty"
    }
}

/// The ranges of the coordinates of a series.
pub open spec fn bounds_of<T: Scalar>(series: Seq<(T, T)>) -> Bounds<T> {
    let n = series.len() as int;
    let (xs, ys) = (series.map_values(|p: (T, T)| p.0), series.map_values(|p: (T, T)| p.1));
    Bounds {
        min_x: smallest_of(xs, n),
        max_x: greatest_of(xs, n),
        min_y: smallest_of(ys, n),
        max_y: greatest_of(ys, n),
    }
}

/// Finds the ranges of the coordinates; a series without positions is refused.
pub fn bounding_box<T: Scalar>(series: &Vec<(T, T)>) -> (r: Result<Bounds<T>, TrajectoryError>)
    ensures
        r is Err <==> series@.len() == 0,
        functional::<T>() && series@.len() > 0 ==> r == Ok::<_, TrajectoryError>(
            bounds_of(series@),
        ),
{
    if series.len() == 0 {
        return Err(TrajectoryError::Empty);
    }
    let ghost xs = series@.map_values(|p: (T, T)| p.0);
    let ghost ys = series@.map_values(|p: (T, T)| p.1);
    let mut min_x: T = T::infinity();
    let mut max_x: T = T::infinity().negated();
    let mut min_y: T = T::infinity();
    let mut max_y: T = T::infinity().negated();
    let mut i: usize = 0;
    while i < series.len()
        invariant
            i <= series@.len(),
            xs == series@.map_values(|p: (T, T)| p.0),
            ys == series@.map_values(|p: (T, T)| p.1),
            functional::<T>() ==> {
                &&& min_x == smallest_of(xs, i as int)
                &&& max_x == greatest_of(xs, i as int)
                &&& min_y == smallest_of(ys, i as int)
                &&& max_y == greatest_of(ys, i as int)
            },
        decreases series@.len() - i,
    {
        let (x, y): (T, T) = series[i];
        if less(x, min_x) {
            min_x = x;
        }
        if less(max_x, x) {
            max_x = x;
        }
        if less(y, min_y) {
            min_y = y;
        }
        if less(max_y, y) {
            max_y = y;
        }
        i += 1;
    }
    Ok(Bounds { min_x, max_x, min_y, max_y })
}

/// The width of the picture.
pub const IMAGE_WIDTH: i32 = 1024;

/// The height of the picture.
pub const IMAGE_HEIGHT: i32 = 768;

/// A range of each coordinate.
pub struct Window<T> {
    pub x: (T, T),
    pub y: (T, T),
}

/// The point half way between two numbers.
pub open spec fn middle_of<T: Scalar>(a: T, b: T) -> T {
    over_of(plus_of(a, b), ratio_of(2, 1))
}

/// The range of the given extent around the middle.
pub open spec fn around_of<T: Scalar>(middle: T, extent: T) -> (T, T) {
    (
        minus_of(middle, over_of(extent, ratio_of(2, 1))),
        plus_of(middle, over_of(extent, ratio_of(2, 1))),
    )
}

/// The proportions of the picture.
pub open spec fn image_aspect_of<T: Scalar>() -> T {
    over_of(ratio_of(IMAGE_WIDTH, 1), ratio_of(IMAGE_HEIGHT, 1))
}

/// Whether data of this extent is wider than the picture.
pub open spec fn is_wider<T: Scalar>(width: T, height: T) -> bool {
    let tiny = ratio_of::<T>(1, 1_000_000);
    let divisor = if less_of(tiny, height) {
        height
    } else {
        tiny
    };
    less_of(image_aspect_of::<T>(), over_of(width, divisor))
}

/// The extent in the picture's proportions that has the width of the data, where it is
/// wider than the picture, and its height otherwise.
pub open spec fn view_of<T: Scalar>(width: T, height: T) -> (T, T) {
    if is_wider(width, height) {
        (width, over_of(width, image_aspect_of()))
    } else {
        (times_of(height, image_aspect_of()), height)
    }
}

/// The part of the plane that the picture shows: the data in the middle, in the
/// picture's proportions, and a tenth more in each direction.
pub open spec fn window_of<T: Scalar>(bounds: Bounds<T>) -> Window<T> {
    let view = view_of(
        minus_of(bounds.max_x, bounds.min_x),
        minus_of(bounds.max_y, bounds.min_y),
    );
    let margin = ratio_of::<T>(11, 10);
    Window {
        x: around_of(middle_of(bounds.min_x, bounds.max_x), times_of(view.0, margin)),
        y: around_of(middle_of(bounds.min_y, bounds.max_y), times_of(view.1, margin)),
    }
}

/// Finds the part of the plane that the picture shows.
pub fn view_window<T: Scalar>(bounds: &Bounds<T>) -> (window: Window<T>)
    ensures
        functional::<T>() ==> window == window_of(*bounds),
{
    let two: T = T::ratio(2, 1);
    let data_w: T = bounds.max_x.minus(bounds.min_x);
    let data_h: T = bounds.max_y.minus(bounds.min_y);
    let center_x: T = bounds.min_x.plus(bounds.max_x).over(two);
    let center_y: T = bounds.min_y.plus(bounds.max_y).over(two);
    let img_w: T = T::ratio(IMAGE_WIDTH, 1);
    let img_h: T = T::ratio(IMAGE_HEIGHT, 1);
    let img_aspect: T = img_w.over(img_h);
    let tiny: T = T::ratio(1, 1_000_000);
    let divisor: T = if less(tiny, data_h) {
        data_h
    } else {
        tiny
    };
    let data_aspect: T = data_w.over(divisor);
    let (view_w, view_h): (T, T) = if less(img_aspect, data_aspect) {
        (data_w, data_w.over(img_aspect))
    } else {
        (data_h.times(img_aspect), data_h)
    };
    let margin: T = T::ratio(11, 10);
    let half_w: T = view_w.times(margin).over(two);
    let half_h: T = view_h.times(margin).over(two);
    Window {
        x: (center_x.minus(half_w), center_x.plus(half_w)),
        y: (center_y.minus(half_h), center_y.plus(half_h)),
    }
}

} // verus!

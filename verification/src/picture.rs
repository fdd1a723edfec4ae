//! What a picture of a trajectory shows, where arithmetic is exact.
use crate::exact::{are_ordered, compares_exactly, exact, millionth, reads_ratios};
use crate::extremes::{greatest_of, law_extremes_bound_all, smallest_of};
use crate::means::lemma_quotient_times;
use crate::rotations::lemma_dist;
use crate::scalar::{
    infinity_of, less_of, minus_of, negated_of, over_of, plus_of, ratio_of, times_of, Scalar,
};
use crate::trajectory::{
    around_of, bounds_of, image_aspect_of, is_wider, middle_of, seen_from_above, view_of, window_of,
    Bounds, PoseData,
};
use crate::turning::lemma_positive_product;
use vstd::prelude::*;

verus! {

/// The smallest of numbers is one of them and not above any, and the greatest is one of them
/// and not below any.
pub(crate) proof fn lemma_extremes<T: Scalar>(value: spec_fn(T) -> real, values: Seq<T>)
    requires
        are_ordered(value, values),
        values.len() > 0,
    ensures
        values.contains(smallest_of(values, values.len() as int)),
        values.contains(greatest_of(values, values.len() as int)),
        forall|i: int|
            0 <= i < values.len() ==> value(smallest_of(values, values.len() as int)) <= value(
                #[trigger] values[i],
            ) <= value(greatest_of(values, values.len() as int)),
{
    let n = values.len() as int;
    law_extremes_bound_all(values, n);
    let (low, high) = (smallest_of(values, n), greatest_of(values, n));
    assert(less_of(values[0], infinity_of()) && less_of(negated_of(infinity_of()), values[0]));
    assert(!less_of(values[0], low) && !less_of(high, values[0]));
    let i = choose|i: int| 0 <= i < n && #[trigger] values[i] == low;
    let j = choose|j: int| 0 <= j < n && #[trigger] values[j] == high;
    assert(values[i] == low && values[j] == high);
    assert forall|k: int| 0 <= k < n implies value(low) <= value(#[trigger] values[k]) <= value(
        high,
    ) by {
        assert(!less_of(values[k], values[i]) && !less_of(values[j], values[k]));
    }
}

/// The box of a series is the smallest that holds it: every position lies in it, and each of
/// its four sides touches one.
pub proof fn law_box_is_tight<T: Scalar>(value: spec_fn(T) -> real, series: Seq<(T, T)>)
    requires
        series.len() > 0,
        are_ordered(value, series.map_values(|p: (T, T)| p.0)),
        are_ordered(value, series.map_values(|p: (T, T)| p.1)),
    ensures
        ({
            let bounds = bounds_of(series);
            &&& forall|i: int|
                0 <= i < series.len() ==> {
                    &&& value(bounds.min_x) <= value((#[trigger] series[i]).0) <= value(
                        bounds.max_x,
                    )
                    &&& value(bounds.min_y) <= value(series[i].1) <= value(bounds.max_y)
                }
            &&& exists|i: int| 0 <= i < series.len() && (#[trigger] series[i]).0 == bounds.min_x
            &&& exists|i: int| 0 <= i < series.len() && (#[trigger] series[i]).0 == bounds.max_x
            &&& exists|i: int| 0 <= i < series.len() && (#[trigger] series[i]).1 == bounds.min_y
            &&& exists|i: int| 0 <= i < series.len() && (#[trigger] series[i]).1 == bounds.max_y
        }),
{
    let xs = series.map_values(|p: (T, T)| p.0);
    let ys = series.map_values(|p: (T, T)| p.1);
    let bounds = bounds_of(series);
    lemma_extremes(value, xs);
    lemma_extremes(value, ys);
    assert forall|i: int| 0 <= i < series.len() implies {
        &&& value(bounds.min_x) <= value((#[trigger] series[i]).0) <= value(bounds.max_x)
        &&& value(bounds.min_y) <= value(series[i].1) <= value(bounds.max_y)
    } by {
        assert(xs[i] == series[i].0 && ys[i] == series[i].1);
    }
    let a = choose|i: int| 0 <= i < xs.len() && xs[i] == bounds.min_x;
    let b = choose|i: int| 0 <= i < xs.len() && xs[i] == bounds.max_x;
    let c = choose|i: int| 0 <= i < ys.len() && ys[i] == bounds.min_y;
    let d = choose|i: int| 0 <= i < ys.len() && ys[i] == bounds.max_y;
    assert(series[a].0 == bounds.min_x);
    assert(series[b].0 == bounds.max_x);
    assert(series[c].1 == bounds.min_y);
    assert(series[d].1 == bounds.max_y);
}

/// Two halves.
proof fn lemma_halves(x: real, t: real)
    requires
        t == 2 as real,
    ensures
        x / t + x / t == x,
{
    assert(x / t + x / t == x) by (nonlinear_arith)
        requires
            t == 2 as real,
    ;
}

/// A tenth more.
proof fn lemma_tenth_more(x: real, m: real)
    requires
        m == 11 as real / 10 as real,
    ensures
        10 as real * (x * m) == 11 as real * x,
{
    assert(10 as real * (x * m) == 11 as real * x) by (nonlinear_arith)
        requires
            m == 11 as real / 10 as real,
    ;
}

/// Four to three.
proof fn lemma_four_to_three(x: real, r: real)
    requires
        3 as real * r == 4 as real,
    ensures
        3 as real * (x * r) == 4 as real * x,
        4 as real * (x / r) == 3 as real * x,
{
    assert(3 as real * (x * r) == 4 as real * x) by (nonlinear_arith)
        requires
            3 as real * r == 4 as real,
    ;
    assert(4 as real * (x / r) == 3 as real * x) by (nonlinear_arith)
        requires
            3 as real * r == 4 as real,
    ;
}

/// When a quotient is above four thirds.
proof fn lemma_above_four_thirds(w: real, d: real, r: real)
    requires
        d > 0 as real,
        3 as real * r == 4 as real,
    ensures
        r < w / d <==> 4 as real * d < 3 as real * w,
{
    let q = w / d;
    lemma_quotient_times(w, d);
    lemma_four_to_three(d, r);
    assert(d * r == r * d) by (nonlinear_arith);
    lemma_dist(q, r, d);
    lemma_dist(r, q, d);
    if r < q {
        lemma_positive_product(q - r, d);
    } else if q < r {
        lemma_positive_product(r - q, d);
    }
}

/// Whether data of this extent sets the width of the picture: it is more than four thirds as
/// wide as high, where a height below a millionth counts as a millionth.
pub open spec fn sets_width(width: real, height: real) -> bool {
    if height > millionth() {
        3 as real * width > 4 as real * height
    } else {
        3 as real * width > 4 as real * millionth()
    }
}

/// The extent that the picture shows of data of this extent.
proof fn lemma_view<T: Scalar>(value: spec_fn(T) -> real, width: T, height: T)
    requires
        exact(value),
        compares_exactly(value),
        reads_ratios(value),
    ensures
        3 as real * value(view_of(width, height).0) == 4 as real * value(view_of(width, height).1),
        if sets_width(value(width), value(height)) {
            value(view_of(width, height).0) == value(width)
        } else {
            value(view_of(width, height).1) == value(height)
        },
{
    let r = image_aspect_of::<T>();
    assert(value(ratio_of::<T>(1024, 1)) == 1024 as real / 1 as real);
    assert(value(ratio_of::<T>(768, 1)) == 768 as real / 1 as real);
    assert(value(r) == value(ratio_of::<T>(1024, 1)) / value(ratio_of::<T>(768, 1)));
    lemma_quotient_times(1024 as real, 768 as real);
    assert(3 as real * value(r) == 4 as real);
    let tiny = ratio_of::<T>(1, 1_000_000);
    assert(value(tiny) == millionth());
    let divisor = if less_of(tiny, height) {
        height
    } else {
        tiny
    };
    lemma_above_four_thirds(value(width), value(divisor), value(r));
    assert(is_wider(width, height) == sets_width(value(width), value(height)));
    lemma_four_to_three(value(width), value(r));
    lemma_four_to_three(value(height), value(r));
}

/// A range around a middle.
proof fn lemma_around<T: Scalar>(value: spec_fn(T) -> real, low: T, high: T, extent: T)
    requires
        exact(value),
        reads_ratios(value),
    ensures
        ({
            let range = around_of(middle_of(low, high), extent);
            &&& value(range.0) + value(range.1) == value(low) + value(high)
            &&& value(range.1) - value(range.0) == value(extent)
        }),
{
    let two = ratio_of::<T>(2, 1);
    assert(value(two) == 2 as real / 1 as real);
    let middle = middle_of(low, high);
    let all = plus_of(low, high);
    assert(value(all) == value(low) + value(high));
    assert(value(middle) == value(all) / value(two));
    let half = over_of(extent, two);
    assert(value(half) == value(extent) / value(two));
    lemma_halves(value(all), value(two));
    lemma_halves(value(extent), value(two));
}

/// The window has the proportions of the picture, 1024 to 768, and its middle is the middle of
/// the box. It is a tenth wider than the box where the box sets the width, and a tenth higher
/// otherwise.
pub proof fn law_window_is_centered<T: Scalar>(value: spec_fn(T) -> real, bounds: Bounds<T>)
    requires
        exact(value),
        compares_exactly(value),
        reads_ratios(value),
    ensures
        ({
            let window = window_of(bounds);
            let (left, right) = (value(window.x.0), value(window.x.1));
            let (bottom, top) = (value(window.y.0), value(window.y.1));
            let width = value(bounds.max_x) - value(bounds.min_x);
            let height = value(bounds.max_y) - value(bounds.min_y);
            &&& left + right == value(bounds.min_x) + value(bounds.max_x)
            &&& bottom + top == value(bounds.min_y) + value(bounds.max_y)
            &&& 768 as real * (right - left) == 1024 as real * (top - bottom)
            &&& if sets_width(width, height) {
                10 as real * (right - left) == 11 as real * width
            } else {
                10 as real * (top - bottom) == 11 as real * height
            }
        }),
{
    let (w, h) = (minus_of(bounds.max_x, bounds.min_x), minus_of(bounds.max_y, bounds.min_y));
    let view = view_of(w, h);
    let margin = ratio_of::<T>(11, 10);
    assert(value(margin) == 11 as real / 10 as real);
    lemma_view(value, w, h);
    lemma_around(value, bounds.min_x, bounds.max_x, times_of(view.0, margin));
    lemma_around(value, bounds.min_y, bounds.max_y, times_of(view.1, margin));
    lemma_tenth_more(value(view.0), value(margin));
    lemma_tenth_more(value(view.1), value(margin));
    assert(value(times_of(view.0, margin)) == value(view.0) * value(margin));
    assert(value(times_of(view.1, margin)) == value(view.1) * value(margin));
}

/// The extent is that of a box which the window can miss: lower than a millionth, hardly
/// wider, and still too wide for the picture's proportions.
pub open spec fn is_speck(width: real, height: real) -> bool {
    &&& height < millionth()
    &&& 3 as real * width <= 4 as real * millionth()
    &&& 3 as real * width > 4 as real * height
}

/// The window holds the whole box, unless the box is a speck.
pub proof fn law_window_holds_box<T: Scalar>(value: spec_fn(T) -> real, bounds: Bounds<T>)
    requires
        exact(value),
        compares_exactly(value),
        reads_ratios(value),
        value(bounds.min_x) <= value(bounds.max_x),
        value(bounds.min_y) <= value(bounds.max_y),
        !is_speck(
            value(bounds.max_x) - value(bounds.min_x),
            value(bounds.max_y) - value(bounds.min_y),
        ),
    ensures
        value(window_of(bounds).x.0) <= value(bounds.min_x),
        value(bounds.max_x) <= value(window_of(bounds).x.1),
        value(window_of(bounds).y.0) <= value(bounds.min_y),
        value(bounds.max_y) <= value(window_of(bounds).y.1),
{
    law_window_is_centered(value, bounds);
}

/// The picture shows where every pose of a trajectory is in the plane of x and y, unless the
/// trajectory is a speck there.
pub proof fn law_picture_shows_all<S, T: Scalar>(
    value: spec_fn(T) -> real,
    poses: Seq<PoseData<S, T>>,
    i: int,
)
    requires
        exact(value),
        compares_exactly(value),
        reads_ratios(value),
        0 <= i < poses.len(),
        are_ordered(value, Seq::new(poses.len(), |j: int| poses[j].position[0])),
        are_ordered(value, Seq::new(poses.len(), |j: int| poses[j].position[1])),
        ({
            let bounds = bounds_of(seen_from_above(poses));
            !is_speck(
                value(bounds.max_x) - value(bounds.min_x),
                value(bounds.max_y) - value(bounds.min_y),
            )
        }),
    ensures
        ({
            let window = window_of(bounds_of(seen_from_above(poses)));
            &&& value(window.x.0) <= value(poses[i].position[0]) <= value(window.x.1)
            &&& value(window.y.0) <= value(poses[i].position[1]) <= value(window.y.1)
        }),
{
    let series = seen_from_above(poses);
    assert(series.map_values(|p: (T, T)| p.0) =~= Seq::new(
        poses.len(),
        |j: int| poses[j].position[0],
    ));
    assert(series.map_values(|p: (T, T)| p.1) =~= Seq::new(
        poses.len(),
        |j: int| poses[j].position[1],
    ));
    law_box_is_tight(value, series);
    assert(value(bounds_of(series).min_x) <= value(series[i].0));
    law_window_holds_box(value, bounds_of(series));
}

} // verus!

//! What means are, where arithmetic is exact.
use crate::alignment::{centroid_of, column_sum, relative_of};
use crate::exact::{exact, lemma_centroid_value};
use crate::rotations::{lemma_dist, lemma_units};
use crate::scalar::{minus_of, plus_of, Scalar};
use vstd::prelude::*;

verus! {

/// The values along `axis` of the first `n` points, added up.
pub open spec fn coordinate_sum<T: Scalar>(
    value: spec_fn(T) -> real,
    points: Seq<[T; 3]>,
    n: int,
    axis: int,
) -> real
    decreases n,
{
    if n <= 0 {
        0 as real
    } else {
        coordinate_sum(value, points, n - 1, axis) + value(points[n - 1][axis])
    }
}

/// Adding the coordinates up adds their values up.
proof fn lemma_column_value<T: Scalar>(
    value: spec_fn(T) -> real,
    points: Seq<[T; 3]>,
    n: int,
    axis: int,
)
    requires
        exact(value),
        0 <= n <= points.len(),
    ensures
        value(column_sum(points, n, axis)) == coordinate_sum(value, points, n, axis),
    decreases n,
{
    if n > 0 {
        lemma_column_value(value, points, n - 1, axis);
        assert(column_sum(points, n, axis) == plus_of(
            column_sum(points, n - 1, axis),
            points[n - 1][axis],
        ));
    }
}

/// A quotient times its divisor.
pub(crate) proof fn lemma_quotient_times(x: real, t: real)
    requires
        t != 0 as real,
    ensures
        (x / t) * t == x,
{
    assert((x / t) * t == x) by (nonlinear_arith)
        requires
            t != 0 as real,
    ;
}

/// The centroid is the mean: times the number of points it is the sum of their coordinates,
/// along every axis.
pub proof fn law_centroid_is_mean<T: Scalar>(
    value: spec_fn(T) -> real,
    points: Seq<[T; 3]>,
    axis: int,
)
    requires
        exact(value),
        0 < points.len() <= usize::MAX,
        0 <= axis < 3,
    ensures
        value(centroid_of(points)[axis]) * points.len() as real == coordinate_sum(
            value,
            points,
            points.len() as int,
            axis,
        ),
{
    lemma_column_value(value, points, points.len() as int, axis);
    lemma_centroid_value(value, points, axis);
    lemma_quotient_times(
        coordinate_sum(value, points, points.len() as int, axis),
        points.len() as real,
    );
}

/// Sums of points that are all moved by the same amount.
proof fn lemma_sum_of_moved<T: Scalar>(
    value: spec_fn(T) -> real,
    moved: Seq<[T; 3]>,
    points: Seq<[T; 3]>,
    by: real,
    n: int,
    axis: int,
)
    requires
        0 <= n <= points.len(),
        forall|i: int|
            0 <= i < n ==> value((#[trigger] moved[i])[axis]) == value(points[i][axis]) - by,
    ensures
        coordinate_sum(value, moved, n, axis) == coordinate_sum(value, points, n, axis) - by
            * n as real,
    decreases n,
{
    if n > 0 {
        lemma_sum_of_moved(value, moved, points, by, n - 1, axis);
        assert(value(moved[n - 1][axis]) == value(points[n - 1][axis]) - by);
        lemma_dist((n - 1) as real, 1 as real, by);
        lemma_units(by);
        assert(n as real == (n - 1) as real + 1 as real);
    } else {
        lemma_units(by);
    }
}

/// The points relative to their centroid balance: along every axis their coordinates add up
/// to zero, and any two are as far apart as before.
pub proof fn law_relative_points_balance<T: Scalar>(
    value: spec_fn(T) -> real,
    points: Seq<[T; 3]>,
    axis: int,
)
    requires
        exact(value),
        0 < points.len() <= usize::MAX,
        0 <= axis < 3,
    ensures
        ({
            let relative = relative_of(points, centroid_of(points));
            &&& relative.len() == points.len()
            &&& coordinate_sum(value, relative, points.len() as int, axis) == 0 as real
            &&& forall|i: int, j: int|
                #![trigger relative[i], relative[j]]
                0 <= i < points.len() && 0 <= j < points.len() ==> value(relative[i][axis])
                    - value(relative[j][axis]) == value(points[i][axis]) - value(points[j][axis])
        }),
{
    let middle = centroid_of(points);
    let relative = relative_of(points, middle);
    law_centroid_is_mean(value, points, axis);
    assert forall|i: int| 0 <= i < points.len() implies value((#[trigger] relative[i])[axis])
        == value(points[i][axis]) - value(middle[axis]) by {
        assert(axis == 0 || axis == 1 || axis == 2);
        assert(relative[i][axis] == minus_of(points[i][axis], middle[axis]));
    }
    lemma_sum_of_moved(value, relative, points, value(middle[axis]), points.len() as int, axis);
}

} // verus!

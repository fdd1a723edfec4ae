//! Where the points of a cloud are moved to, where arithmetic is exact.
use crate::alignment::Transform;
use crate::exact::exact;
use crate::operate_pcd::{
    array2_to_points, is_image_of, is_row_of, points_to_array2, PointXYZ, Points,
};
use crate::rotations::lemma_units;
use crate::scalar::{functional, one_of, Scalar};
use crate::turning::placed;
use vstd::prelude::*;

verus! {

/// `product` multiplies a transform with four coordinates exactly.
pub open spec fn rows_multiply_exactly<S: Scalar, P: Fn(&Transform<S>, &[S; 4]) -> [S; 4]>(
    value: spec_fn(S) -> real,
    product: P,
) -> bool {
    forall|m: &Transform<S>, row: &[S; 4], r: [S; 4]| #[trigger]
        call_ensures(product, (m, row), r) ==> forall|j: int|
            0 <= j < 4 ==> value(#[trigger] r[j]) == value(m[j][0]) * value(row[0]) + value(m[j][1])
                * value(row[1]) + value(m[j][2]) * value(row[2]) + value(m[j][3]) * value(row[3])
}

/// A point is moved to where the transform takes it: its coordinates are widened, placed by
/// the transform and narrowed again, each in its own place.
pub proof fn law_image_is_placed<
    T,
    S: Scalar,
    W: Fn(T) -> S,
    P: Fn(&Transform<S>, &[S; 4]) -> [S; 4],
    N: Fn(S) -> T,
>(
    value: spec_fn(S) -> real,
    image: PointXYZ<T>,
    p: PointXYZ<T>,
    transform: Transform<S>,
    widen: W,
    product: P,
    narrow: N,
)
    requires
        functional::<S>(),
        exact(value),
        rows_multiply_exactly(value, product),
        is_image_of(image, p, transform, widen, product, narrow),
    ensures
        exists|from: [S; 3], to: [S; 3]|
            {
                &&& #[trigger] reads_from(from, p, widen)
                &&& #[trigger] writes_to(image, to, narrow)
                &&& (value(to[0]), value(to[1]), value(to[2])) == placed(
                    value,
                    transform,
                    (value(from[0]), value(from[1]), value(from[2])),
                )
            },
{
    let (row, moved) = choose|row: [S; 4], moved: [S; 4]|
        {
            &&& is_row_of(row, p, widen)
            &&& #[trigger] call_ensures(product, (&transform, &row), moved)
            &&& call_ensures(narrow, (moved[0],), image.x)
            &&& call_ensures(narrow, (moved[1],), image.y)
            &&& call_ensures(narrow, (moved[2],), image.z)
        };
    assert(row[3] == one_of::<S>());
    let from = [row[0], row[1], row[2]];
    let to = [moved[0], moved[1], moved[2]];
    lemma_units(value(transform[0][3]));
    lemma_units(value(transform[1][3]));
    lemma_units(value(transform[2][3]));
    assert(value(moved[0]) == value(transform[0][0]) * value(row[0]) + value(transform[0][1])
        * value(row[1]) + value(transform[0][2]) * value(row[2]) + value(transform[0][3]) * value(
        row[3],
    ));
    assert(value(moved[1]) == value(transform[1][0]) * value(row[0]) + value(transform[1][1])
        * value(row[1]) + value(transform[1][2]) * value(row[2]) + value(transform[1][3]) * value(
        row[3],
    ));
    assert(value(moved[2]) == value(transform[2][0]) * value(row[0]) + value(transform[2][1])
        * value(row[1]) + value(transform[2][2]) * value(row[2]) + value(transform[2][3]) * value(
        row[3],
    ));
    assert(reads_from(from, p, widen));
    assert(writes_to(image, to, narrow));
}

/// The numbers are the x, y and z of the point, widened.
pub open spec fn reads_from<T, S, W: Fn(T) -> S>(from: [S; 3], p: PointXYZ<T>, widen: W) -> bool {
    &&& call_ensures(widen, (p.x,), from[0])
    &&& call_ensures(widen, (p.y,), from[1])
    &&& call_ensures(widen, (p.z,), from[2])
}

/// The x, y and z of the point are the numbers, narrowed.
pub open spec fn writes_to<T, S, N: Fn(S) -> T>(p: PointXYZ<T>, to: [S; 3], narrow: N) -> bool {
    &&& call_ensures(narrow, (to[0],), p.x)
    &&& call_ensures(narrow, (to[1],), p.y)
    &&& call_ensures(narrow, (to[2],), p.z)
}

/// The rows of a cloud are the x, y and z of its points, in that order, and the points of rows
/// have their numbers for x, y and z.
pub proof fn law_rows_hold_coordinates<T: Copy, S: Copy, W: Fn(T) -> S, N: Fn(S) -> T>(
    cloud: Points<T>,
    rows: Vec<[S; 3]>,
    back: Points<T>,
    widen: W,
    narrow: N,
    i: int,
)
    requires
        call_ensures(points_to_array2::<T, S, W>, (&cloud, widen), rows),
        call_ensures(array2_to_points::<T, S, N>, (&rows, narrow), back),
        0 <= i < cloud.points@.len(),
    ensures
        rows@.len() == cloud.points@.len(),
        back.points@.len() == cloud.points@.len(),
        reads_from(rows@[i], cloud.points@[i], widen),
        writes_to(back.points@[i], rows@[i], narrow),
{
    assert(reads_from(rows@[i], cloud.points@[i], widen));
    assert(writes_to(back.points@[i], rows@[i], narrow));
}

} // verus!

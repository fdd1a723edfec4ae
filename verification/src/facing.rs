//! What the normals of a cloud are, where arithmetic is exact.
use crate::alignment::{centroid_of, facing_of, norm_of, relative_of, scaled_of, unit_of};
use crate::exact::{
    billionth, compares_exactly, exact, lemma_dot_value, reads_ratios, roots_exactly, value3,
};
use crate::means::{coordinate_sum, law_centroid_is_mean, lemma_quotient_times};
use crate::registration::{is_normal_at, is_normal_of, K_NEIGHBORS};
use crate::rotations::{cross, dot, lemma_assoc, lemma_comm, lemma_dist, lemma_units, Real3};
use crate::rows::rows_at;
use crate::scalar::{
    dot3_of, minus3_of, minus_one_of, over_of, ratio_of, square_root_of, Scalar,
};
use crate::turning::{
    lemma_billionth_is_positive, lemma_cross_with_itself, lemma_direction_is_unit, lemma_one_root,
    lemma_opposite_factor, lemma_positive_product, lemma_square_is_not_negative, scaled,
};
use vstd::prelude::*;

verus! {

/// The opposite vector.
pub open spec fn opposite(a: Real3) -> Real3 {
    (-a.0, -a.1, -a.2)
}

/// The difference of two vectors.
pub open spec fn difference(a: Real3, b: Real3) -> Real3 {
    (a.0 - b.0, a.1 - b.1, a.2 - b.2)
}

/// The vector has this length.
pub open spec fn is_length(length: real, a: Real3) -> bool {
    length >= 0 as real && length * length == dot(a, a)
}

/// `normal` is the unit vector along `direction`, on the side of it that `outward` is on. A
/// direction of a length below a billionth has the zero vector for it.
pub open spec fn faces(normal: Real3, direction: Real3, outward: Real3) -> bool {
    forall|length: real|
        #[trigger] is_length(length, direction) ==> if length < billionth() {
            normal == (0 as real, 0 as real, 0 as real)
        } else {
            &&& dot(normal, normal) == 1 as real
            &&& cross(normal, direction) == (0 as real, 0 as real, 0 as real)
            &&& dot(normal, outward) >= 0 as real
            &&& scaled(length, normal) == if dot(direction, outward) >= 0 as real {
                direction
            } else {
                opposite(direction)
            }
        }
}

/// A factor drawn out of an inner product.
pub(crate) proof fn lemma_dot_of_scaled(n: real, a: Real3, b: Real3)
    ensures
        dot(scaled(n, a), b) == n * dot(a, b),
{
    lemma_assoc(n, a.0, b.0);
    lemma_assoc(n, a.1, b.1);
    lemma_assoc(n, a.2, b.2);
    lemma_dist(a.0 * b.0, a.1 * b.1, n);
    lemma_dist(a.0 * b.0 + a.1 * b.1, a.2 * b.2, n);
}

/// The inner product with the opposite vector.
pub(crate) proof fn lemma_dot_of_opposite(a: Real3, b: Real3)
    ensures
        dot(opposite(a), b) == -dot(a, b),
        dot(opposite(a), opposite(a)) == dot(a, a),
{
    lemma_opposite_factor(a.0, b.0);
    lemma_opposite_factor(a.1, b.1);
    lemma_opposite_factor(a.2, b.2);
    lemma_opposite_factor(a.0, -a.0);
    lemma_opposite_factor(a.1, -a.1);
    lemma_opposite_factor(a.2, -a.2);
    lemma_opposite_factor(a.0, a.0);
    lemma_opposite_factor(a.1, a.1);
    lemma_opposite_factor(a.2, a.2);
}

/// A unit vector and a multiple of it.
proof fn lemma_along(k: Real3, length: real, direction: Real3)
    requires
        direction == scaled(length, k) || direction == opposite(scaled(length, k)),
    ensures
        cross(k, direction) == (0 as real, 0 as real, 0 as real),
{
    let (x, y, z) = k;
    lemma_cross_with_itself(x, y, length);
    lemma_cross_with_itself(y, z, length);
    lemma_cross_with_itself(z, x, length);
    lemma_opposite_factor(length * x, y);
    lemma_opposite_factor(length * x, z);
    lemma_opposite_factor(length * y, x);
    lemma_opposite_factor(length * y, z);
    lemma_opposite_factor(length * z, x);
    lemma_opposite_factor(length * z, y);
    lemma_comm(length * x, y);
    lemma_comm(length * x, z);
    lemma_comm(length * y, x);
    lemma_comm(length * y, z);
    lemma_comm(length * z, x);
    lemma_comm(length * z, y);
}

/// The sign of a product with a positive factor.
pub(crate) proof fn lemma_sign_of_factor(h: real, x: real)
    requires
        h > 0 as real,
        h * x >= 0 as real,
    ensures
        x >= 0 as real,
{
    if x < 0 as real {
        lemma_positive_product(h, -x);
        lemma_opposite_factor(x, h);
        lemma_comm(h, x);
    }
}

/// The value of a normal turned towards the viewpoint.
proof fn lemma_facing_value<T: Scalar>(
    value: spec_fn(T) -> real,
    direction: [T; 3],
    centroid: [T; 3],
    viewpoint: [T; 3],
)
    requires
        exact(value),
        compares_exactly(value),
        reads_ratios(value),
    ensures
        ({
            let outward = difference(value3(value, viewpoint), value3(value, centroid));
            let d = value3(value, direction);
            value3(value, facing_of(direction, centroid, viewpoint)) == if dot(d, outward)
                >= 0 as real {
                d
            } else {
                opposite(d)
            }
        }),
{
    let to = minus3_of(viewpoint, centroid);
    lemma_dot_value(value, direction, to);
    let d = value3(value, direction);
    assert(value3(value, to) == difference(value3(value, viewpoint), value3(value, centroid)));
    assert(value(dot3_of(direction, to)) == dot(d, value3(value, to)));
    let minus_one = minus_one_of::<T>();
    assert(value(ratio_of::<T>((-1) as i32, 1)) == (-1) as real / 1 as real);
    assert(value(minus_one) == -(1 as real));
    lemma_opposite_factor(1 as real, d.0);
    lemma_opposite_factor(1 as real, d.1);
    lemma_opposite_factor(1 as real, d.2);
    lemma_units(d.0);
    lemma_units(d.1);
    lemma_units(d.2);
    assert(value3(value, scaled_of(direction, minus_one)) == opposite(d));
}

/// A normal is the unit vector along the direction that it comes from, on the side of the
/// viewpoint.
pub proof fn law_normal_faces_viewpoint<T: Scalar>(
    value: spec_fn(T) -> real,
    normal: [T; 3],
    direction: [T; 3],
    centroid: [T; 3],
    viewpoint: [T; 3],
)
    requires
        exact(value),
        compares_exactly(value),
        reads_ratios(value),
        roots_exactly(value),
        normal == unit_of(facing_of(direction, centroid, viewpoint)),
    ensures
        faces(
            value3(value, normal),
            value3(value, direction),
            difference(value3(value, viewpoint), value3(value, centroid)),
        ),
{
    let f = facing_of(direction, centroid, viewpoint);
    let d = value3(value, direction);
    let outward = difference(value3(value, viewpoint), value3(value, centroid));
    lemma_facing_value(value, direction, centroid, viewpoint);
    let vf = value3(value, f);
    lemma_dot_of_opposite(d, outward);
    lemma_dot_value(value, f, f);
    assert(dot(vf, vf) == dot(d, d));
    assert(norm_of(f) == square_root_of(dot3_of(f, f)));
    lemma_billionth_is_positive();
    assert(value(ratio_of::<T>(1, 1_000_000_000)) == billionth());
    let n = value3(value, normal);
    assert forall|length: real|
        #[trigger] is_length(length, d) implies if length < billionth() {
        n == (0 as real, 0 as real, 0 as real)
    } else {
        &&& dot(n, n) == 1 as real
        &&& cross(n, d) == (0 as real, 0 as real, 0 as real)
        &&& dot(n, outward) >= 0 as real
        &&& scaled(length, n) == if dot(d, outward) >= 0 as real {
            d
        } else {
            opposite(d)
        }
    } by {
        lemma_square_is_not_negative(length);
        let norm = norm_of(f);
        lemma_one_root(value(norm), length);
        if length >= billionth() {
            assert(normal[0] == over_of(f[0], norm));
            assert(normal[1] == over_of(f[1], norm));
            assert(normal[2] == over_of(f[2], norm));
            lemma_quotient_times(vf.0, length);
            lemma_quotient_times(vf.1, length);
            lemma_quotient_times(vf.2, length);
            lemma_comm(length, n.0);
            lemma_comm(length, n.1);
            lemma_comm(length, n.2);
            assert(scaled(length, n) == vf);
            lemma_direction_is_unit(vf, length, n);
            assert(d == vf || d == opposite(vf));
            lemma_along(n, length, d);
            lemma_dot_of_scaled(length, n, outward);
            assert(dot(vf, outward) >= 0 as real);
            lemma_sign_of_factor(length, dot(n, outward));
        }
    }
}

/// `at` is the mean of the points.
pub open spec fn is_mean<T: Scalar>(
    value: spec_fn(T) -> real,
    points: Seq<[T; 3]>,
    at: Real3,
) -> bool {
    let n = points.len() as int;
    &&& at.0 * n as real == coordinate_sum(value, points, n, 0)
    &&& at.1 * n as real == coordinate_sum(value, points, n, 1)
    &&& at.2 * n as real == coordinate_sum(value, points, n, 2)
}

/// The points at the positions given, in their order.
pub open spec fn points_at<T>(points: Seq<[T; 3]>, found: Seq<usize>) -> Seq<[T; 3]> {
    Seq::new(found.len(), |i: int| points[found[i] as int])
}

/// `around` are the points as seen from `at`.
pub open spec fn seen_from<T: Scalar>(
    value: spec_fn(T) -> real,
    around: Seq<[T; 3]>,
    points: Seq<[T; 3]>,
    at: Real3,
) -> bool {
    &&& around.len() == points.len()
    &&& forall|i: int|
        0 <= i < points.len() ==> value3(value, #[trigger] around[i]) == difference(
            value3(value, points[i]),
            at,
        )
}

/// The centroid of points is their mean, in all three coordinates.
pub(crate) proof fn lemma_centroid_is_mean<T: Scalar>(
    value: spec_fn(T) -> real,
    points: Seq<[T; 3]>,
)
    requires
        exact(value),
        0 < points.len() <= usize::MAX,
    ensures
        is_mean(value, points, value3(value, centroid_of(points))),
{
    law_centroid_is_mean(value, points, 0);
    law_centroid_is_mean(value, points, 1);
    law_centroid_is_mean(value, points, 2);
}

/// The normal at a point comes from its fifteen nearest neighbours: it is the unit vector
/// along the direction in which they spread least about their mean, on the side of the
/// viewpoint as seen from that mean.
pub proof fn law_normal_comes_from_neighbours<
    T: Scalar,
    K: Fn(&[T; 3], usize) -> Vec<usize>,
    F: Fn(&Vec<[T; 3]>) -> [T; 3],
>(
    value: spec_fn(T) -> real,
    normal: [T; 3],
    point: [T; 3],
    target_pts: Seq<[T; 3]>,
    search: K,
    least_spread: F,
    viewpoint: [T; 3],
)
    requires
        exact(value),
        compares_exactly(value),
        reads_ratios(value),
        roots_exactly(value),
        is_normal_at(normal, point, target_pts, search, least_spread, viewpoint),
        forall|found: Vec<usize>| #[trigger]
            call_ensures(search, (&point, 15usize), found) ==> 0 < found@.len() <= usize::MAX,
    ensures
        exists|found: Vec<usize>, around: Vec<[T; 3]>, direction: [T; 3], at: Real3|
            {
                &&& #[trigger] call_ensures(search, (&point, 15usize), found)
                &&& is_mean(value, points_at(target_pts, found@), at)
                &&& #[trigger] seen_from(value, around@, points_at(target_pts, found@), at)
                &&& #[trigger] call_ensures(least_spread, (&around,), direction)
                &&& faces(
                    value3(value, normal),
                    value3(value, direction),
                    difference(value3(value, viewpoint), at),
                )
            },
{
    let found = choose|found: Vec<usize>| #[trigger]
        call_ensures(search, (&point, K_NEIGHBORS), found) && is_normal_of(
            normal,
            rows_at(target_pts, found@),
            least_spread,
            viewpoint,
        );
    assert(call_ensures(search, (&point, 15usize), found));
    let neighbours = points_at(target_pts, found@);
    assert(neighbours =~= rows_at(target_pts, found@));
    let middle = centroid_of(neighbours);
    let (around, direction) = choose|relative: Vec<[T; 3]>, direction: [T; 3]|
        {
            &&& relative@ == relative_of(neighbours, middle)
            &&& #[trigger] call_ensures(least_spread, (&relative,), direction)
            &&& normal == unit_of(facing_of(direction, middle, viewpoint))
        };
    let at = value3(value, middle);
    lemma_centroid_is_mean(value, neighbours);
    assert forall|i: int| 0 <= i < neighbours.len() implies value3(value, #[trigger] around@[i])
        == difference(value3(value, neighbours[i]), at) by {
        assert(around@[i] == minus3_of(neighbours[i], middle));
    }
    assert(seen_from(value, around@, neighbours, at));
    law_normal_faces_viewpoint(value, normal, direction, middle, viewpoint);
}

} // verus!

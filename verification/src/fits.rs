//! What the equations of a fit say and what its error measures, where arithmetic is exact.
use crate::alignment::{
    homogeneous_of, inverse_factors_of, inverted_of, jacobian_row_of, plane_distance_of,
    squared_residual_of, Decomposition, Factors, SolveError, Transform,
};
use crate::exact::{
    compares_exactly, exact, lemma_dot_value, millionth, multiplies_exactly, reads_ratios,
    roots_exactly, value3,
};
use crate::facing::difference;
use crate::means::lemma_quotient_times;
use crate::registration::{is_error_of, is_system_of};
use crate::rotations::{cross, dot, lemma_assoc, lemma_comm, lemma_dist, lemma_units, Real3};
use crate::scalar::{
    count_of, magnitude_of, minus3_of, one_of, over_of, ratio_of, square_root_of, times_of,
    Scalar,
};
use crate::turning::{
    lemma_opposite_factor, lemma_positive_product, lemma_square_is_not_negative, placed, sum,
};
use vstd::prelude::*;

verus! {

/// How far a point lies from the plane through `on` along its normal.
pub open spec fn off_plane(p: Real3, on: Real3, normal: Real3) -> real {
    dot(difference(on, p), normal)
}

/// The value of the distance of a pair.
pub(crate) proof fn lemma_distance_value<T: Scalar>(
    value: spec_fn(T) -> real,
    source: [T; 3],
    target: [T; 3],
    normal: [T; 3],
)
    requires
        exact(value),
    ensures
        value(plane_distance_of(source, target, normal)) == off_plane(
            value3(value, source),
            value3(value, target),
            value3(value, normal),
        ),
{
    let d = minus3_of(target, source);
    lemma_dot_value(value, d, normal);
    assert(value3(value, d) == difference(value3(value, target), value3(value, source)));
}

/// One term of a triple product, in its three places.
proof fn lemma_term(w: real, p: real, n: real)
    ensures
        (w * p) * n == w * (p * n),
{
    lemma_assoc(w, p, n);
}

/// In a triple product the operations can be exchanged.
proof fn lemma_triple(w: Real3, p: Real3, n: Real3)
    ensures
        dot(cross(w, p), n) == dot(w, cross(p, n)),
{
    lemma_dist(w.1 * p.2, w.2 * p.1, n.0);
    lemma_dist(w.2 * p.0, w.0 * p.2, n.1);
    lemma_dist(w.0 * p.1, w.1 * p.0, n.2);
    lemma_dist(p.1 * n.2, p.2 * n.1, w.0);
    lemma_dist(p.2 * n.0, p.0 * n.2, w.1);
    lemma_dist(p.0 * n.1, p.1 * n.0, w.2);
    lemma_term(w.1, p.2, n.0);
    lemma_term(w.2, p.1, n.0);
    lemma_term(w.2, p.0, n.1);
    lemma_term(w.0, p.2, n.1);
    lemma_term(w.0, p.1, n.2);
    lemma_term(w.1, p.0, n.2);
}

/// The inner product of a difference.
proof fn lemma_dot_of_difference(a: Real3, b: Real3, n: Real3)
    ensures
        dot(difference(a, b), n) == dot(a, n) - dot(b, n),
        dot(sum(a, b), n) == dot(a, n) + dot(b, n),
{
    lemma_dist(a.0, b.0, n.0);
    lemma_dist(a.1, b.1, n.1);
    lemma_dist(a.2, b.2, n.2);
}

/// The equation of a pair is linear in the turn and the move, and exact to first order: what
/// is left of it for the turn `w` and the move `t` is the distance of the source point from
/// the target's plane once it has been moved by the cross product of `w` with it and by `t`.
pub proof fn law_equation_measures_distance<T: Scalar>(
    value: spec_fn(T) -> real,
    rows: Seq<[T; 6]>,
    rhs: Seq<T>,
    sources: Seq<[T; 3]>,
    targets: Seq<[T; 3]>,
    normals: Seq<[T; 3]>,
    i: int,
    w: Real3,
    t: Real3,
)
    requires
        exact(value),
        is_system_of(rows, rhs, sources, targets, normals),
        0 <= i < sources.len(),
    ensures
        rows.len() == sources.len(),
        rhs.len() == sources.len(),
        ({
            let p = value3(value, sources[i]);
            value(rhs[i]) - (dot(w, (value(rows[i][0]), value(rows[i][1]), value(rows[i][2])))
                + dot(t, (value(rows[i][3]), value(rows[i][4]), value(rows[i][5])))) == off_plane(
                sum(sum(p, cross(w, p)), t),
                value3(value, targets[i]),
                value3(value, normals[i]),
            )
        }),
{
    let (p, q, n) = (
        value3(value, sources[i]),
        value3(value, targets[i]),
        value3(value, normals[i]),
    );
    lemma_distance_value(value, sources[i], targets[i], normals[i]);
    assert(rhs[i] == plane_distance_of(sources[i], targets[i], normals[i]));
    assert(rows[i] == jacobian_row_of(sources[i], normals[i]));
    let (s, m) = (sources[i], normals[i]);
    assert(value(times_of(s[1], m[2])) == p.1 * n.2);
    assert(value(times_of(s[2], m[1])) == p.2 * n.1);
    assert(value(times_of(s[2], m[0])) == p.2 * n.0);
    assert(value(times_of(s[0], m[2])) == p.0 * n.2);
    assert(value(times_of(s[0], m[1])) == p.0 * n.1);
    assert(value(times_of(s[1], m[0])) == p.1 * n.0);
    assert((value(rows[i][0]), value(rows[i][1]), value(rows[i][2])) == cross(p, n));
    assert((value(rows[i][3]), value(rows[i][4]), value(rows[i][5])) == n);
    lemma_triple(w, p, n);
    lemma_dot_of_difference(q, p, n);
    lemma_dot_of_difference(q, sum(sum(p, cross(w, p)), t), n);
    lemma_dot_of_difference(sum(p, cross(w, p)), t, n);
    lemma_dot_of_difference(p, cross(w, p), n);
}

/// `total` adds up exactly.
pub open spec fn totals_exactly<T: Scalar, S: Fn(&Vec<T>) -> T>(
    value: spec_fn(T) -> real,
    total: S,
) -> bool {
    forall|numbers: &Vec<T>, r: T| #[trigger]
        call_ensures(total, (numbers,), r) ==> value(r) == value_sum(
            value,
            numbers@,
            numbers@.len() as int,
        )
}

/// The values of the first `n` numbers, added up.
pub open spec fn value_sum<T: Scalar>(value: spec_fn(T) -> real, numbers: Seq<T>, n: int) -> real
    decreases n,
{
    if n <= 0 {
        0 as real
    } else {
        value_sum(value, numbers, n - 1) + value(numbers[n - 1])
    }
}

/// The squares of the distances of the first `n` source points from their targets' planes,
/// once they have been moved by the transform, added up.
pub open spec fn squares_after<T: Scalar>(
    value: spec_fn(T) -> real,
    m: Transform<T>,
    sources: Seq<[T; 3]>,
    targets: Seq<[T; 3]>,
    normals: Seq<[T; 3]>,
    n: int,
) -> real
    decreases n,
{
    if n <= 0 {
        0 as real
    } else {
        let off = off_plane(
            placed(value, m, value3(value, sources[n - 1])),
            value3(value, targets[n - 1]),
            value3(value, normals[n - 1]),
        );
        squares_after(value, m, sources, targets, normals, n - 1) + off * off
    }
}

/// The error is the root of the mean of the squared distances from the planes, once the
/// source points have been moved by the transform.
pub open spec fn is_root_mean_square<T: Scalar>(
    value: spec_fn(T) -> real,
    error: T,
    m: Transform<T>,
    sources: Seq<[T; 3]>,
    targets: Seq<[T; 3]>,
    normals: Seq<[T; 3]>,
) -> bool {
    let n = sources.len() as int;
    &&& value(error) >= 0 as real
    &&& (value(error) * value(error)) * n as real == squares_after(
        value,
        m,
        sources,
        targets,
        normals,
        n,
    )
}

/// Where `apply` takes homogeneous rows.
pub(crate) proof fn lemma_applied<T: Scalar, A: Fn(&Vec<[T; 4]>, &Transform<T>) -> Vec<[T; 3]>>(
    value: spec_fn(T) -> real,
    rows: Vec<[T; 4]>,
    m: Transform<T>,
    moved: Vec<[T; 3]>,
    apply: A,
    i: int,
)
    requires
        exact(value),
        multiplies_exactly(value, apply),
        call_ensures(apply, (&rows, &m), moved),
        0 <= i < rows@.len(),
        rows@[i][3] == one_of::<T>(),
    ensures
        moved@.len() == rows@.len(),
        value3(value, moved@[i]) == placed(
            value,
            m,
            (value(rows@[i][0]), value(rows@[i][1]), value(rows@[i][2])),
        ),
{
    let row = rows@[i];
    assert forall|j: int| 0 <= j < 3 implies value(#[trigger] moved@[i][j]) == value(m[j][0]) * value(
        row[0],
    ) + value(m[j][1]) * value(row[1]) + value(m[j][2]) * value(row[2]) + value(m[j][3]) by {
        assert(value(moved@[i][j]) == value(rows@[i][0]) * value(m[j][0]) + value(rows@[i][1])
            * value(m[j][1]) + value(rows@[i][2]) * value(m[j][2]) + value(rows@[i][3]) * value(
            m[j][3],
        ));
        lemma_comm(value(row[0]), value(m[j][0]));
        lemma_comm(value(row[1]), value(m[j][1]));
        lemma_comm(value(row[2]), value(m[j][2]));
        lemma_units(value(m[j][3]));
    }
    assert(value(moved@[i][0]) == value(m[0][0]) * value(row[0]) + value(m[0][1]) * value(row[1])
        + value(m[0][2]) * value(row[2]) + value(m[0][3]));
    assert(value(moved@[i][1]) == value(m[1][0]) * value(row[0]) + value(m[1][1]) * value(row[1])
        + value(m[1][2]) * value(row[2]) + value(m[1][3]));
    assert(value(moved@[i][2]) == value(m[2][0]) * value(row[0]) + value(m[2][1]) * value(row[1])
        + value(m[2][2]) * value(row[2]) + value(m[2][3]));
}

/// The squares that are added up.
proof fn lemma_squares<T: Scalar>(
    value: spec_fn(T) -> real,
    m: Transform<T>,
    moved: Seq<[T; 3]>,
    squares: Seq<T>,
    sources: Seq<[T; 3]>,
    targets: Seq<[T; 3]>,
    normals: Seq<[T; 3]>,
    n: int,
)
    requires
        exact(value),
        0 <= n <= sources.len(),
        forall|i: int|
            0 <= i < sources.len() ==> #[trigger] squares[i] == squared_residual_of(
                moved[i],
                targets[i],
                normals[i],
            ),
        forall|i: int|
            0 <= i < sources.len() ==> value3(value, #[trigger] moved[i]) == placed(
                value,
                m,
                value3(value, sources[i]),
            ),
    ensures
        value_sum(value, squares, n) == squares_after(value, m, sources, targets, normals, n),
        value_sum(value, squares, n) >= 0 as real,
    decreases n,
{
    if n > 0 {
        lemma_squares(value, m, moved, squares, sources, targets, normals, n - 1);
        let i = n - 1;
        lemma_distance_value(value, moved[i], targets[i], normals[i]);
        let d = plane_distance_of(moved[i], targets[i], normals[i]);
        assert(squares[i] == times_of(d, d));
        assert(value(times_of(d, d)) == value(d) * value(d));
        lemma_square_is_not_negative(value(d));
        assert(value3(value, moved[i]) == placed(value, m, value3(value, sources[i])));
    }
}

/// The error of a fit is the root mean square of the distances from the planes that are left
/// once the source points have been moved.
pub proof fn law_error_is_root_mean_square<
    T: Scalar,
    A: Fn(&Vec<[T; 4]>, &Transform<T>) -> Vec<[T; 3]>,
    S: Fn(&Vec<T>) -> T,
>(
    value: spec_fn(T) -> real,
    error: T,
    sources: Seq<[T; 3]>,
    targets: Seq<[T; 3]>,
    normals: Seq<[T; 3]>,
    delta: Transform<T>,
    apply: A,
    total: S,
)
    requires
        exact(value),
        roots_exactly(value),
        multiplies_exactly(value, apply),
        totals_exactly(value, total),
        0 < sources.len() <= usize::MAX,
        is_error_of(error, sources, targets, normals, delta, apply, total),
    ensures
        is_root_mean_square(value, error, delta, sources, targets, normals),
{
    let n = sources.len() as int;
    let (rows, moved, squares, r) = choose|
        rows: Vec<[T; 4]>,
        moved: Vec<[T; 3]>,
        squares: Vec<T>,
        sum: T,
    |
        {
            &&& rows@ == homogeneous_of(sources)
            &&& #[trigger] call_ensures(apply, (&rows, &delta), moved)
            &&& squares@ == Seq::new(
                sources.len(),
                |i: int| squared_residual_of(moved@[i], targets[i], normals[i]),
            )
            &&& #[trigger] call_ensures(total, (&squares,), sum)
            &&& error == square_root_of(over_of(sum, count_of(sources.len() as usize)))
        };
    assert forall|i: int| 0 <= i < n implies value3(value, #[trigger] moved@[i]) == placed(
        value,
        delta,
        value3(value, sources[i]),
    ) by {
        let s = sources[i];
        assert(rows@[i] == [s[0], s[1], s[2], one_of::<T>()]);
        lemma_applied(value, rows, delta, moved, apply, i);
    }
    lemma_squares(value, delta, moved@, squares@, sources, targets, normals, n);
    let count = count_of::<T>(sources.len() as usize);
    assert(value(count) == n as real);
    let mean = over_of(r, count);
    assert(value(mean) == value(r) / n as real);
    lemma_quotient_times(value(r), n as real);
    assert(value(mean) >= 0 as real) by {
        if value(mean) < 0 as real {
            lemma_positive_product(-value(mean), n as real);
            lemma_opposite_factor(value(mean), n as real);
        }
    }
    assert(error == square_root_of(mean));
}

/// Magnitudes are found exactly.
pub open spec fn measures_exactly<T: Scalar>(value: spec_fn(T) -> real) -> bool {
    forall|a: T|
        value(#[trigger] magnitude_of(a)) == if value(a) >= 0 as real {
            value(a)
        } else {
            -value(a)
        }
}

/// The factors of the pseudo-inverse are those of the decomposition, and each of its singular
/// values undoes the one it comes from: their product is one where that is above a millionth
/// in magnitude, and it is zero otherwise.
pub proof fn law_inverse_undoes_values<T: Scalar>(
    value: spec_fn(T) -> real,
    parts: Decomposition<T>,
    factors: Factors<T>,
    i: int,
)
    requires
        exact(value),
        compares_exactly(value),
        reads_ratios(value),
        measures_exactly(value),
        inverse_factors_of(Ok(parts)) == Ok::<_, SolveError>(factors),
        0 <= i < 6,
    ensures
        parts.left == Some(factors.left),
        parts.right == Some(factors.right),
        ({
            let (before, after) = (value(parts.values[i]), value(factors.values[i]));
            if before > millionth() || before < -millionth() {
                after * before == 1 as real
            } else {
                after == 0 as real
            }
        }),
{
    let v = parts.values[i];
    assert(i == 0 || i == 1 || i == 2 || i == 3 || i == 4 || i == 5);
    assert(factors.values[i] == inverted_of(v));
    assert(value(ratio_of::<T>(1, 1_000_000)) == millionth());
    if value(v) != 0 as real {
        lemma_quotient_times(1 as real, value(v));
        assert(value(over_of(one_of::<T>(), v)) == 1 as real / value(v));
    }
}

} // verus!

//! What holds where arithmetic is exact, and so up to rounding where it is not.
use crate::alignment::{
    centroid_of, column_sum, homogeneous_of, jacobian_row_of, no_rotation_of,
    plane_distance_of, rigid_of, squared_residual_of, Decomposition, Equations, Factors,
    SolveError, Transform,
};
use crate::candidates::{identity_of, is_moved};
use crate::registration::{centering_of, is_error_of, is_system_of, is_transformation_of};
use crate::rotations::{lemma_dist, lemma_units, Real3};
use crate::scalar::{
    count_of, dot3_of, infinity_of, less_of, minus3_of, minus_of, negated_of, one_of, over_of,
    plus_of, ratio_of, square_root_of, times_of, zero_of, Scalar,
};
use vstd::prelude::*;

verus! {

/// Arithmetic is exact: `value` says which real number each number stands for, no two
/// stand for the same, and the operations give what the operations on real numbers give.
pub open spec fn exact<T: Scalar>(value: spec_fn(T) -> real) -> bool {
    &&& forall|a: T, b: T| #[trigger] value(a) == #[trigger] value(b) ==> a == b
    &&& forall|a: T, b: T| #[trigger] value(plus_of(a, b)) == value(a) + value(b)
    &&& forall|a: T, b: T| #[trigger] value(minus_of(a, b)) == value(a) - value(b)
    &&& forall|a: T, b: T| #[trigger] value(times_of(a, b)) == value(a) * value(b)
    &&& forall|a: T, b: T|
        value(b) != 0 as real ==> #[trigger] value(over_of(a, b)) == value(a) / value(b)
    &&& forall|a: T| #[trigger] value(negated_of(a)) == -value(a)
    &&& value(zero_of()) == 0 as real
    &&& value(one_of()) == 1 as real
    &&& forall|n: usize| #[trigger] value(count_of::<T>(n)) == n as real
}

/// Numbers compare with the number of value `x` as their values do.
pub open spec fn compares_at<T: Scalar>(value: spec_fn(T) -> real, x: real) -> bool {
    &&& forall|a: T, c: T| value(c) == x ==> (#[trigger] less_of(a, c) <==> value(a) < x)
    &&& forall|a: T, c: T| value(c) == x ==> (#[trigger] less_of(c, a) <==> x < value(a))
}

/// Numbers compare as their values do with the numbers that decisions are made by: zero, a
/// billionth, a millionth and the proportions of a picture.
pub open spec fn compares_exactly<T: Scalar>(value: spec_fn(T) -> real) -> bool {
    &&& compares_at(value, 0 as real)
    &&& compares_at(value, billionth())
    &&& compares_at(value, millionth())
    &&& compares_at(value, 4 as real / 3 as real)
}

/// The numbers lie between negative and positive infinity, and compare with each other as
/// their values do.
pub open spec fn are_ordered<T: Scalar>(value: spec_fn(T) -> real, numbers: Seq<T>) -> bool {
    &&& forall|i: int|
        0 <= i < numbers.len() ==> less_of(#[trigger] numbers[i], infinity_of()) && less_of(
            negated_of(infinity_of()),
            numbers[i],
        )
    &&& forall|i: int, j: int|
        0 <= i < numbers.len() && 0 <= j < numbers.len() ==> (#[trigger] less_of(
            numbers[i],
            numbers[j],
        ) <==> value(numbers[i]) < value(numbers[j]))
}

/// A ratio of whole numbers has the value that it is written as.
pub open spec fn reads_ratios<T: Scalar>(value: spec_fn(T) -> real) -> bool {
    forall|num: i32, den: u32|
        den > 0 ==> #[trigger] value(ratio_of::<T>(num, den)) == num as real / den as real
}

/// A root is not negative, and its square is what it is the root of.
pub open spec fn roots_exactly<T: Scalar>(value: spec_fn(T) -> real) -> bool {
    forall|a: T|
        value(a) >= 0 as real ==> {
            &&& value(#[trigger] square_root_of(a)) >= 0 as real
            &&& value(square_root_of(a)) * value(square_root_of(a)) == value(a)
        }
}

/// The values of three numbers.
pub open spec fn value3<T: Scalar>(value: spec_fn(T) -> real, v: [T; 3]) -> Real3 {
    (value(v[0]), value(v[1]), value(v[2]))
}

/// One billionth.
pub open spec fn billionth() -> real {
    1 as real / 1_000_000_000 as real
}

/// One millionth.
pub open spec fn millionth() -> real {
    1 as real / 1_000_000 as real
}

/// A vector turned round.
pub open spec fn flipped_of<T: Scalar>(v: [T; 3]) -> [T; 3] {
    [negated_of(v[0]), negated_of(v[1]), negated_of(v[2])]
}

/// Six numbers with the opposite signs.
pub open spec fn negated_row_of<T: Scalar>(row: [T; 6]) -> [T; 6] {
    [
        negated_of(row[0]),
        negated_of(row[1]),
        negated_of(row[2]),
        negated_of(row[3]),
        negated_of(row[4]),
        negated_of(row[5]),
    ]
}

/// Negation is exact: it passes through sums, differences and products, and there is one
/// zero. Floating-point numbers meet this where their two zeros count as one.
pub open spec fn negates_exactly<T: Scalar>() -> bool {
    &&& negated_of(zero_of::<T>()) == zero_of::<T>()
    &&& forall|a: T, b: T| #[trigger]
        plus_of(negated_of(a), negated_of(b)) == negated_of(plus_of(a, b))
    &&& forall|a: T, b: T| #[trigger]
        minus_of(negated_of(a), negated_of(b)) == negated_of(minus_of(a, b))
    &&& forall|a: T, b: T| #[trigger] times_of(a, negated_of(b)) == negated_of(times_of(a, b))
    &&& forall|a: T, b: T| #[trigger] times_of(negated_of(a), negated_of(b)) == times_of(a, b)
}

/// Exact arithmetic negates exactly.
pub proof fn law_exact_arithmetic_negates_exactly<T: Scalar>(value: spec_fn(T) -> real)
    requires
        exact(value),
    ensures
        negates_exactly::<T>(),
{
    assert(value(negated_of(zero_of::<T>())) == value(zero_of::<T>()));
    assert forall|a: T, b: T| #[trigger]
        plus_of(negated_of(a), negated_of(b)) == negated_of(plus_of(a, b)) by {
        assert(value(plus_of(negated_of(a), negated_of(b))) == value(negated_of(plus_of(a, b))));
    }
    assert forall|a: T, b: T| #[trigger]
        minus_of(negated_of(a), negated_of(b)) == negated_of(minus_of(a, b)) by {
        assert(value(minus_of(negated_of(a), negated_of(b))) == value(
            negated_of(minus_of(a, b)),
        ));
    }
    assert forall|a: T, b: T| #[trigger]
        times_of(a, negated_of(b)) == negated_of(times_of(a, b)) by {
        let (x, y) = (value(a), value(b));
        assert(x * (-y) == -(x * y)) by (nonlinear_arith);
        assert(value(times_of(a, negated_of(b))) == value(negated_of(times_of(a, b))));
    }
    assert forall|a: T, b: T| #[trigger]
        times_of(negated_of(a), negated_of(b)) == times_of(a, b) by {
        let (x, y) = (value(a), value(b));
        assert((-x) * (-y) == x * y) by (nonlinear_arith);
        assert(value(times_of(negated_of(a), negated_of(b))) == value(times_of(a, b)));
    }
}

/// A normal turned round turns the equation of its pair round: both sides change their
/// signs.
pub proof fn law_flip_negates_equation<T: Scalar>(
    source: [T; 3],
    target: [T; 3],
    normal: [T; 3],
)
    requires
        negates_exactly::<T>(),
    ensures
        jacobian_row_of(source, flipped_of(normal)) == negated_row_of(
            jacobian_row_of(source, normal),
        ),
        plane_distance_of(source, target, flipped_of(normal)) == negated_of(
            plane_distance_of(source, target, normal),
        ),
{
    let row = jacobian_row_of(source, flipped_of(normal));
    let negated = negated_row_of(jacobian_row_of(source, normal));
    assert(row[0] == negated[0]);
    assert(row[1] == negated[1]);
    assert(row[2] == negated[2]);
    assert(row@ =~= negated@);
    let d = minus3_of(target, source);
    let (a, b, c) = (
        times_of(d[0], normal[0]),
        times_of(d[1], normal[1]),
        times_of(d[2], normal[2]),
    );
    assert(plus_of(negated_of(zero_of::<T>()), negated_of(a)) == negated_of(
        plus_of(zero_of(), a),
    ));
    let ab = plus_of(plus_of(zero_of::<T>(), a), b);
    assert(plus_of(negated_of(plus_of(zero_of::<T>(), a)), negated_of(b)) == negated_of(ab));
    assert(plus_of(negated_of(ab), negated_of(c)) == negated_of(plus_of(ab, c)));
}

/// Each of the vectors is the other one or that turned round.
pub open spec fn flips<T: Scalar>(other: Seq<[T; 3]>, normals: Seq<[T; 3]>) -> bool {
    &&& other.len() == normals.len()
    &&& forall|i: int|
        0 <= i < normals.len() ==> #[trigger] other[i] == normals[i] || other[i] == flipped_of(
            normals[i],
        )
}

/// Each equation is the other one or that turned round.
pub open spec fn flips_equations<T: Scalar>(
    rows: Seq<[T; 6]>,
    rhs: Seq<T>,
    other_rows: Seq<[T; 6]>,
    other_rhs: Seq<T>,
) -> bool {
    &&& other_rows.len() == rows.len()
    &&& other_rhs.len() == rhs.len()
    &&& forall|i: int|
        0 <= i < rows.len() ==> {
            ||| #[trigger] other_rows[i] == rows[i] && other_rhs[i] == rhs[i]
            ||| other_rows[i] == negated_row_of(rows[i]) && other_rhs[i] == negated_of(rhs[i])
        }
}

/// `equations` does not see the sign of an equation: what it gives for some equations, it
/// gives where any of them are turned round.
pub open spec fn sees_no_sign<T: Scalar, Q: Fn(&Vec<[T; 6]>, &Vec<T>) -> Equations<T>>(
    equations: Q,
) -> bool {
    forall|
        rows: &Vec<[T; 6]>,
        rhs: &Vec<T>,
        normal: Equations<T>,
        other_rows: Seq<[T; 6]>,
        other_rhs: Seq<T>,
    |
        #![trigger call_ensures(equations, (rows, rhs), normal), flips_equations(rows@, rhs@, other_rows, other_rhs)]
        call_ensures(equations, (rows, rhs), normal) && flips_equations(
            rows@,
            rhs@,
            other_rows,
            other_rhs,
        ) ==> exists|a: Vec<[T; 6]>, b: Vec<T>|
            {
                &&& a@ == other_rows
                &&& b@ == other_rhs
                &&& #[trigger] call_ensures(equations, (&a, &b), normal)
            }
}

/// The orientation of a normal does not matter to the fit: what it comes to, it comes to
/// with any of the normals turned round.
pub proof fn law_orientation_leaves_fit<
    T: Scalar,
    Q: Fn(&Vec<[T; 6]>, &Vec<T>) -> Equations<T>,
    D: Fn(&Equations<T>) -> Option<[T; 6]>,
    B: Fn(&Equations<T>) -> Result<Decomposition<T>, String>,
    W: Fn(&Factors<T>, &Equations<T>) -> [T; 6],
>(
    r: Result<Transform<T>, SolveError>,
    sources: Seq<[T; 3]>,
    targets: Seq<[T; 3]>,
    normals: Seq<[T; 3]>,
    other: Seq<[T; 3]>,
    equations: Q,
    solve: D,
    decompose: B,
    product: W,
)
    requires
        negates_exactly::<T>(),
        sees_no_sign(equations),
        sources.len() == normals.len(),
        flips(other, normals),
        is_transformation_of(
            r,
            sources,
            targets,
            normals,
            equations,
            solve,
            decompose,
            product,
        ),
    ensures
        is_transformation_of(r, sources, targets, other, equations, solve, decompose, product),
{
    let other_rows = Seq::new(
        sources.len(),
        |i: int| jacobian_row_of(sources[i], other[i]),
    );
    let other_rhs = Seq::new(
        sources.len(),
        |i: int| plane_distance_of(sources[i], targets[i], other[i]),
    );
    assert forall|rows: Seq<[T; 6]>, rhs: Seq<T>| #[trigger]
        is_system_of(rows, rhs, sources, targets, normals) implies flips_equations(
        rows,
        rhs,
        other_rows,
        other_rhs,
    ) by {
        assert forall|i: int| 0 <= i < rows.len() implies {
            ||| #[trigger] other_rows[i] == rows[i] && other_rhs[i] == rhs[i]
            ||| other_rows[i] == negated_row_of(rows[i]) && other_rhs[i] == negated_of(rhs[i])
        } by {
            law_flip_negates_equation(sources[i], targets[i], normals[i]);
            assert(other[i] == normals[i] || other[i] == flipped_of(normals[i]));
        }
    }
    assert forall|a: Vec<[T; 6]>, b: Vec<T>|
        a@ == other_rows && b@ == other_rhs implies #[trigger] is_system_of(
        a@,
        b@,
        sources,
        targets,
        other,
    ) by {}
}

/// The value of an inner product.
pub(crate) proof fn lemma_dot_value<T: Scalar>(value: spec_fn(T) -> real, a: [T; 3], b: [T; 3])
    requires
        exact(value),
    ensures
        value(dot3_of(a, b)) == value(a[0]) * value(b[0]) + value(a[1]) * value(b[1]) + value(a[2])
            * value(b[2]),
{
    let z = plus_of(zero_of::<T>(), times_of(a[0], b[0]));
    let y = plus_of(z, times_of(a[1], b[1]));
    assert(dot3_of(a, b) == plus_of(y, times_of(a[2], b[2])));
    assert(value(z) == value(zero_of::<T>()) + value(times_of(a[0], b[0])));
    assert(value(y) == value(z) + value(times_of(a[1], b[1])));
}

/// A vector moved by another.
pub open spec fn plus3_of<T: Scalar>(a: [T; 3], b: [T; 3]) -> [T; 3] {
    [plus_of(a[0], b[0]), plus_of(a[1], b[1]), plus_of(a[2], b[2])]
}

/// A normal turned round leaves the squared distance of its pair.
pub proof fn law_flip_leaves_residual<T: Scalar>(moved: [T; 3], target: [T; 3], normal: [T; 3])
    requires
        negates_exactly::<T>(),
    ensures
        squared_residual_of(moved, target, flipped_of(normal)) == squared_residual_of(
            moved,
            target,
            normal,
        ),
{
    law_flip_negates_equation(moved, target, normal);
}

/// A target that slides within its plane leaves the squared distance of its pair.
pub proof fn law_slide_leaves_residual<T: Scalar>(
    value: spec_fn(T) -> real,
    moved: [T; 3],
    target: [T; 3],
    slide: [T; 3],
    normal: [T; 3],
)
    requires
        exact(value),
        dot3_of(slide, normal) == zero_of::<T>(),
    ensures
        squared_residual_of(moved, plus3_of(target, slide), normal) == squared_residual_of(
            moved,
            target,
            normal,
        ),
{
    let (a, b) = (minus3_of(plus3_of(target, slide), moved), minus3_of(target, moved));
    lemma_dot_value(value, slide, normal);
    lemma_dot_value(value, a, normal);
    lemma_dot_value(value, b, normal);
    assert forall|i: int| 0 <= i < 3 implies value(#[trigger] a[i]) == value(b[i]) + value(
        slide[i],
    ) by {
        assert(value(plus_of(target[i], slide[i])) == value(target[i]) + value(slide[i]));
        assert(a[i] == minus_of(plus_of(target[i], slide[i]), moved[i]));
        assert(b[i] == minus_of(target[i], moved[i]));
    }
    lemma_dist(value(b[0]), value(slide[0]), value(normal[0]));
    lemma_dist(value(b[1]), value(slide[1]), value(normal[1]));
    lemma_dist(value(b[2]), value(slide[2]), value(normal[2]));
    assert(value(a[0]) == value(b[0]) + value(slide[0]));
    assert(value(a[1]) == value(b[1]) + value(slide[1]));
    assert(value(a[2]) == value(b[2]) + value(slide[2]));
    assert(value(dot3_of(a, normal)) == value(dot3_of(b, normal)));
}

/// Each target is the other one moved within the plane of its normal.
pub open spec fn slides<T: Scalar>(
    other: Seq<[T; 3]>,
    targets: Seq<[T; 3]>,
    by: Seq<[T; 3]>,
    normals: Seq<[T; 3]>,
) -> bool {
    forall|i: int|
        0 <= i < normals.len() ==> #[trigger] other[i] == plus3_of(targets[i], by[i]) && dot3_of(
            by[i],
            normals[i],
        ) == zero_of::<T>()
}

/// Neither sliding targets within their planes nor turning normals round changes the
/// error.
pub proof fn law_error_sees_planes_only<
    T: Scalar,
    A: Fn(&Vec<[T; 4]>, &Transform<T>) -> Vec<[T; 3]>,
    S: Fn(&Vec<T>) -> T,
>(
    value: spec_fn(T) -> real,
    error: T,
    sources: Seq<[T; 3]>,
    targets: Seq<[T; 3]>,
    normals: Seq<[T; 3]>,
    other_targets: Seq<[T; 3]>,
    by: Seq<[T; 3]>,
    other_normals: Seq<[T; 3]>,
    delta: Transform<T>,
    apply: A,
    total: S,
)
    requires
        exact(value),
        sources.len() == normals.len(),
        slides(other_targets, targets, by, normals),
        flips(other_normals, normals),
        is_error_of(error, sources, targets, normals, delta, apply, total),
    ensures
        is_error_of(error, sources, other_targets, other_normals, delta, apply, total),
{
    law_exact_arithmetic_negates_exactly(value);
    assert forall|moved: Seq<[T; 3]>| #[trigger]
        residuals_of(sources.len(), moved, targets, normals) == residuals_of(
            sources.len(),
            moved,
            other_targets,
            other_normals,
        ) by {
        assert forall|i: int| 0 <= i < sources.len() implies squared_residual_of(
            moved[i],
            targets[i],
            normals[i],
        ) == #[trigger] squared_residual_of(moved[i], other_targets[i], other_normals[i]) by {
            assert(other_targets[i] == plus3_of(targets[i], by[i]));
            assert(other_normals[i] == normals[i] || other_normals[i] == flipped_of(normals[i]));
            law_slide_leaves_residual(value, moved[i], targets[i], by[i], normals[i]);
            law_flip_leaves_residual(moved[i], other_targets[i], normals[i]);
        }
        assert(residuals_of(sources.len(), moved, targets, normals) =~= residuals_of(
            sources.len(),
            moved,
            other_targets,
            other_normals,
        ));
    }
    let (rows, moved, squares, sum) = choose|
        rows: Vec<[T; 4]>,
        moved: Vec<[T; 3]>,
        squares: Vec<T>,
        sum: T,
    |
        {
            &&& rows@ == homogeneous_of(sources)
            &&& #[trigger] call_ensures(apply, (&rows, &delta), moved)
            &&& squares@ == residuals_of(sources.len(), moved@, targets, normals)
            &&& #[trigger] call_ensures(total, (&squares,), sum)
            &&& error == square_root_of(over_of(sum, count_of(sources.len() as usize)))
        };
    assert(squares@ == residuals_of(sources.len(), moved@, other_targets, other_normals));
}

/// The squared distances of pairs.
spec fn residuals_of<T: Scalar>(
    n: nat,
    moved: Seq<[T; 3]>,
    targets: Seq<[T; 3]>,
    normals: Seq<[T; 3]>,
) -> Seq<T> {
    Seq::new(n, |i: int| squared_residual_of(moved[i], targets[i], normals[i]))
}

/// `apply` multiplies exactly: each coordinate that it gives is the inner product of a row
/// of coordinates with a row of the transform.
pub open spec fn multiplies_exactly<T: Scalar, A: Fn(&Vec<[T; 4]>, &Transform<T>) -> Vec<[T; 3]>>(
    value: spec_fn(T) -> real,
    apply: A,
) -> bool {
    forall|rows: &Vec<[T; 4]>, m: &Transform<T>, moved: Vec<[T; 3]>| #[trigger]
        call_ensures(apply, (rows, m), moved) ==> moved@.len() == rows@.len() && forall|
            i: int,
            j: int,
        |
            0 <= i < moved@.len() && 0 <= j < 3 ==> value(#[trigger] moved@[i][j]) == value(
                rows@[i][0],
            ) * value(m[j][0]) + value(rows@[i][1]) * value(m[j][1]) + value(rows@[i][2]) * value(
                m[j][2],
            ) + value(rows@[i][3]) * value(m[j][3])
}

/// A transform that only moves adds to each coordinate.
proof fn lemma_moved_value<T: Scalar, A: Fn(&Vec<[T; 4]>, &Transform<T>) -> Vec<[T; 3]>>(
    value: spec_fn(T) -> real,
    moved: Vec<[T; 3]>,
    points: Seq<[T; 3]>,
    t: [T; 3],
    apply: A,
    i: int,
    j: int,
)
    requires
        exact(value),
        multiplies_exactly(value, apply),
        is_moved(moved, points, rigid_of(no_rotation_of(), t), apply),
        0 <= i < points.len(),
        0 <= j < 3,
    ensures
        moved@.len() == points.len(),
        value(moved@[i][j]) == value(points[i][j]) + value(t[j]),
{
    let m = rigid_of(no_rotation_of(), t);
    let rows = choose|rows: Vec<[T; 4]>|
        rows@ == homogeneous_of(points) && #[trigger] call_ensures(apply, (&rows, &m), moved);
    let p = points[i];
    assert(rows@[i] == [p[0], p[1], p[2], one_of::<T>()]);
    lemma_units(value(p[0]));
    lemma_units(value(p[1]));
    lemma_units(value(p[2]));
    lemma_units(value(t[j]));
    assert(value(moved@[i][j]) == value(rows@[i][0]) * value(m[j][0]) + value(rows@[i][1]) * value(
        m[j][1],
    ) + value(rows@[i][2]) * value(m[j][2]) + value(rows@[i][3]) * value(m[j][3]));
    assert(j == 0 || j == 1 || j == 2);
}

/// The sum of moved coordinates.
proof fn lemma_moved_sum<T: Scalar>(
    value: spec_fn(T) -> real,
    moved: Seq<[T; 3]>,
    points: Seq<[T; 3]>,
    t: T,
    n: int,
    axis: int,
)
    requires
        exact(value),
        0 <= n <= points.len(),
        0 <= axis < 3,
        forall|i: int|
            0 <= i < n ==> value((#[trigger] moved[i])[axis]) == value(points[i][axis]) + value(t),
    ensures
        value(column_sum(moved, n, axis)) == value(column_sum(points, n, axis)) + n as real * value(
            t,
        ),
    decreases n,
{
    if n > 0 {
        lemma_moved_sum(value, moved, points, t, n - 1, axis);
        let (k, x) = ((n - 1) as real, value(t));
        assert((k + 1 as real) * x == k * x + x) by (nonlinear_arith);
        assert(n as real == k + 1 as real);
        assert(value(moved[n - 1][axis]) == value(points[n - 1][axis]) + x);
        assert(column_sum(moved, n, axis) == plus_of(
            column_sum(moved, n - 1, axis),
            moved[n - 1][axis],
        ));
        assert(column_sum(points, n, axis) == plus_of(
            column_sum(points, n - 1, axis),
            points[n - 1][axis],
        ));
    } else {
        assert((0 as real) * value(t) == 0 as real) by (nonlinear_arith);
    }
}

/// The value of a mean.
pub(crate) proof fn lemma_centroid_value<T: Scalar>(
    value: spec_fn(T) -> real,
    points: Seq<[T; 3]>,
    axis: int,
)
    requires
        exact(value),
        0 < points.len() <= usize::MAX,
        0 <= axis < 3,
    ensures
        value(centroid_of(points)[axis]) == value(column_sum(points, points.len() as int, axis))
            / points.len() as real,
{
    let count = count_of::<T>(points.len() as usize);
    assert(value(count) == points.len() as real);
    assert(value(over_of(column_sum(points, points.len() as int, axis), count)) == value(
        column_sum(points, points.len() as int, axis),
    ) / value(count));
    assert(axis == 0 || axis == 1 || axis == 2);
}

/// A mean moves with its points.
proof fn lemma_mean_moves(s: real, n: real, t: real)
    requires
        n > 0 as real,
    ensures
        (s + n * t) / n == s / n + t,
{
    assert((s + n * t) / n == s / n + t) by (nonlinear_arith)
        requires
            n > 0 as real,
    ;
}

/// Centering moves the source's centroid onto the target's and keeps all differences of
/// points.
pub proof fn law_centering_meets_target<
    T: Scalar,
    A: Fn(&Vec<[T; 4]>, &Transform<T>) -> Vec<[T; 3]>,
>(
    value: spec_fn(T) -> real,
    centered: Vec<[T; 3]>,
    source: Seq<[T; 3]>,
    target: Seq<[T; 3]>,
    apply: A,
)
    requires
        exact(value),
        multiplies_exactly(value, apply),
        0 < source.len() <= usize::MAX,
        is_moved(centered, source, centering_of(source, target), apply),
    ensures
        centered@.len() == source.len(),
        centroid_of(centered@) == centroid_of(target),
        forall|i: int, j: int|
            0 <= i < source.len() && 0 <= j < source.len() ==> #[trigger] minus3_of(
                centered@[i],
                centered@[j],
            ) == minus3_of(source[i], source[j]),
{
    let n = source.len() as int;
    let t = minus3_of(centroid_of(target), centroid_of(source));
    assert(centering_of(source, target) == rigid_of(no_rotation_of(), t));
    lemma_moved_value(value, centered, source, t, apply, 0, 0);
    assert forall|i: int, axis: int| 0 <= i < n && 0 <= axis < 3 implies value(
        (#[trigger] centered@[i])[axis],
    ) == #[trigger] value(source[i][axis]) + value(t[axis]) by {
        lemma_moved_value(value, centered, source, t, apply, i, axis);
    }
    assert forall|axis: int| 0 <= axis < 3 implies #[trigger] centroid_of(centered@)[axis]
        == centroid_of(target)[axis] by {
        assert forall|i: int| 0 <= i < n implies value((#[trigger] centered@[i])[axis]) == value(
            source[i][axis],
        ) + value(t[axis]) by {
            lemma_moved_value(value, centered, source, t, apply, i, axis);
        }
        lemma_moved_sum(value, centered@, source, t[axis], n, axis);
        lemma_centroid_value(value, centered@, axis);
        lemma_centroid_value(value, source, axis);
        lemma_mean_moves(value(column_sum(source, n, axis)), n as real, value(t[axis]));
        assert(t[axis] == minus_of(centroid_of(target)[axis], centroid_of(source)[axis]));
        assert(value(centroid_of(centered@)[axis]) == value(centroid_of(target)[axis]));
    }
    assert(centroid_of(centered@)@ =~= centroid_of(target)@);
    assert forall|i: int, j: int| 0 <= i < n && 0 <= j < n implies #[trigger] minus3_of(
        centered@[i],
        centered@[j],
    ) == minus3_of(source[i], source[j]) by {
        assert forall|axis: int| 0 <= axis < 3 implies #[trigger] minus_of(
            centered@[i][axis],
            centered@[j][axis],
        ) == minus_of(source[i][axis], source[j][axis]) by {
            lemma_moved_value(value, centered, source, t, apply, i, axis);
            lemma_moved_value(value, centered, source, t, apply, j, axis);
            assert(value(minus_of(centered@[i][axis], centered@[j][axis])) == value(
                minus_of(source[i][axis], source[j][axis]),
            ));
        }
        assert(minus3_of(centered@[i], centered@[j])@ =~= minus3_of(source[i], source[j])@);
    }
}

/// Centering twice moves nothing more: the second transform leaves everything where it is,
/// and so do its results.
pub proof fn law_centering_twice_moves_nothing<
    T: Scalar,
    A: Fn(&Vec<[T; 4]>, &Transform<T>) -> Vec<[T; 3]>,
>(
    value: spec_fn(T) -> real,
    centered: Vec<[T; 3]>,
    again: Vec<[T; 3]>,
    source: Seq<[T; 3]>,
    target: Seq<[T; 3]>,
    apply: A,
)
    requires
        exact(value),
        multiplies_exactly(value, apply),
        0 < source.len() <= usize::MAX,
        is_moved(centered, source, centering_of(source, target), apply),
        is_moved(again, centered@, centering_of(centered@, target), apply),
    ensures
        centering_of(centered@, target) == identity_of::<T>(),
        again@ == centered@,
{
    law_centering_meets_target(value, centered, source, target, apply);
    let t = minus3_of(centroid_of(target), centroid_of(centered@));
    assert forall|axis: int| 0 <= axis < 3 implies #[trigger] t[axis] == zero_of::<T>() by {
        let c = centroid_of(target)[axis];
        assert(t[axis] == minus_of(c, c));
        assert(value(minus_of(c, c)) == value(zero_of::<T>()));
    }
    assert(t@ =~= [zero_of::<T>(), zero_of::<T>(), zero_of::<T>()]@);
    lemma_moved_value(value, again, centered@, t, apply, 0, 0);
    assert forall|i: int| 0 <= i < centered@.len() implies #[trigger] again@[i] == centered@[i] by {
        assert forall|axis: int| 0 <= axis < 3 implies #[trigger] again@[i][axis]
            == centered@[i][axis] by {
            lemma_moved_value(value, again, centered@, t, apply, i, axis);
            assert(t[axis] == zero_of::<T>());
            assert(value(again@[i][axis]) == value(centered@[i][axis]));
        }
        assert(again@[i]@ =~= centered@[i]@);
    }
    assert(again@ =~= centered@);
}

} // verus!

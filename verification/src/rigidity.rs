//! Alignments that start from a rigid transform end in a rigid transform, where arithmetic
//! is exact.
use crate::alignment::{
    angle_of, is_rotation_by, is_small, is_solved, move_of, rigid_of, rotation_of,
    small_rotation_of, turn_of, Decomposition, Equations, Factors, Transform,
};
use crate::exact::exact;
use crate::icp::{IcpEvent, IcpState};
use crate::invariants::{fits_have, law_alignment_keeps, products_keep, rigid_row_of};
use crate::iteration::is_alignment;
use crate::registration::is_solution_of;
use crate::rotations::{
    are_rotation_rows, law_rotations_multiply, law_turns_are_rotations, lemma_assoc, lemma_comm,
    lemma_dist, lemma_units, row_times, turn_row, Real3,
};
use crate::scalar::{
    less_of, minus_of, negated_of, one_of, over_of, plus_of, ratio_of, square_root_of, times_of,
    zero_of, Scalar,
};
use vstd::prelude::*;

verus! {

/// The comparison with a billionth, the square root and the sine and cosine are exact too:
/// numbers compare with it as their values do, a root squared is what it is the root of, and
/// the squares of sine and cosine of an angle add up to one.
pub open spec fn turns_exactly<T: Scalar>(value: spec_fn(T) -> real) -> bool {
    &&& forall|a: T| #[trigger]
        less_of(a, ratio_of(1, 1_000_000_000)) <==> value(a) < value(
            ratio_of(1, 1_000_000_000),
        )
    &&& value(ratio_of(1, 1_000_000_000)) > 0 as real
    &&& forall|a: T|
        value(a) >= 0 as real ==> value(#[trigger] square_root_of(a)) * value(square_root_of(a))
            == value(a)
    &&& forall|a: T, s: T, c: T| #[trigger]
        call_ensures(T::sine, (a,), s) && #[trigger] call_ensures(T::cosine, (a,), c) ==> value(s)
            * value(s) + value(c) * value(c) == 1 as real
}

/// `compose` multiplies exactly.
pub open spec fn composes_exactly<T: Scalar, C: Fn(&Transform<T>, &Transform<T>) -> Transform<T>>(
    value: spec_fn(T) -> real,
    compose: C,
) -> bool {
    forall|a: &Transform<T>, b: &Transform<T>, m: Transform<T>| #[trigger]
        call_ensures(compose, (a, b), m) ==> forall|i: int, j: int|
            0 <= i < 4 && 0 <= j < 4 ==> value(#[trigger] m[i][j]) == value(a[i][0]) * value(
                b[0][j],
            ) + value(a[i][1]) * value(b[1][j]) + value(a[i][2]) * value(b[2][j]) + value(a[i][3])
                * value(b[3][j])
}

/// The values of the first three entries of a row.
pub open spec fn row_value<T: Scalar>(
    value: spec_fn(T) -> real,
    m: Transform<T>,
    i: int,
) -> Real3 {
    (value(m[i][0]), value(m[i][1]), value(m[i][2]))
}

/// `m` is a rigid transform: its last row is that of one, and its first three turn without
/// stretching or mirroring.
pub open spec fn is_rigid<T: Scalar>(value: spec_fn(T) -> real, m: Transform<T>) -> bool {
    &&& m[3] == rigid_row_of::<T>()
    &&& are_rotation_rows(row_value(value, m, 0), row_value(value, m, 1), row_value(value, m, 2))
}

/// No solution turns by an angle that is small and not zero. The rotation by such an angle
/// is linear, and so a rotation only nearly.
pub open spec fn no_small_turns<
    T: Scalar,
    D: Fn(&Equations<T>) -> Option<[T; 6]>,
    B: Fn(&Equations<T>) -> Result<Decomposition<T>, String>,
    W: Fn(&Factors<T>, &Equations<T>) -> [T; 6],
>(solve: D, decompose: B, product: W) -> bool {
    forall|normal: Equations<T>, x: [T; 6]| #[trigger]
        is_solution_of(Ok(x), normal, solve, decompose, product) && is_small(turn_of(x))
            ==> turn_of(x) == [zero_of::<T>(), zero_of::<T>(), zero_of::<T>()]
}

/// A square is not negative.
proof fn lemma_square(x: real)
    ensures
        x * x >= 0 as real,
{
    assert(x * x >= 0 as real) by (nonlinear_arith);
}

/// A quotient times its divisor.
proof fn lemma_quotient(x: real, t: real)
    requires
        t > 0 as real,
    ensures
        (x / t) * t == x,
{
    assert((x / t) * t == x) by (nonlinear_arith)
        requires
            t > 0 as real,
    ;
}

/// Only one leaves a positive number as it is.
proof fn lemma_cancel(n: real, t: real)
    requires
        t > 0 as real,
        n * t == t,
    ensures
        n == 1 as real,
{
    assert((n - 1 as real) * t == n * t - t) by (nonlinear_arith);
    assert(n - 1 as real == 0 as real) by (nonlinear_arith)
        requires
            (n - 1 as real) * t == 0 as real,
            t > 0 as real,
    ;
}

/// A positive square.
proof fn lemma_positive_square(t: real)
    requires
        t > 0 as real,
    ensures
        t * t > 0 as real,
{
    assert(t * t > 0 as real) by (nonlinear_arith)
        requires
            t > 0 as real,
    ;
}

/// The square of a quotient times the square of its divisor.
proof fn lemma_quotient_square(x: real, t: real)
    requires
        t > 0 as real,
    ensures
        ((x / t) * (x / t)) * (t * t) == x * x,
{
    let k = x / t;
    lemma_quotient(x, t);
    lemma_assoc(k, k, t * t);
    lemma_assoc(k, t, t);
    lemma_comm(k * t, t);
    lemma_assoc(k, t, k * t);
    assert(k * (k * (t * t)) == k * ((k * t) * t));
    assert((k * t) * t == t * (k * t));
    assert(k * (t * (k * t)) == (k * t) * (k * t));
}

/// Numbers over the root of the sum of their squares make a unit vector.
proof fn lemma_unit(x: real, y: real, z: real, t: real)
    requires
        t > 0 as real,
        t * t == x * x + y * y + z * z,
    ensures
        (x / t) * (x / t) + (y / t) * (y / t) + (z / t) * (z / t) == 1 as real,
{
    let (a, b, c) = ((x / t) * (x / t), (y / t) * (y / t), (z / t) * (z / t));
    lemma_quotient_square(x, t);
    lemma_quotient_square(y, t);
    lemma_quotient_square(z, t);
    lemma_positive_square(t);
    lemma_dist(a, b, t * t);
    lemma_dist(a + b, c, t * t);
    lemma_cancel(a + b + c, t * t);
}

/// The values of a rotation's rows are those of a turn about a unit vector.
proof fn lemma_rotation_rows<T: Scalar>(
    value: spec_fn(T) -> real,
    w: [T; 3],
    s: T,
    c: T,
    m: Transform<T>,
    t: [T; 3],
)
    requires
        exact(value),
        turns_exactly(value),
        !is_small(w),
        call_ensures(T::sine, (angle_of(w),), s),
        call_ensures(T::cosine, (angle_of(w),), c),
        m == rigid_of(rotation_of(w, s, c), t),
    ensures
        are_rotation_rows(row_value(value, m, 0), row_value(value, m, 1), row_value(value, m, 2)),
{
    let theta = angle_of(w);
    let (a, b, d) = (value(w[0]), value(w[1]), value(w[2]));
    let sum = plus_of(
        plus_of(times_of(w[0], w[0]), times_of(w[1], w[1])),
        times_of(w[2], w[2]),
    );
    lemma_square(a);
    lemma_square(b);
    lemma_square(d);
    assert(value(plus_of(times_of(w[0], w[0]), times_of(w[1], w[1]))) == a * a + b * b);
    assert(value(sum) == a * a + b * b + d * d);
    assert(theta == square_root_of(sum));
    let h = value(theta);
    assert(h * h == a * a + b * b + d * d);
    assert(!less_of(theta, ratio_of(1, 1_000_000_000)));
    assert(h > 0 as real);
    lemma_unit(a, b, d, h);
    let k = [over_of(w[0], theta), over_of(w[1], theta), over_of(w[2], theta)];
    let (x, y, z) = (value(k[0]), value(k[1]), value(k[2]));
    assert(x == a / h && y == b / h && z == d / h);
    let (vs, vc) = (value(s), value(c));
    let u = minus_of(one_of(), c);
    let v = value(u);
    assert(v == 1 as real - vc);
    law_turns_are_rotations(x, y, z, vs, vc, v);
    let (ra, rb, rc) = (
        turn_row(x, y, z, vs, vc, v),
        turn_row(y, z, x, vs, vc, v),
        turn_row(z, x, y, vs, vc, v),
    );
    lemma_entry_values(x, y, v);
    lemma_entry_values(y, z, v);
    lemma_entry_values(x, z, v);
    let (kx, ky, kz) = (k[0], k[1], k[2]);
    let (xy, xz, yz) = (
        times_of(times_of(kx, ky), u),
        times_of(times_of(kx, kz), u),
        times_of(times_of(ky, kz), u),
    );
    assert(value(times_of(kx, ky)) == x * y);
    assert(value(times_of(kx, kz)) == x * z);
    assert(value(times_of(ky, kz)) == y * z);
    assert(value(times_of(kx, kx)) == x * x);
    assert(value(times_of(ky, ky)) == y * y);
    assert(value(times_of(kz, kz)) == z * z);
    assert(value(xy) == (x * y) * v && value(xz) == (x * z) * v && value(yz) == (y * z) * v);
    let r = rotation_of(w, s, c);
    assert(r[0][0] == plus_of(times_of(times_of(kx, kx), u), c));
    assert(r[1][1] == plus_of(times_of(times_of(ky, ky), u), c));
    assert(r[2][2] == plus_of(times_of(times_of(kz, kz), u), c));
    assert(r[0][1] == minus_of(xy, times_of(kz, s)));
    assert(r[0][2] == plus_of(xz, times_of(ky, s)));
    assert(r[1][0] == plus_of(xy, times_of(kz, s)));
    assert(r[1][2] == minus_of(yz, times_of(kx, s)));
    assert(r[2][0] == minus_of(xz, times_of(ky, s)));
    assert(r[2][1] == plus_of(yz, times_of(kx, s)));
    assert(row_value(value, m, 0) == ra);
    assert(row_value(value, m, 1) == (rb.2, rb.0, rb.1));
    assert(row_value(value, m, 2) == (rc.1, rc.2, rc.0));
}

/// An entry in either grouping.
proof fn lemma_entry_values(x: real, y: real, v: real)
    ensures
        x * (y * v) == (x * y) * v,
        y * (x * v) == (x * y) * v,
        x * (x * v) == (x * x) * v,
        y * (y * v) == (y * y) * v,
{
    lemma_assoc(x, y, v);
    lemma_assoc(y, x, v);
    lemma_comm(x, y);
    lemma_assoc(x, x, v);
    lemma_assoc(y, y, v);
}

/// The transform of a solution is rigid.
proof fn lemma_fit_is_rigid<T: Scalar>(value: spec_fn(T) -> real, m: Transform<T>, x: [T; 6])
    requires
        exact(value),
        turns_exactly(value),
        is_small(turn_of(x)) ==> turn_of(x) == [zero_of::<T>(), zero_of::<T>(), zero_of::<T>()],
        is_solved(m, x),
    ensures
        is_rigid(value, m),
{
    let w = turn_of(x);
    let r = choose|r: [[T; 3]; 3]| #[trigger]
        is_rotation_by(r, w) && m == rigid_of(r, move_of(x));
    assert(m[3] == rigid_row_of::<T>());
    if is_small(w) {
        assert(r == small_rotation_of(w));
        assert(value(negated_of(zero_of::<T>())) == 0 as real);
        lemma_units(0 as real);
        lemma_units(1 as real);
        assert(row_value(value, m, 0) == (1 as real, 0 as real, 0 as real));
        assert(row_value(value, m, 1) == (0 as real, 1 as real, 0 as real));
        assert(row_value(value, m, 2) == (0 as real, 0 as real, 1 as real));
    } else {
        let (s, c) = choose|s: T, c: T|
            {
                &&& #[trigger] call_ensures(T::sine, (angle_of(w),), s)
                &&& #[trigger] call_ensures(T::cosine, (angle_of(w),), c)
                &&& r == rotation_of(w, s, c)
            };
        lemma_rotation_rows(value, w, s, c, m, move_of(x));
    }
}

/// The product of two rigid transforms is rigid.
proof fn lemma_product_is_rigid<T: Scalar, C: Fn(&Transform<T>, &Transform<T>) -> Transform<T>>(
    value: spec_fn(T) -> real,
    a: Transform<T>,
    b: Transform<T>,
    m: Transform<T>,
    compose: C,
)
    requires
        exact(value),
        composes_exactly(value, compose),
        call_ensures(compose, (&a, &b), m),
        is_rigid(value, a),
        is_rigid(value, b),
    ensures
        is_rigid(value, m),
{
    let (b0, b1, b2) = (row_value(value, b, 0), row_value(value, b, 1), row_value(value, b, 2));
    law_rotations_multiply(
        row_value(value, a, 0),
        row_value(value, a, 1),
        row_value(value, a, 2),
        b0,
        b1,
        b2,
    );
    assert(value(b[3][0]) == 0 as real && value(b[3][1]) == 0 as real && value(b[3][2])
        == 0 as real && value(b[3][3]) == 1 as real);
    assert forall|i: int, j: int| 0 <= i < 4 && 0 <= j < 4 implies value(#[trigger] m[i][j])
        == value(a[i][0]) * value(b[0][j]) + value(a[i][1]) * value(b[1][j]) + value(a[i][2])
        * value(b[2][j]) + value(a[i][3]) * value(b[3][j]) by {}
    lemma_units(value(a[0][3]));
    lemma_units(value(a[1][3]));
    lemma_units(value(a[2][3]));
    assert forall|i: int| 0 <= i < 3 implies row_value(value, m, i) == #[trigger] row_times(
        row_value(value, a, i),
        b0,
        b1,
        b2,
    ) by {
        assert(i == 0 || i == 1 || i == 2);
        assert(value(m[i][0]) == value(a[i][0]) * value(b[0][0]) + value(a[i][1]) * value(b[1][0])
            + value(a[i][2]) * value(b[2][0]) + value(a[i][3]) * value(b[3][0]));
        assert(value(m[i][1]) == value(a[i][0]) * value(b[0][1]) + value(a[i][1]) * value(b[1][1])
            + value(a[i][2]) * value(b[2][1]) + value(a[i][3]) * value(b[3][1]));
        assert(value(m[i][2]) == value(a[i][0]) * value(b[0][2]) + value(a[i][1]) * value(b[1][2])
            + value(a[i][2]) * value(b[2][2]) + value(a[i][3]) * value(b[3][2]));
    }
    assert(row_value(value, m, 0) == row_times(row_value(value, a, 0), b0, b1, b2));
    assert(row_value(value, m, 1) == row_times(row_value(value, a, 1), b0, b1, b2));
    assert(row_value(value, m, 2) == row_times(row_value(value, a, 2), b0, b1, b2));
    let row = rigid_row_of::<T>();
    assert(a[3] == row && b[3] == row);
    assert forall|j: int| 0 <= j < 4 implies #[trigger] m[3][j] == row[j] by {
        lemma_units(value(b[0][j]));
        lemma_units(value(b[1][j]));
        lemma_units(value(b[2][j]));
        lemma_units(value(b[3][j]));
        assert(value(m[3][j]) == value(a[3][0]) * value(b[0][j]) + value(a[3][1]) * value(b[1][j])
            + value(a[3][2]) * value(b[2][j]) + value(a[3][3]) * value(b[3][j]));
        assert(value(m[3][j]) == value(row[j]));
    }
    assert(m[3]@ =~= row@);
    assert(m[3] == row);
    assert(are_rotation_rows(
        row_value(value, m, 0),
        row_value(value, m, 1),
        row_value(value, m, 2),
    ));
}

/// An alignment from a rigid transform ends in a rigid one, whatever the number of
/// iterations: its last row is that of one, its rotation keeps lengths and angles, and it
/// mirrors nothing.
pub proof fn law_alignment_stays_rigid<
    T: Scalar,
    A: Fn(&Vec<[T; 4]>, &Transform<T>) -> Vec<[T; 3]>,
    N: Fn(&Vec<[T; 3]>) -> Vec<(usize, T)>,
    Q: Fn(&Vec<[T; 6]>, &Vec<T>) -> Equations<T>,
    D: Fn(&Equations<T>) -> Option<[T; 6]>,
    B: Fn(&Equations<T>) -> Result<Decomposition<T>, String>,
    W: Fn(&Factors<T>, &Equations<T>) -> [T; 6],
    C: Fn(&Transform<T>, &Transform<T>) -> Transform<T>,
    S: Fn(&Vec<T>) -> T,
    R: Fn(&IcpEvent<Transform<T>, T>, usize),
>(
    value: spec_fn(T) -> real,
    end: IcpState<Transform<T>, T>,
    source_pts: Seq<[T; 3]>,
    target_pts: Seq<[T; 3]>,
    target_normals: Seq<[T; 3]>,
    initial_transform: Transform<T>,
    max_iterations: usize,
    tolerance: T,
    sample_size: usize,
    trim_percentage: T,
    apply: A,
    nearest: N,
    equations: Q,
    solve: D,
    decompose: B,
    product: W,
    compose: C,
    total: S,
    report: R,
)
    requires
        exact(value),
        turns_exactly(value),
        composes_exactly(value, compose),
        no_small_turns(solve, decompose, product),
        is_rigid(value, initial_transform),
        is_alignment(
            end,
            source_pts,
            target_pts,
            target_normals,
            initial_transform,
            max_iterations,
            tolerance,
            sample_size,
            trim_percentage,
            apply,
            nearest,
            equations,
            solve,
            decompose,
            product,
            compose,
            total,
            report,
        ),
    ensures
        is_rigid(value, end.transform),
{
    let property = |m: Transform<T>| is_rigid(value, m);
    assert(fits_have(property, solve, decompose, product)) by {
        assert forall|normal: Equations<T>, x: [T; 6], m: Transform<T>|
            #![trigger is_solution_of(Ok(x), normal, solve, decompose, product), is_solved(m, x)]
            is_solution_of(Ok(x), normal, solve, decompose, product) && is_solved(
                m,
                x,
            ) implies property(m) by {
            lemma_fit_is_rigid(value, m, x);
        }
    }
    assert(products_keep(property, compose)) by {
        assert forall|a: &Transform<T>, b: &Transform<T>, m: Transform<T>| #[trigger]
            call_ensures(compose, (a, b), m) && property(*a) && property(*b) implies property(
            m,
        ) by {
            lemma_product_is_rigid(value, *a, *b, m, compose);
        }
    }
    law_alignment_keeps(
        property,
        end,
        source_pts,
        target_pts,
        target_normals,
        initial_transform,
        max_iterations,
        tolerance,
        sample_size,
        trim_percentage,
        apply,
        nearest,
        equations,
        solve,
        decompose,
        product,
        compose,
        total,
        report,
    );
}

} // verus!

//! What the rotation of a rotation vector does to points, where arithmetic is exact.
use crate::alignment::{
    angle_of, is_rotation_by, is_small, is_solved, move_of, rigid_of, rotation_of,
    small_rotation_of, turn_of, Transform,
};
use crate::exact::{billionth, compares_exactly, exact, reads_ratios, roots_exactly, value3};
use crate::rotations::{cross, dot, lemma_assoc, lemma_comm, lemma_dist, lemma_units, Real3};
use crate::scalar::{
    minus_of, one_of, over_of, plus_of, ratio_of, square_root_of, times_of, Scalar,
};
use vstd::prelude::*;

verus! {

/// The sum of two vectors.
pub open spec fn sum(a: Real3, b: Real3) -> Real3 {
    (a.0 + b.0, a.1 + b.1, a.2 + b.2)
}

/// A vector made longer or shorter.
pub open spec fn scaled(n: real, a: Real3) -> Real3 {
    (n * a.0, n * a.1, n * a.2)
}

/// Where a matrix of three rows takes a vector.
pub open spec fn turned<T: Scalar>(
    value: spec_fn(T) -> real,
    r: [[T; 3]; 3],
    p: Real3,
) -> Real3 {
    (dot(value3(value, r[0]), p), dot(value3(value, r[1]), p), dot(value3(value, r[2]), p))
}

/// The length of a rotation vector is the angle that it is said to turn by.
proof fn lemma_angle_is_length<T: Scalar>(value: spec_fn(T) -> real, w: [T; 3], length: real)
    requires
        exact(value),
        roots_exactly(value),
        length >= 0 as real,
        length * length == dot(value3(value, w), value3(value, w)),
    ensures
        value(angle_of(w)) == length,
{
    let (a, b, c) = (value(w[0]), value(w[1]), value(w[2]));
    let first = plus_of(times_of(w[0], w[0]), times_of(w[1], w[1]));
    let all = plus_of(first, times_of(w[2], w[2]));
    assert(value(times_of(w[0], w[0])) == a * a);
    assert(value(times_of(w[1], w[1])) == b * b);
    assert(value(times_of(w[2], w[2])) == c * c);
    assert(value(first) == a * a + b * b);
    assert(value(all) == length * length);
    lemma_square_is_not_negative(length);
    assert(angle_of(w) == square_root_of(all));
    lemma_one_root(value(angle_of(w)), length);
}

/// A square is not negative.
pub(crate) proof fn lemma_square_is_not_negative(x: real)
    ensures
        x * x >= 0 as real,
{
    assert(x * x >= 0 as real) by (nonlinear_arith);
}

/// There is one root that is not negative.
pub(crate) proof fn lemma_one_root(a: real, b: real)
    requires
        a >= 0 as real,
        b >= 0 as real,
        a * a == b * b,
    ensures
        a == b,
{
    if a < b {
        lemma_squares_rise(a, b);
    } else if b < a {
        lemma_squares_rise(b, a);
    }
}

/// Squares rise with what they are squares of.
pub(crate) proof fn lemma_squares_rise(a: real, b: real)
    requires
        0 as real <= a,
        a < b,
    ensures
        a * a < b * b,
{
    let d = b - a;
    lemma_dist(a, d, a);
    lemma_dist(a, d, b);
    lemma_comm(a, d);
    lemma_product_sign(d, a);
    lemma_positive_product(d, b);
    assert(b == a + d);
    assert(b * b == a * b + d * b);
    assert(a * b == a * a + a * d);
}

/// A product of numbers that are not negative is not negative.
pub(crate) proof fn lemma_product_sign(x: real, y: real)
    requires
        x >= 0 as real,
        y >= 0 as real,
    ensures
        x * y >= 0 as real,
{
    assert(x * y >= 0 as real) by (nonlinear_arith)
        requires
            x >= 0 as real,
            y >= 0 as real,
    ;
}

/// A product of positive numbers is positive.
pub(crate) proof fn lemma_positive_product(x: real, y: real)
    requires
        x > 0 as real,
        y > 0 as real,
    ensures
        x * y > 0 as real,
{
    assert(x * y > 0 as real) by (nonlinear_arith)
        requires
            x > 0 as real,
            y > 0 as real,
    ;
}

/// A quotient is what gives the dividend when it is multiplied with the divisor.
pub(crate) proof fn lemma_quotient_is(x: real, t: real, k: real)
    requires
        t > 0 as real,
        k * t == x,
    ensures
        x / t == k,
{
    assert(x / t == k) by (nonlinear_arith)
        requires
            t > 0 as real,
            k * t == x,
    ;
}

/// One coordinate of a turned vector: `a`, `b` and `d` are the components of the axis from
/// this coordinate on, `p`, `q` and `r` those of the vector.
proof fn lemma_turned_coordinate(
    a: real,
    b: real,
    d: real,
    s: real,
    c: real,
    v: real,
    p: real,
    q: real,
    r: real,
)
    ensures
        ((a * a) * v + c) * p + ((a * b) * v - d * s) * q + ((a * d) * v + b * s) * r == c * p + s
            * (b * r - d * q) + v * ((a * p + b * q + d * r) * a),
{
    let (x, y, z) = ((a * a) * v, (a * b) * v, (a * d) * v);
    lemma_dist(x, c, p);
    lemma_dist(y, d * s, q);
    lemma_dist(z, b * s, r);
    // The part along the axis.
    lemma_axis_part(a, a, v, p);
    lemma_axis_part(a, b, v, q);
    lemma_axis_part(a, d, v, r);
    let (f, g, h) = (a * p, b * q, d * r);
    lemma_dist(f + g, h, a);
    lemma_dist(f, g, a);
    lemma_dist(f * a + g * a, h * a, v);
    lemma_dist(f * a, g * a, v);
    // The part across it.
    lemma_dist(b * r, d * q, s);
    lemma_across_part(d, s, q);
    lemma_across_part(b, s, r);
}

/// A product of four, regrouped.
proof fn lemma_axis_part(a: real, b: real, v: real, p: real)
    ensures
        ((a * b) * v) * p == v * ((b * p) * a),
{
    lemma_comm(a * b, v);
    lemma_assoc(v, a * b, p);
    lemma_assoc(a, b, p);
    lemma_comm(a, b * p);
}

/// A product of three, regrouped.
proof fn lemma_across_part(d: real, s: real, q: real)
    ensures
        (d * s) * q == s * (d * q),
{
    lemma_comm(d, s);
    lemma_assoc(s, d, q);
}

/// The entries of the rotation about the unit vector `k`.
proof fn lemma_entries<T: Scalar>(value: spec_fn(T) -> real, w: [T; 3], s: T, c: T, k: Real3)
    requires
        exact(value),
        value(angle_of(w)) > 0 as real,
        k.0 * value(angle_of(w)) == value(w[0]),
        k.1 * value(angle_of(w)) == value(w[1]),
        k.2 * value(angle_of(w)) == value(w[2]),
    ensures
        ({
            let r = rotation_of(w, s, c);
            let (x, y, z) = k;
            let (vs, vc) = (value(s), value(c));
            let v = 1 as real - vc;
            &&& value3(value, r[0]) == ((x * x) * v + vc, (x * y) * v - z * vs, (x * z) * v + y * vs)
            &&& value3(value, r[1]) == ((x * y) * v + z * vs, (y * y) * v + vc, (y * z) * v - x * vs)
            &&& value3(value, r[2]) == ((x * z) * v - y * vs, (y * z) * v + x * vs, (z * z) * v + vc)
        }),
{
    let theta = angle_of(w);
    let h = value(theta);
    lemma_quotient_is(value(w[0]), h, k.0);
    lemma_quotient_is(value(w[1]), h, k.1);
    lemma_quotient_is(value(w[2]), h, k.2);
    let (kx, ky, kz) = (over_of(w[0], theta), over_of(w[1], theta), over_of(w[2], theta));
    let (x, y, z) = k;
    assert(value(kx) == x && value(ky) == y && value(kz) == z);
    let u = minus_of(one_of(), c);
    let v = 1 as real - value(c);
    assert(value(u) == v);
    let (xy, xz, yz) = (
        times_of(times_of(kx, ky), u),
        times_of(times_of(kx, kz), u),
        times_of(times_of(ky, kz), u),
    );
    assert(value(times_of(kx, ky)) == x * y);
    assert(value(times_of(kx, kz)) == x * z);
    assert(value(times_of(ky, kz)) == y * z);
    assert(value(times_of(kx, kx)) == x * x);
    assert(value(times_of(ky, ky)) == y * y);
    assert(value(times_of(kz, kz)) == z * z);
    assert(value(xy) == (x * y) * v && value(xz) == (x * z) * v && value(yz) == (y * z) * v);
    let r = rotation_of(w, s, c);
    assert(r[0][0] == plus_of(times_of(times_of(kx, kx), u), c));
    assert(r[1][1] == plus_of(times_of(times_of(ky, ky), u), c));
    assert(r[2][2] == plus_of(times_of(times_of(kz, kz), u), c));
    assert(r[0][1] == minus_of(xy, times_of(kz, s)));
    assert(r[0][2] == plus_of(xz, times_of(ky, s)));
    assert(r[1][0] == plus_of(xy, times_of(kz, s)));
    assert(r[1][2] == minus_of(yz, times_of(kx, s)));
    assert(r[2][0] == minus_of(xz, times_of(ky, s)));
    assert(r[2][1] == plus_of(yz, times_of(kx, s)));
}

/// Where a turn by the right hand about the unit vector `k`, by an angle of sine `s` and
/// cosine `c`, takes a vector: the part of it along `k` stays, and the part across it is
/// turned towards the cross product of `k` and the vector.
pub open spec fn turned_about(k: Real3, s: real, c: real, p: Real3) -> Real3 {
    sum(
        sum(scaled(c, p), scaled(s, cross(k, p))),
        scaled(1 as real - c, scaled(dot(k, p), k)),
    )
}

/// `r` turns by the right hand about the unit vector `k`, by an angle of sine `s` and
/// cosine `c`.
pub open spec fn turns_about<T: Scalar>(
    value: spec_fn(T) -> real,
    r: [[T; 3]; 3],
    k: Real3,
    s: real,
    c: real,
) -> bool {
    forall|p: Real3| #[trigger] turned(value, r, p) == turned_about(k, s, c, p)
}

/// The rotation by a vector turns about its direction by its length, with the right hand: by
/// Rodrigues' formula, for a sine and a cosine of that length. Below a billionth it is the
/// linear part of that: it adds the cross product of the rotation vector with a point.
pub proof fn law_rotation_turns_about_its_vector<T: Scalar>(
    value: spec_fn(T) -> real,
    r: [[T; 3]; 3],
    w: [T; 3],
    length: real,
    k: Real3,
)
    requires
        exact(value),
        compares_exactly(value),
        reads_ratios(value),
        roots_exactly(value),
        is_rotation_by(r, w),
        length >= 0 as real,
        length * length == dot(value3(value, w), value3(value, w)),
        scaled(length, k) == value3(value, w),
    ensures
        length >= billionth() ==> exists|angle: T, s: T, c: T|
            {
                &&& value(angle) == length
                &&& #[trigger] call_ensures(T::sine, (angle,), s)
                &&& #[trigger] call_ensures(T::cosine, (angle,), c)
                &&& turns_about(value, r, k, value(s), value(c))
            },
        length < billionth() ==> forall|p: Real3| #[trigger]
            turned(value, r, p) == sum(p, cross(value3(value, w), p)),
{
    lemma_angle_is_length(value, w, length);
    let theta = angle_of(w);
    assert(value(ratio_of::<T>(1, 1_000_000_000)) == billionth());
    assert(is_small(w) <==> length < billionth());
    if length >= billionth() {
        lemma_billionth_is_positive();
        let (s, c) = choose|s: T, c: T|
            {
                &&& #[trigger] call_ensures(T::sine, (theta,), s)
                &&& #[trigger] call_ensures(T::cosine, (theta,), c)
                &&& r == rotation_of(w, s, c)
            };
        lemma_comm(length, k.0);
        lemma_comm(length, k.1);
        lemma_comm(length, k.2);
        lemma_entries(value, w, s, c, k);
        let (x, y, z) = k;
        let (vs, vc) = (value(s), value(c));
        let v = 1 as real - vc;
        lemma_comm(x, y);
        lemma_comm(x, z);
        lemma_comm(y, z);
        assert forall|p: Real3| #[trigger] turned(value, r, p) == turned_about(k, vs, vc, p) by {
            lemma_turned_coordinate(x, y, z, vs, vc, v, p.0, p.1, p.2);
            lemma_turned_coordinate(y, z, x, vs, vc, v, p.1, p.2, p.0);
            lemma_turned_coordinate(z, x, y, vs, vc, v, p.2, p.0, p.1);
        }
        assert(turns_about(value, r, k, vs, vc));
    } else {
        assert(r == small_rotation_of(w));
        let (a, b, d) = value3(value, w);
        assert(value3(value, r[0]) == (1 as real, -d, b));
        assert(value3(value, r[1]) == (d, 1 as real, -a));
        assert(value3(value, r[2]) == (-b, a, 1 as real));
        assert forall|p: Real3| #[trigger]
            turned(value, r, p) == sum(p, cross(value3(value, w), p)) by {
            lemma_units(p.0);
            lemma_units(p.1);
            lemma_units(p.2);
            lemma_opposite_factor(d, p.1);
            lemma_opposite_factor(a, p.2);
            lemma_opposite_factor(b, p.0);
        }
    }
}

/// A billionth is positive.
pub(crate) proof fn lemma_billionth_is_positive()
    ensures
        billionth() > 0 as real,
{
}

/// A factor with the opposite sign.
pub(crate) proof fn lemma_opposite_factor(x: real, y: real)
    ensures
        (-x) * y == -(x * y),
        y * (-x) == -(x * y),
{
    assert((-x) * y == -(x * y)) by (nonlinear_arith);
    assert(y * (-x) == -(x * y)) by (nonlinear_arith);
}

/// A rotation that is not small leaves its own vector where it is; its antisymmetric part is
/// the cross product with its direction, times the sine of its length, and its trace is one
/// and twice the cosine.
pub proof fn law_rotation_keeps_its_vector<T: Scalar>(
    value: spec_fn(T) -> real,
    r: [[T; 3]; 3],
    w: [T; 3],
    length: real,
    k: Real3,
)
    requires
        exact(value),
        compares_exactly(value),
        reads_ratios(value),
        roots_exactly(value),
        is_rotation_by(r, w),
        length >= billionth(),
        length * length == dot(value3(value, w), value3(value, w)),
        scaled(length, k) == value3(value, w),
    ensures
        turned(value, r, value3(value, w)) == value3(value, w),
        exists|angle: T, s: T, c: T|
            {
                &&& value(angle) == length
                &&& #[trigger] call_ensures(T::sine, (angle,), s)
                &&& #[trigger] call_ensures(T::cosine, (angle,), c)
                &&& value(r[2][1]) - value(r[1][2]) == 2 as real * (value(s) * k.0)
                &&& value(r[0][2]) - value(r[2][0]) == 2 as real * (value(s) * k.1)
                &&& value(r[1][0]) - value(r[0][1]) == 2 as real * (value(s) * k.2)
                &&& value(r[0][0]) + value(r[1][1]) + value(r[2][2]) == 1 as real + 2 as real
                    * value(c)
            },
{
    lemma_billionth_is_positive();
    law_rotation_turns_about_its_vector(value, r, w, length, k);
    let (angle, s, c) = choose|angle: T, s: T, c: T|
        {
            &&& value(angle) == length
            &&& #[trigger] call_ensures(T::sine, (angle,), s)
            &&& #[trigger] call_ensures(T::cosine, (angle,), c)
            &&& turns_about(value, r, k, value(s), value(c))
        };
    let (vs, vc) = (value(s), value(c));
    let v = 1 as real - vc;
    let vw = value3(value, w);
    let (x, y, z) = k;
    lemma_direction_is_unit(vw, length, k);
    // The vector itself.
    lemma_assoc(y, length, z);
    lemma_comm(y, length);
    lemma_cross_with_itself(x, y, length);
    lemma_cross_with_itself(y, z, length);
    lemma_cross_with_itself(z, x, length);
    lemma_units(vs);
    assert(cross(k, vw) == (0 as real, 0 as real, 0 as real));
    lemma_dot_with_itself(k, length);
    assert(dot(k, vw) == length);
    lemma_dist(vc, v, vw.0);
    lemma_dist(vc, v, vw.1);
    lemma_dist(vc, v, vw.2);
    lemma_units(vw.0);
    lemma_units(vw.1);
    lemma_units(vw.2);
    assert(turned(value, r, vw) == vw);
    // The entries, read off the unit vectors.
    let (e0, e1, e2) = (
        (1 as real, 0 as real, 0 as real),
        (0 as real, 1 as real, 0 as real),
        (0 as real, 0 as real, 1 as real),
    );
    lemma_column(value, r, k, vs, vc, e0);
    lemma_column(value, r, k, vs, vc, e1);
    lemma_column(value, r, k, vs, vc, e2);
    lemma_entry_units(value3(value, r[0]));
    lemma_entry_units(value3(value, r[1]));
    lemma_entry_units(value3(value, r[2]));
    lemma_entry_units(k);
    lemma_opposite_factor(x, vs);
    lemma_opposite_factor(y, vs);
    lemma_opposite_factor(z, vs);
    lemma_comm(x, y);
    lemma_comm(y, z);
    lemma_comm(z, x);
    lemma_comm(x, vs);
    lemma_comm(y, vs);
    lemma_comm(z, vs);
    lemma_units(vc);
    lemma_units(v);
    lemma_dist(x * x, y * y, v);
    lemma_dist(x * x + y * y, z * z, v);
}

/// What a turn does to one vector.
proof fn lemma_column<T: Scalar>(
    value: spec_fn(T) -> real,
    r: [[T; 3]; 3],
    k: Real3,
    s: real,
    c: real,
    e: Real3,
)
    requires
        turns_about(value, r, k, s, c),
    ensures
        turned(value, r, e) == turned_about(k, s, c, e),
{
}

/// What zero and one make of a vector's components.
proof fn lemma_entry_units(a: Real3)
    ensures
        dot(a, (1 as real, 0 as real, 0 as real)) == a.0,
        dot(a, (0 as real, 1 as real, 0 as real)) == a.1,
        dot(a, (0 as real, 0 as real, 1 as real)) == a.2,
        cross(a, (1 as real, 0 as real, 0 as real)) == (0 as real, a.2, -a.1),
        cross(a, (0 as real, 1 as real, 0 as real)) == (-a.2, 0 as real, a.0),
        cross(a, (0 as real, 0 as real, 1 as real)) == (a.1, -a.0, 0 as real),
{
    lemma_units(a.0);
    lemma_units(a.1);
    lemma_units(a.2);
}

/// A component of the cross product of a vector with a multiple of itself.
pub(crate) proof fn lemma_cross_with_itself(x: real, y: real, h: real)
    ensures
        x * (h * y) == y * (h * x),
{
    lemma_assoc(x, h, y);
    lemma_assoc(y, h, x);
    lemma_comm(x, h);
    lemma_comm(y, h);
    lemma_assoc(h, x, y);
    lemma_assoc(h, y, x);
    lemma_comm(x, y);
}

/// The inner product of a unit vector with a multiple of itself.
proof fn lemma_dot_with_itself(k: Real3, h: real)
    requires
        dot(k, k) == 1 as real,
    ensures
        dot(k, scaled(h, k)) == h,
{
    lemma_pulled_out(k.0, h);
    lemma_pulled_out(k.1, h);
    lemma_pulled_out(k.2, h);
    lemma_dist(k.0 * k.0, k.1 * k.1, h);
    lemma_dist(k.0 * k.0 + k.1 * k.1, k.2 * k.2, h);
    lemma_units(h);
}

/// A factor pulled out of a square.
proof fn lemma_pulled_out(x: real, h: real)
    ensures
        x * (h * x) == (x * x) * h,
        (h * x) * (h * x) == (h * h) * (x * x),
{
    lemma_comm(h, x);
    lemma_assoc(x, x, h);
    lemma_assoc(h, x, h * x);
    lemma_assoc(x, h, x);
    lemma_assoc(h, x * h, x);
    lemma_assoc(h, h, x);
    lemma_assoc(h, h * x, x);
    lemma_assoc(h * h, x, x);
}

/// The direction of a vector has length one.
pub(crate) proof fn lemma_direction_is_unit(w: Real3, length: real, k: Real3)
    requires
        length > 0 as real,
        length * length == dot(w, w),
        scaled(length, k) == w,
    ensures
        dot(k, k) == 1 as real,
{
    lemma_pulled_out(k.0, length);
    lemma_pulled_out(k.1, length);
    lemma_pulled_out(k.2, length);
    let q = length * length;
    lemma_dist(k.0 * k.0, k.1 * k.1, q);
    lemma_dist(k.0 * k.0 + k.1 * k.1, k.2 * k.2, q);
    lemma_positive_product(length, length);
    let n = dot(k, k);
    assert(q * n == q);
    lemma_comm(q, n);
    lemma_only_one(n, q);
}

/// Only one leaves a positive number as it is.
pub(crate) proof fn lemma_only_one(n: real, t: real)
    requires
        t > 0 as real,
        n * t == t,
    ensures
        n == 1 as real,
{
    lemma_dist(n, 1 as real, t);
    lemma_units(t);
    assert(n - 1 as real == 0 as real) by (nonlinear_arith)
        requires
            (n - 1 as real) * t == 0 as real,
            t > 0 as real,
    ;
}

/// Where a transform takes a point: its first three columns are multiplied with the point,
/// and its last is added.
pub open spec fn placed<T: Scalar>(
    value: spec_fn(T) -> real,
    m: Transform<T>,
    p: Real3,
) -> Real3 {
    (
        dot((value(m[0][0]), value(m[0][1]), value(m[0][2])), p) + value(m[0][3]),
        dot((value(m[1][0]), value(m[1][1]), value(m[1][2])), p) + value(m[1][3]),
        dot((value(m[2][0]), value(m[2][1]), value(m[2][2])), p) + value(m[2][3]),
    )
}

/// The transform of a solution turns a point by the rotation vector of its first three
/// numbers, with the right hand, and then moves it by its last three. Where the vector is
/// shorter than a billionth, its cross product with the point is added in place of the turn.
pub proof fn law_solution_turns_then_moves<T: Scalar>(
    value: spec_fn(T) -> real,
    m: Transform<T>,
    x: [T; 6],
    length: real,
    k: Real3,
)
    requires
        exact(value),
        compares_exactly(value),
        reads_ratios(value),
        roots_exactly(value),
        is_solved(m, x),
        length >= 0 as real,
        ({
            let w = (value(x[0]), value(x[1]), value(x[2]));
            length * length == dot(w, w) && scaled(length, k) == w
        }),
    ensures
        ({
            let w = (value(x[0]), value(x[1]), value(x[2]));
            let t = (value(x[3]), value(x[4]), value(x[5]));
            if length >= billionth() {
                exists|angle: T, s: T, c: T|
                    {
                        &&& value(angle) == length
                        &&& #[trigger] call_ensures(T::sine, (angle,), s)
                        &&& #[trigger] call_ensures(T::cosine, (angle,), c)
                        &&& forall|p: Real3| #[trigger]
                            placed(value, m, p) == sum(turned_about(k, value(s), value(c), p), t)
                    }
            } else {
                forall|p: Real3| #[trigger] placed(value, m, p) == sum(sum(p, cross(w, p)), t)
            }
        }),
{
    let w = turn_of(x);
    let t = (value(x[3]), value(x[4]), value(x[5]));
    let r = choose|r: [[T; 3]; 3]| #[trigger]
        is_rotation_by(r, w) && m == rigid_of(r, move_of(x));
    assert(value3(value, w) == (value(x[0]), value(x[1]), value(x[2])));
    law_rotation_turns_about_its_vector(value, r, w, length, k);
    assert forall|p: Real3| #[trigger] placed(value, m, p) == sum(turned(value, r, p), t) by {}
    if length >= billionth() {
        let (angle, s, c) = choose|angle: T, s: T, c: T|
            {
                &&& value(angle) == length
                &&& #[trigger] call_ensures(T::sine, (angle,), s)
                &&& #[trigger] call_ensures(T::cosine, (angle,), c)
                &&& turns_about(value, r, k, value(s), value(c))
            };
        assert forall|p: Real3| #[trigger] placed(value, m, p) == sum(
            turned_about(k, value(s), value(c), p),
            t,
        ) by {
            assert(placed(value, m, p) == sum(turned(value, r, p), t));
        }
    } else {
        assert forall|p: Real3| #[trigger] placed(value, m, p) == sum(
            sum(p, cross(value3(value, w), p)),
            t,
        ) by {
            assert(placed(value, m, p) == sum(turned(value, r, p), t));
        }
    }
}

} // verus!

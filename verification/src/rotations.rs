//! Rotations of space by real numbers: their rows have length one, are at right angles and
//! follow each other in a right-handed way.
use vstd::prelude::*;

verus! {

/// Three real numbers.
pub type Real3 = (real, real, real);

/// The inner product.
pub open spec fn dot(a: Real3, b: Real3) -> real {
    a.0 * b.0 + a.1 * b.1 + a.2 * b.2
}

/// The cross product.
pub open spec fn cross(a: Real3, b: Real3) -> Real3 {
    (a.1 * b.2 - a.2 * b.1, a.2 * b.0 - a.0 * b.2, a.0 * b.1 - a.1 * b.0)
}

/// The three vectors are the rows of a rotation: each has length one, any two are at right
/// angles, and each is the cross product of the two that follow it in the cycle.
pub open spec fn are_rotation_rows(a: Real3, b: Real3, c: Real3) -> bool {
    &&& dot(a, a) == 1 as real
    &&& dot(b, b) == 1 as real
    &&& dot(c, c) == 1 as real
    &&& dot(a, b) == 0 as real
    &&& dot(b, c) == 0 as real
    &&& dot(c, a) == 0 as real
    &&& cross(a, b) == c
    &&& cross(b, c) == a
    &&& cross(c, a) == b
}

/// The determinant of a rotation is one.
pub proof fn law_rotations_have_determinant_one(a: Real3, b: Real3, c: Real3)
    requires
        are_rotation_rows(a, b, c),
    ensures
        dot(a, cross(b, c)) == 1 as real,
{
}

/// The order of two factors does not matter.
pub(crate) proof fn lemma_comm(x: real, y: real)
    ensures
        x * y == y * x,
{
    assert(x * y == y * x) by (nonlinear_arith);
}

/// Nor does the grouping of three.
pub(crate) proof fn lemma_assoc(x: real, y: real, z: real)
    ensures
        x * (y * z) == (x * y) * z,
{
    assert(x * (y * z) == (x * y) * z) by (nonlinear_arith);
}

/// A factor can be drawn into a sum or a difference.
pub(crate) proof fn lemma_dist(x: real, y: real, n: real)
    ensures
        (x + y) * n == x * n + y * n,
        (x - y) * n == x * n - y * n,
        n * (x + y) == n * x + n * y,
        n * (x - y) == n * x - n * y,
{
    assert((x + y) * n == x * n + y * n) by (nonlinear_arith);
    assert((x - y) * n == x * n - y * n) by (nonlinear_arith);
    assert(n * (x + y) == n * x + n * y) by (nonlinear_arith);
    assert(n * (x - y) == n * x - n * y) by (nonlinear_arith);
}

/// What zero and one make of a product.
pub(crate) proof fn lemma_units(x: real)
    ensures
        x * (0 as real) == 0 as real,
        (0 as real) * x == 0 as real,
        x * (1 as real) == x,
        (1 as real) * x == x,
{
    assert(x * (0 as real) == 0 as real) by (nonlinear_arith);
    assert((0 as real) * x == 0 as real) by (nonlinear_arith);
    assert(x * (1 as real) == x) by (nonlinear_arith);
    assert((1 as real) * x == x) by (nonlinear_arith);
}

/// Two products of two, regrouped.
proof fn lemma_mono(x: real, p: real, y: real, q: real)
    ensures
        (x * p) * (y * q) == (x * y) * (p * q),
{
    lemma_assoc(x, p, y * q);
    lemma_assoc(p, y, q);
    lemma_comm(p, y);
    lemma_assoc(y, p, q);
    lemma_assoc(x, y, p * q);
}

/// A factor moved to the front.
proof fn lemma_swap(y: real, x: real, v: real)
    ensures
        y * (x * v) == x * (y * v),
        y * (x * v) == (x * y) * v,
        y * (x * v) == (y * x) * v,
{
    lemma_assoc(y, x, v);
    lemma_comm(y, x);
    lemma_assoc(x, y, v);
}

/// A factor moved to the end.
proof fn lemma_tail(y: real, v: real, s: real)
    ensures
        (y * v) * s == (y * s) * v,
        (y * v) * s == y * (v * s),
{
    lemma_assoc(y, v, s);
    lemma_comm(v, s);
    lemma_assoc(y, s, v);
}

/// A factor drawn into a sum of three.
proof fn lemma_dist3(a: real, b: real, c: real, n: real)
    ensures
        (a + b + c) * n == a * n + b * n + c * n,
        n * (a + b + c) == n * a + n * b + n * c,
{
    lemma_dist(a + b, c, n);
    lemma_dist(a, b, n);
}

/// A sum of two times a sum of two.
proof fn lemma_foil(a: real, b: real, c: real, d: real)
    ensures
        (a + b) * (c + d) == a * c + a * d + b * c + b * d,
        (a - b) * (c + d) == a * c + a * d - b * c - b * d,
        (a + b) * (c - d) == a * c - a * d + b * c - b * d,
        (a - b) * (c - d) == a * c - a * d - b * c + b * d,
{
    lemma_dist(a, b, c + d);
    lemma_dist(a, b, c - d);
    lemma_dist(c, d, a);
    lemma_dist(c, d, b);
}

/// Row of the axis with component `x` in the rotation about the unit vector with components
/// `x`, `y` and `z` in the cycle, by an angle of sine `s` and cosine `c`, where `v` is one
/// minus the cosine. Its entries are listed from that axis on.
pub open spec fn turn_row(x: real, y: real, z: real, s: real, c: real, v: real) -> Real3 {
    (x * (x * v) + c, y * (x * v) - z * s, z * (x * v) + y * s)
}

/// `x`, `y` and `z` are the components of a unit vector, and `s` and `c` sine and cosine of
/// an angle.
pub open spec fn turns(x: real, y: real, z: real, s: real, c: real, v: real) -> bool {
    &&& x * x + y * y + z * z == 1 as real
    &&& s * s + c * c == 1 as real
    &&& v == 1 as real - c
}

/// What one minus the cosine makes of sine and cosine.
proof fn lemma_versine(s: real, c: real, v: real)
    requires
        s * s + c * c == 1 as real,
        v == 1 as real - c,
    ensures
        v * v + v * c + v * c == s * s,
        s * s - v * c == v,
        v + c == 1 as real,
{
    lemma_dist(1 as real, c, c);
    lemma_dist(1 as real, c, v);
    lemma_units(c);
    lemma_units(v);
    lemma_comm(c, v);
}

/// A row has length one.
proof fn lemma_row_length(x: real, y: real, z: real, s: real, c: real, v: real)
    requires
        turns(x, y, z, s, c, v),
    ensures
        dot(turn_row(x, y, z, s, c, v), turn_row(x, y, z, s, c, v)) == 1 as real,
{
    let p = x * v;
    let (xp, yp, zp, ys, zs) = (x * p, y * p, z * p, y * s, z * s);
    lemma_foil(xp, c, xp, c);
    lemma_foil(yp, zs, yp, zs);
    lemma_foil(zp, ys, zp, ys);
    lemma_comm(xp, c);
    lemma_comm(yp, zs);
    lemma_comm(zp, ys);
    lemma_mono(x, p, x, p);
    lemma_mono(y, p, y, p);
    lemma_mono(z, p, z, p);
    lemma_mono(y, p, z, s);
    lemma_mono(z, p, y, s);
    lemma_comm(y, z);
    lemma_mono(z, s, z, s);
    lemma_mono(y, s, y, s);
    lemma_dist3(x * x, y * y, z * z, p * p);
    lemma_units(p * p);
    lemma_mono(x, v, x, v);
    lemma_swap(x, x, v);
    lemma_tail(x * x, v, c);
    lemma_versine(s, c, v);
    let e = s * s;
    lemma_dist3(v * v, v * c, v * c, x * x);
    lemma_dist3(x * x, y * y, z * z, e);
    lemma_units(e);
    assert(xp * c == (x * x) * (v * c));
    assert((x * x) * (v * v) + (x * x) * (v * c) + (x * x) * (v * c) == (x * x) * e);
}

/// A row is at right angles to the next.
proof fn lemma_rows_at_right_angles(x: real, y: real, z: real, s: real, c: real, v: real)
    requires
        turns(x, y, z, s, c, v),
    ensures
        ({
            let next = turn_row(y, z, x, s, c, v);
            dot(turn_row(x, y, z, s, c, v), (next.2, next.0, next.1)) == 0 as real
        }),
{
    let (p, q) = (x * v, y * v);
    let (xp, yp, zp, xs, ys, zs) = (x * p, y * p, z * p, x * s, y * s, z * s);
    let (xq, yq, zq) = (x * q, y * q, z * q);
    lemma_foil(xp, c, xq, zs);
    lemma_foil(yp, zs, yq, c);
    lemma_foil(zp, ys, zq, xs);
    lemma_mono(x, p, x, q);
    lemma_mono(y, p, y, q);
    lemma_mono(z, p, z, q);
    lemma_dist3(x * x, y * y, z * z, p * q);
    lemma_units(p * q);
    lemma_mono(x, v, y, v);
    lemma_mono(x, p, z, s);
    lemma_mono(z, p, x, s);
    lemma_comm(x, z);
    lemma_mono(z, s, y, q);
    lemma_mono(y, s, z, q);
    lemma_comm(z, y);
    lemma_comm(c, zs);
    lemma_comm(c, xq);
    lemma_swap(x, y, v);
    lemma_swap(y, x, v);
    lemma_comm(x, y);
    lemma_tail(x * y, v, c);
    lemma_mono(y, s, x, s);
    lemma_versine(s, c, v);
    let n = x * y;
    lemma_dist3(v * v, v * c, v * c, n);
    assert(xq * c == n * (v * c));
    assert(yp * c == n * (v * c));
    assert(ys * xs == n * (s * s));
    assert(n * (v * v) + n * (v * c) + n * (v * c) == n * (s * s));
}

/// A row and the next have the third as their cross product.
proof fn lemma_rows_are_right_handed(x: real, y: real, z: real, s: real, c: real, v: real)
    requires
        turns(x, y, z, s, c, v),
    ensures
        ({
            let next = turn_row(y, z, x, s, c, v);
            let third = turn_row(z, x, y, s, c, v);
            cross(turn_row(x, y, z, s, c, v), (next.2, next.0, next.1)) == (
                third.1,
                third.2,
                third.0,
            )
        }),
{
    let (p, q, r) = (x * v, y * v, z * v);
    let (xp, yp, zp, xs, ys, zs) = (x * p, y * p, z * p, x * s, y * s, z * s);
    let (xq, yq, zq) = (x * q, y * q, z * q);
    lemma_versine(s, c, v);
    lemma_mono(y, p, z, q);
    lemma_mono(z, p, y, q);
    lemma_comm(y, z);
    lemma_mono(z, p, x, q);
    lemma_mono(x, p, z, q);
    lemma_comm(z, x);
    lemma_mono(x, p, y, q);
    lemma_mono(y, p, x, q);
    lemma_comm(x, y);
    // The first component.
    lemma_foil(yp, zs, zq, xs);
    lemma_foil(zp, ys, yq, c);
    let m = ys * v;
    lemma_swap(y, x, v);
    lemma_mono(x, y * v, x, s);
    lemma_tail(y, v, s);
    assert(yp * xs == (x * x) * m);
    lemma_mono(z, s, z, q);
    lemma_comm(s, q);
    assert(zs * zq == (z * z) * m);
    lemma_mono(y, s, y, q);
    assert(ys * yq == (y * y) * m);
    lemma_dist3(x * x, y * y, z * z, m);
    lemma_units(m);
    lemma_mono(z, s, x, s);
    lemma_swap(z, x, v);
    lemma_tail(z * x, v, c);
    assert(zp * c == (z * x) * (v * c));
    lemma_dist(s * s, v * c, z * x);
    lemma_dist(v, c, ys);
    lemma_units(ys);
    lemma_swap(x, z, v);
    // The second component.
    lemma_foil(zp, ys, xq, zs);
    lemma_foil(xp, c, zq, xs);
    let k = xs * v;
    lemma_mono(z, p, z, s);
    lemma_tail(x, v, s);
    assert(zp * zs == (z * z) * k);
    lemma_swap(x, y, v);
    lemma_mono(y, s, y, x * v);
    lemma_comm(s, x * v);
    assert(ys * xq == (y * y) * k);
    lemma_mono(x, p, x, s);
    assert(xp * xs == (x * x) * k);
    lemma_dist3(x * x, y * y, z * z, k);
    lemma_units(k);
    lemma_mono(y, s, z, s);
    lemma_comm(c, zq);
    lemma_swap(z, y, v);
    lemma_tail(y * z, v, c);
    assert(zq * c == (y * z) * (v * c));
    lemma_comm(c, xs);
    lemma_dist(s * s, v * c, y * z);
    lemma_dist(v, c, xs);
    lemma_units(xs);
    lemma_swap(y, z, v);
    // The third component.
    lemma_foil(xp, c, yq, c);
    lemma_foil(yp, zs, xq, zs);
    lemma_swap(x, x, v);
    lemma_tail(x * x, v, c);
    assert(xp * c == (x * x) * (v * c));
    lemma_comm(c, yq);
    lemma_swap(y, y, v);
    lemma_tail(y * y, v, c);
    assert(yq * c == (y * y) * (v * c));
    assert(yp == xq);
    lemma_comm(yp, zs);
    lemma_mono(z, s, z, s);
    lemma_dist3(x * x, y * y, z * z, v * c);
    lemma_units(v * c);
    lemma_dist(s * s, v * c, z * z);
    lemma_dist(v, c, c);
    lemma_units(c);
    lemma_swap(z, z, v);
}

/// The rotation about a unit vector has the rows of a rotation.
pub proof fn law_turns_are_rotations(x: real, y: real, z: real, s: real, c: real, v: real)
    requires
        turns(x, y, z, s, c, v),
    ensures
        ({
            let (a, b, d) = (
                turn_row(x, y, z, s, c, v),
                turn_row(y, z, x, s, c, v),
                turn_row(z, x, y, s, c, v),
            );
            are_rotation_rows(a, (b.2, b.0, b.1), (d.1, d.2, d.0))
        }),
{
    lemma_row_length(x, y, z, s, c, v);
    lemma_row_length(y, z, x, s, c, v);
    lemma_row_length(z, x, y, s, c, v);
    lemma_rows_at_right_angles(x, y, z, s, c, v);
    lemma_rows_at_right_angles(y, z, x, s, c, v);
    lemma_rows_at_right_angles(z, x, y, s, c, v);
    lemma_rows_are_right_handed(x, y, z, s, c, v);
    lemma_rows_are_right_handed(y, z, x, s, c, v);
    lemma_rows_are_right_handed(z, x, y, s, c, v);
}

/// The product of two inner products, multiplied out.
proof fn lemma_expand(x: Real3, u: Real3, y: Real3, w: Real3)
    ensures
        dot(x, u) * dot(y, w) == (x.0 * y.0) * (u.0 * w.0)
            + (x.0 * y.1) * (u.0 * w.1)
            + (x.0 * y.2) * (u.0 * w.2)
            + (x.1 * y.0) * (u.1 * w.0)
            + (x.1 * y.1) * (u.1 * w.1)
            + (x.1 * y.2) * (u.1 * w.2)
            + (x.2 * y.0) * (u.2 * w.0)
            + (x.2 * y.1) * (u.2 * w.1)
            + (x.2 * y.2) * (u.2 * w.2),
{
    let (a, b, c) = (x.0 * u.0, x.1 * u.1, x.2 * u.2);
    let (d, e, f) = (y.0 * w.0, y.1 * w.1, y.2 * w.2);
    lemma_dist3(a, b, c, dot(y, w));
    lemma_dist3(d, e, f, a);
    lemma_dist3(d, e, f, b);
    lemma_dist3(d, e, f, c);
    lemma_mono(x.0, u.0, y.0, w.0);
    lemma_mono(x.0, u.0, y.1, w.1);
    lemma_mono(x.0, u.0, y.2, w.2);
    lemma_mono(x.1, u.1, y.0, w.0);
    lemma_mono(x.1, u.1, y.1, w.1);
    lemma_mono(x.1, u.1, y.2, w.2);
    lemma_mono(x.2, u.2, y.0, w.0);
    lemma_mono(x.2, u.2, y.1, w.1);
    lemma_mono(x.2, u.2, y.2, w.2);
}

/// The row `x` times the matrix with rows `a`, `b` and `c`.
pub open spec fn row_times(x: Real3, a: Real3, b: Real3, c: Real3) -> Real3 {
    (dot(x, (a.0, b.0, c.0)), dot(x, (a.1, b.1, c.1)), dot(x, (a.2, b.2, c.2)))
}

/// A rotation keeps inner products.
proof fn lemma_keeps_dot(x: Real3, y: Real3, a: Real3, b: Real3, c: Real3)
    requires
        are_rotation_rows(a, b, c),
    ensures
        dot(row_times(x, a, b, c), row_times(y, a, b, c)) == dot(x, y),
{
    let (u, v, w) = ((a.0, b.0, c.0), (a.1, b.1, c.1), (a.2, b.2, c.2));
    lemma_expand(x, u, y, u);
    lemma_expand(x, v, y, v);
    lemma_expand(x, w, y, w);
    lemma_dist3(a.0 * a.0, a.1 * a.1, a.2 * a.2, x.0 * y.0);
    lemma_dist3(a.0 * b.0, a.1 * b.1, a.2 * b.2, x.0 * y.1);
    lemma_dist3(a.0 * c.0, a.1 * c.1, a.2 * c.2, x.0 * y.2);
    lemma_dist3(b.0 * a.0, b.1 * a.1, b.2 * a.2, x.1 * y.0);
    lemma_dist3(b.0 * b.0, b.1 * b.1, b.2 * b.2, x.1 * y.1);
    lemma_dist3(b.0 * c.0, b.1 * c.1, b.2 * c.2, x.1 * y.2);
    lemma_dist3(c.0 * a.0, c.1 * a.1, c.2 * a.2, x.2 * y.0);
    lemma_dist3(c.0 * b.0, c.1 * b.1, c.2 * b.2, x.2 * y.1);
    lemma_dist3(c.0 * c.0, c.1 * c.1, c.2 * c.2, x.2 * y.2);
    lemma_swapped_dot(a, b);
    lemma_swapped_dot(b, c);
    lemma_swapped_dot(c, a);
    lemma_units(x.0 * y.0);
    lemma_units(x.0 * y.1);
    lemma_units(x.0 * y.2);
    lemma_units(x.1 * y.0);
    lemma_units(x.1 * y.1);
    lemma_units(x.1 * y.2);
    lemma_units(x.2 * y.0);
    lemma_units(x.2 * y.1);
    lemma_units(x.2 * y.2);
}

/// The inner product is symmetric.
proof fn lemma_swapped_dot(a: Real3, b: Real3)
    ensures
        dot(a, b) == dot(b, a),
{
    lemma_comm(a.0, b.0);
    lemma_comm(a.1, b.1);
    lemma_comm(a.2, b.2);
}

/// A difference of products multiplied out: one component of a cross product.
proof fn lemma_cross_component(x: Real3, y: Real3, v: Real3, w: Real3, r: Real3)
    requires
        v.0 * w.1 - w.0 * v.1 == r.2,
        v.1 * w.2 - w.1 * v.2 == r.0,
        v.2 * w.0 - w.2 * v.0 == r.1,
    ensures
        dot(x, v) * dot(y, w) - dot(x, w) * dot(y, v) == dot(cross(x, y), r),
{
    lemma_expand(x, v, y, w);
    lemma_expand(x, w, y, v);
    lemma_comm(v.0, w.0);
    lemma_comm(v.1, w.1);
    lemma_comm(v.2, w.2);
    lemma_comm(v.0, w.1);
    lemma_comm(v.0, w.2);
    lemma_comm(v.1, w.0);
    lemma_comm(v.1, w.2);
    lemma_comm(v.2, w.0);
    lemma_comm(v.2, w.1);
    lemma_dist(v.0 * w.0, w.0 * v.0, x.0 * y.0);
    lemma_dist(v.0 * w.1, w.0 * v.1, x.0 * y.1);
    lemma_dist(v.0 * w.2, w.0 * v.2, x.0 * y.2);
    lemma_dist(v.1 * w.0, w.1 * v.0, x.1 * y.0);
    lemma_dist(v.1 * w.1, w.1 * v.1, x.1 * y.1);
    lemma_dist(v.1 * w.2, w.1 * v.2, x.1 * y.2);
    lemma_dist(v.2 * w.0, w.2 * v.0, x.2 * y.0);
    lemma_dist(v.2 * w.1, w.2 * v.1, x.2 * y.1);
    lemma_dist(v.2 * w.2, w.2 * v.2, x.2 * y.2);
    lemma_opposite(x.1 * y.0, r.2);
    lemma_dist(x.0 * y.1, x.1 * y.0, r.2);
    lemma_opposite(x.2 * y.1, r.0);
    lemma_dist(x.1 * y.2, x.2 * y.1, r.0);
    lemma_opposite(x.0 * y.2, r.1);
    lemma_dist(x.2 * y.0, x.0 * y.2, r.1);
}

/// A factor with the opposite sign.
proof fn lemma_opposite(x: real, y: real)
    ensures
        x * (-y) == -(x * y),
{
    assert(x * (-y) == -(x * y)) by (nonlinear_arith);
}

/// A rotation keeps cross products.
proof fn lemma_keeps_cross(x: Real3, y: Real3, a: Real3, b: Real3, c: Real3)
    requires
        are_rotation_rows(a, b, c),
    ensures
        cross(row_times(x, a, b, c), row_times(y, a, b, c)) == row_times(cross(x, y), a, b, c),
{
    let (u, v, w) = ((a.0, b.0, c.0), (a.1, b.1, c.1), (a.2, b.2, c.2));
    lemma_comms(a, b);
    lemma_comms(b, c);
    lemma_comms(c, a);
    lemma_cross_component(x, y, v, w, u);
    lemma_cross_component(x, y, w, u, v);
    lemma_cross_component(x, y, u, v, w);
}

/// Products of components in either order.
proof fn lemma_comms(a: Real3, b: Real3)
    ensures
        a.0 * b.0 == b.0 * a.0,
        a.0 * b.1 == b.1 * a.0,
        a.0 * b.2 == b.2 * a.0,
        a.1 * b.0 == b.0 * a.1,
        a.1 * b.1 == b.1 * a.1,
        a.1 * b.2 == b.2 * a.1,
        a.2 * b.0 == b.0 * a.2,
        a.2 * b.1 == b.1 * a.2,
        a.2 * b.2 == b.2 * a.2,
{
    lemma_comm(a.0, b.0);
    lemma_comm(a.0, b.1);
    lemma_comm(a.0, b.2);
    lemma_comm(a.1, b.0);
    lemma_comm(a.1, b.1);
    lemma_comm(a.1, b.2);
    lemma_comm(a.2, b.0);
    lemma_comm(a.2, b.1);
    lemma_comm(a.2, b.2);
}

/// The product of two rotations is a rotation.
pub proof fn law_rotations_multiply(
    x: Real3,
    y: Real3,
    z: Real3,
    a: Real3,
    b: Real3,
    c: Real3,
)
    requires
        are_rotation_rows(x, y, z),
        are_rotation_rows(a, b, c),
    ensures
        are_rotation_rows(
            row_times(x, a, b, c),
            row_times(y, a, b, c),
            row_times(z, a, b, c),
        ),
{
    lemma_keeps_dot(x, x, a, b, c);
    lemma_keeps_dot(y, y, a, b, c);
    lemma_keeps_dot(z, z, a, b, c);
    lemma_keeps_dot(x, y, a, b, c);
    lemma_keeps_dot(y, z, a, b, c);
    lemma_keeps_dot(z, x, a, b, c);
    lemma_keeps_cross(x, y, a, b, c);
    lemma_keeps_cross(y, z, a, b, c);
    lemma_keeps_cross(z, x, a, b, c);
}

} // verus!

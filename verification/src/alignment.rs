//! The arithmetic of aligning one cloud to another by point-to-plane distances.
//!
//! Sums over whole clouds and the solution of linear systems are left to the caller's
//! linear algebra; what is computed for one point, one row or one solution is here.
use crate::scalar::{
    count_of, dot3, dot3_of, functional, less, less_of, magnitude_of, minus3, minus3_of,
    minus_of, minus_one_of, negated_of, one_of, over_of, plus_of, ratio_of,
    square_root_of, sum3, sum3_of, times_of, zero_of, Scalar,
};
use vstd::prelude::*;

verus! {

/// A homogeneous transform, row by row.
pub type Transform<T> = [[T; 4]; 4];

/// The coordinates along `axis` of the first `n` points, added to zero in their order.
pub open spec fn column_sum<T: Scalar>(points: Seq<[T; 3]>, n: int, axis: int) -> T
    decreases n,
{
    if n <= 0 {
        zero_of()
    } else {
        plus_of(column_sum(points, n - 1, axis), points[n - 1][axis])
    }
}

/// The mean of the points.
pub open spec fn centroid_of<T: Scalar>(points: Seq<[T; 3]>) -> [T; 3] {
    let n = points.len() as int;
    let count = count_of::<T>(n as usize);
    [
        over_of(column_sum(points, n, 0), count),
        over_of(column_sum(points, n, 1), count),
        over_of(column_sum(points, n, 2), count),
    ]
}

/// The mean of the points, or `None` where there are none.
pub fn centroid<T: Scalar>(points: &Vec<[T; 3]>) -> (r: Option<[T; 3]>)
    ensures
        r is None <==> points@.len() == 0,
        functional::<T>() && points@.len() > 0 ==> r == Some(centroid_of(points@)),
{
    if points.len() == 0 {
        return None;
    }
    let mut x: T = T::ratio(0, 1);
    let mut y: T = T::ratio(0, 1);
    let mut z: T = T::ratio(0, 1);
    let mut i: usize = 0;
    while i < points.len()
        invariant
            i <= points@.len(),
            functional::<T>() ==> {
                &&& x == column_sum(points@, i as int, 0)
                &&& y == column_sum(points@, i as int, 1)
                &&& z == column_sum(points@, i as int, 2)
            },
        decreases points@.len() - i,
    {
        let point: [T; 3] = points[i];
        x = x.plus(point[0]);
        y = y.plus(point[1]);
        z = z.plus(point[2]);
        i += 1;
    }
    let count: T = T::from_count(points.len());
    let mean: [T; 3] = [x.over(count), y.over(count), z.over(count)];
    assert(functional::<T>() ==> mean == centroid_of(points@));
    Some(mean)
}

/// The transform that turns by the rotation `r` and then moves by `t`.
pub open spec fn rigid_of<T: Scalar>(r: [[T; 3]; 3], t: [T; 3]) -> Transform<T> {
    [
        [r[0][0], r[0][1], r[0][2], t[0]],
        [r[1][0], r[1][1], r[1][2], t[1]],
        [r[2][0], r[2][1], r[2][2], t[2]],
        [zero_of(), zero_of(), zero_of(), one_of()],
    ]
}

/// The rotation that turns nothing.
pub open spec fn no_rotation_of<T: Scalar>() -> [[T; 3]; 3] {
    [
        [one_of(), zero_of(), zero_of()],
        [zero_of(), one_of(), zero_of()],
        [zero_of(), zero_of(), one_of()],
    ]
}

/// Puts a rotation and a translation together.
pub fn rigid_transform<T: Scalar>(r: [[T; 3]; 3], t: [T; 3]) -> (m: Transform<T>)
    ensures
        functional::<T>() ==> m == rigid_of(r, t),
{
    let zero: T = T::ratio(0, 1);
    let one: T = T::ratio(1, 1);
    [
        [r[0][0], r[0][1], r[0][2], t[0]],
        [r[1][0], r[1][1], r[1][2], t[1]],
        [r[2][0], r[2][1], r[2][2], t[2]],
        [zero, zero, zero, one],
    ]
}

/// The transform that moves the source's centroid onto the target's.
pub fn centering_transform<T: Scalar>(
    source_centroid: [T; 3],
    target_centroid: [T; 3],
) -> (m: Transform<T>)
    ensures
        functional::<T>() ==> m == rigid_of(
            no_rotation_of(),
            minus3_of(target_centroid, source_centroid),
        ),
{
    let zero: T = T::ratio(0, 1);
    let one: T = T::ratio(1, 1);
    let identity: [[T; 3]; 3] = [[one, zero, zero], [zero, one, zero], [zero, zero, one]];
    let translation: [T; 3] = minus3(target_centroid, source_centroid);
    assert(functional::<T>() ==> identity == no_rotation_of::<T>());
    rigid_transform(identity, translation)
}

/// The homogeneous coordinates of the points: a one after the three coordinates.
pub open spec fn homogeneous_of<T: Scalar>(points: Seq<[T; 3]>) -> Seq<[T; 4]> {
    Seq::new(points.len(), |i: int| [points[i][0], points[i][1], points[i][2], one_of()])
}

/// Gives every point its homogeneous coordinates.
pub fn homogeneous<T: Scalar>(points: &Vec<[T; 3]>) -> (rows: Vec<[T; 4]>)
    ensures
        rows@.len() == points@.len(),
        functional::<T>() ==> rows@ == homogeneous_of(points@),
{
    let one: T = T::ratio(1, 1);
    let mut rows: Vec<[T; 4]> = Vec::new();
    let mut i: usize = 0;
    while i < points.len()
        invariant
            i <= points@.len(),
            rows@.len() == i,
            functional::<T>() ==> one == one_of::<T>(),
            forall|j: int|
                0 <= j < i ==> #[trigger] rows@[j] == [
                    points@[j][0],
                    points@[j][1],
                    points@[j][2],
                    one,
                ],
        decreases points@.len() - i,
    {
        let p: [T; 3] = points[i];
        rows.push([p[0], p[1], p[2], one]);
        i += 1;
    }
    rows
}

/// The cross product of two vectors.
pub open spec fn cross_of<T: Scalar>(a: [T; 3], b: [T; 3]) -> [T; 3] {
    [
        minus_of(times_of(a[1], b[2]), times_of(a[2], b[1])),
        minus_of(times_of(a[2], b[0]), times_of(a[0], b[2])),
        minus_of(times_of(a[0], b[1]), times_of(a[1], b[0])),
    ]
}

/// The row of the linear system for one pair: how its distance along the normal
/// changes with a small turn about each axis and a small move along each axis.
pub open spec fn jacobian_row_of<T: Scalar>(source: [T; 3], normal: [T; 3]) -> [T; 6] {
    let cross = cross_of(source, normal);
    [cross[0], cross[1], cross[2], normal[0], normal[1], normal[2]]
}

/// The right-hand side for one pair: its distance along the normal.
pub open spec fn plane_distance_of<T: Scalar>(
    source: [T; 3],
    target: [T; 3],
    normal: [T; 3],
) -> T {
    dot3_of(minus3_of(target, source), normal)
}

/// The equation for one pair of points.
pub fn pair_equation<T: Scalar>(source: [T; 3], target: [T; 3], normal: [T; 3]) -> (r: (
    [T; 6],
    T,
))
    ensures
        functional::<T>() ==> r.0 == jacobian_row_of(source, normal),
        functional::<T>() ==> r.1 == plane_distance_of(source, target, normal),
{
    let cross_x: T = source[1].times(normal[2]).minus(source[2].times(normal[1]));
    let cross_y: T = source[2].times(normal[0]).minus(source[0].times(normal[2]));
    let cross_z: T = source[0].times(normal[1]).minus(source[1].times(normal[0]));
    let difference: [T; 3] = minus3(target, source);
    let distance: T = dot3(difference, normal);
    ([cross_x, cross_y, cross_z, normal[0], normal[1], normal[2]], distance)
}

/// The equations for all pairs, in their order: the matrix of the linear system, row
/// by row, and its right-hand side.
pub fn build_system<T: Scalar>(
    sources: &Vec<[T; 3]>,
    targets: &Vec<[T; 3]>,
    normals: &Vec<[T; 3]>,
) -> (r: (Vec<[T; 6]>, Vec<T>))
    requires
        sources@.len() == targets@.len() == normals@.len(),
    ensures
        r.0@.len() == sources@.len(),
        r.1@.len() == sources@.len(),
        functional::<T>() ==> forall|i: int|
            0 <= i < sources@.len() ==> {
                &&& #[trigger] r.0@[i] == jacobian_row_of(sources@[i], normals@[i])
                &&& r.1@[i] == plane_distance_of(sources@[i], targets@[i], normals@[i])
            },
{
    let mut rows: Vec<[T; 6]> = Vec::new();
    let mut rhs: Vec<T> = Vec::new();
    let mut i: usize = 0;
    while i < sources.len()
        invariant
            i <= sources@.len(),
            sources@.len() == targets@.len() == normals@.len(),
            rows@.len() == i,
            rhs@.len() == i,
            functional::<T>() ==> forall|j: int|
                0 <= j < i ==> {
                    &&& #[trigger] rows@[j] == jacobian_row_of(sources@[j], normals@[j])
                    &&& rhs@[j] == plane_distance_of(sources@[j], targets@[j], normals@[j])
                },
        decreases sources@.len() - i,
    {
        let (row, distance): ([T; 6], T) = pair_equation(sources[i], targets[i], normals[i]);
        rows.push(row);
        rhs.push(distance);
        i += 1;
    }
    (rows, rhs)
}

/// The length of a rotation vector: the angle that it turns by.
pub open spec fn angle_of<T: Scalar>(w: [T; 3]) -> T {
    square_root_of(
        plus_of(plus_of(times_of(w[0], w[0]), times_of(w[1], w[1])), times_of(w[2], w[2])),
    )
}

/// Of three axes, the one that is neither `i` nor `j`.
pub open spec fn third_axis(i: int, j: int) -> int {
    3 - i - j
}

/// Whether axis `j` follows axis `i` in the cycle of x, y and z.
pub open spec fn follows(i: int, j: int) -> bool {
    (j - i) % 3 == 1
}

/// Entry `(i, j)` of the rotation by a small vector `w`: the identity plus the
/// cross-product matrix of `w`.
pub open spec fn small_rotation_entry<T: Scalar>(w: [T; 3], i: int, j: int) -> T {
    if i == j {
        one_of()
    } else if follows(i, j) {
        negated_of(w[third_axis(i, j)])
    } else {
        w[third_axis(i, j)]
    }
}

/// Entry `(i, j)` of the rotation about the unit vector `k` by an angle of sine `s`
/// and cosine `c`, where `v` is one minus the cosine: the product of `k` with itself
/// weighted by `v`, plus the identity weighted by `c`, plus the cross-product matrix of
/// `k` weighted by `s`.
pub open spec fn rotation_entry<T: Scalar>(
    k: [T; 3],
    s: T,
    c: T,
    v: T,
    i: int,
    j: int,
) -> T {
    if i == j {
        plus_of(times_of(times_of(k[i], k[i]), v), c)
    } else {
        let both = if i < j {
            times_of(times_of(k[i], k[j]), v)
        } else {
            times_of(times_of(k[j], k[i]), v)
        };
        if follows(i, j) {
            minus_of(both, times_of(k[third_axis(i, j)], s))
        } else {
            plus_of(both, times_of(k[third_axis(i, j)], s))
        }
    }
}

/// Whether the rotation by `w` is small: its angle is below a billionth.
pub open spec fn is_small<T: Scalar>(w: [T; 3]) -> bool {
    less_of(angle_of(w), ratio_of(1, 1_000_000_000))
}

/// The rotation by a small vector `w`.
pub open spec fn small_rotation_of<T: Scalar>(w: [T; 3]) -> [[T; 3]; 3] {
    [
        [
            small_rotation_entry(w, 0, 0),
            small_rotation_entry(w, 0, 1),
            small_rotation_entry(w, 0, 2),
        ],
        [
            small_rotation_entry(w, 1, 0),
            small_rotation_entry(w, 1, 1),
            small_rotation_entry(w, 1, 2),
        ],
        [
            small_rotation_entry(w, 2, 0),
            small_rotation_entry(w, 2, 1),
            small_rotation_entry(w, 2, 2),
        ],
    ]
}

/// The rotation about the direction of `w`, by an angle of sine `s` and cosine `c`.
pub open spec fn rotation_of<T: Scalar>(w: [T; 3], s: T, c: T) -> [[T; 3]; 3] {
    let theta = angle_of(w);
    let k = [over_of(w[0], theta), over_of(w[1], theta), over_of(w[2], theta)];
    let v = minus_of(one_of(), c);
    [
        [
            rotation_entry(k, s, c, v, 0, 0),
            rotation_entry(k, s, c, v, 0, 1),
            rotation_entry(k, s, c, v, 0, 2),
        ],
        [
            rotation_entry(k, s, c, v, 1, 0),
            rotation_entry(k, s, c, v, 1, 1),
            rotation_entry(k, s, c, v, 1, 2),
        ],
        [
            rotation_entry(k, s, c, v, 2, 0),
            rotation_entry(k, s, c, v, 2, 1),
            rotation_entry(k, s, c, v, 2, 2),
        ],
    ]
}

/// `r` is the rotation by the vector `w`: about its direction, by an angle of its length,
/// with the sine and the cosine that were found for it.
pub open spec fn is_rotation_by<T: Scalar>(r: [[T; 3]; 3], w: [T; 3]) -> bool {
    if is_small(w) {
        r == small_rotation_of(w)
    } else {
        exists|s: T, c: T|
            {
                &&& #[trigger] call_ensures(T::sine, (angle_of(w),), s)
                &&& #[trigger] call_ensures(T::cosine, (angle_of(w),), c)
                &&& r == rotation_of(w, s, c)
            }
    }
}

/// The rotation matrix of a rotation vector: Rodrigues' formula, or its linear part
/// where the angle is below a billionth.
pub fn rotation_matrix<T: Scalar>(w: [T; 3]) -> (r: [[T; 3]; 3])
    ensures
        functional::<T>() ==> is_rotation_by(r, w),
{
    let (alpha, beta, gamma): (T, T, T) = (w[0], w[1], w[2]);
    let one: T = T::ratio(1, 1);
    let theta: T = alpha.times(alpha).plus(beta.times(beta)).plus(
        gamma.times(gamma),
    ).square_root();
    let small: T = T::ratio(1, 1_000_000_000);
    if less(theta, small) {
        [
            [one, gamma.negated(), beta],
            [gamma, one, alpha.negated()],
            [beta.negated(), alpha, one],
        ]
    } else {
        let k_x: T = alpha.over(theta);
        let k_y: T = beta.over(theta);
        let k_z: T = gamma.over(theta);
        let c_th: T = theta.cosine();
        let s_th: T = theta.sine();
        let v_th: T = one.minus(c_th);
        [
            [
                k_x.times(k_x).times(v_th).plus(c_th),
                k_x.times(k_y).times(v_th).minus(k_z.times(s_th)),
                k_x.times(k_z).times(v_th).plus(k_y.times(s_th)),
            ],
            [
                k_x.times(k_y).times(v_th).plus(k_z.times(s_th)),
                k_y.times(k_y).times(v_th).plus(c_th),
                k_y.times(k_z).times(v_th).minus(k_x.times(s_th)),
            ],
            [
                k_x.times(k_z).times(v_th).minus(k_y.times(s_th)),
                k_y.times(k_z).times(v_th).plus(k_x.times(s_th)),
                k_z.times(k_z).times(v_th).plus(c_th),
            ],
        ]
    }
}

/// The rotation vector of a solution.
pub open spec fn turn_of<T>(x: [T; 6]) -> [T; 3] {
    [x[0], x[1], x[2]]
}

/// The translation of a solution.
pub open spec fn move_of<T>(x: [T; 6]) -> [T; 3] {
    [x[3], x[4], x[5]]
}

/// `m` is the transform of a solution: its first three numbers are a rotation vector,
/// its last three a translation.
pub open spec fn is_solved<T: Scalar>(m: Transform<T>, x: [T; 6]) -> bool {
    exists|r: [[T; 3]; 3]| #[trigger]
        is_rotation_by(r, turn_of(x)) && m == rigid_of(r, move_of(x))
}

/// The transform that a solution of the linear system stands for: a rotation vector
/// and a translation.
pub fn transform_from_solution<T: Scalar>(x: [T; 6]) -> (m: Transform<T>)
    ensures
        functional::<T>() ==> is_solved(m, x),
{
    let turn: [T; 3] = [x[0], x[1], x[2]];
    let translation: [T; 3] = [x[3], x[4], x[5]];
    assert(turn == turn_of(x) && translation == move_of(x));
    let rotation: [[T; 3]; 3] = rotation_matrix(turn);
    rigid_transform(rotation, translation)
}

/// Why the linear system could not be solved by its singular values.
#[derive(PartialEq, Eq, Debug)]
pub enum SolveError {
    /// The decomposition itself failed, for the reason given.
    Decomposition { detail: String },
    /// It came without the left factor.
    MissingLeft,
    /// It came without the right factor.
    MissingRight,
}

impl SolveError {
    /// What to tell a user.
    pub fn message(&self) -> (text: String)
        ensures
            text@ == (match *self {
                SolveError::Decomposition { detail } => "SVD failed: "@ + detail@,
                SolveError::MissingLeft => "SVD failed: U matrix is None"@,
                SolveError::MissingRight => "SVD failed: Vt matrix is None"@,
            }),
    {
        match self {
            SolveError::Decomposition { detail } => {
                let mut text: String = "SVD failed: ".to_owned();
                text.append(detail.as_str());
                text
            },
            SolveError::MissingLeft => "SVD failed: U matrix is None".to_owned(),
            SolveError::MissingRight => "SVD failed: Vt matrix is None".to_owned(),
        }
    }
}

/// The inverse of a singular value, or zero where its magnitude is at most a
/// millionth.
pub open spec fn inverted_of<T: Scalar>(value: T) -> T {
    if less_of(ratio_of(1, 1_000_000), magnitude_of(value)) {
        over_of(one_of(), value)
    } else {
        zero_of()
    }
}

/// The singular values of the pseudo-inverse.
pub open spec fn inverted_values_of<T: Scalar>(values: [T; 6]) -> [T; 6] {
    [
        inverted_of(values[0]),
        inverted_of(values[1]),
        inverted_of(values[2]),
        inverted_of(values[3]),
        inverted_of(values[4]),
        inverted_of(values[5]),
    ]
}

/// Inverts a singular value that is not too small.
fn inverted<T: Scalar>(value: T) -> (r: T)
    ensures
        functional::<T>() ==> r == inverted_of(value),
{
    let threshold: T = T::ratio(1, 1_000_000);
    if less(threshold, value.magnitude()) {
        T::ratio(1, 1).over(value)
    } else {
        T::ratio(0, 1)
    }
}

/// Inverts the singular values that are not too small.
pub fn invert_singular_values<T: Scalar>(values: &[T; 6]) -> (r: [T; 6])
    ensures
        functional::<T>() ==> r == inverted_values_of(*values),
{
    [
        inverted(values[0]),
        inverted(values[1]),
        inverted(values[2]),
        inverted(values[3]),
        inverted(values[4]),
        inverted(values[5]),
    ]
}

/// The normal equations of a linear system: as many as there are unknowns.
pub struct Equations<T> {
    pub matrix: [[T; 6]; 6],
    pub rhs: [T; 6],
}

/// A matrix decomposed by its singular values; either factor may be missing.
pub struct Decomposition<T> {
    pub left: Option<[[T; 6]; 6]>,
    pub values: [T; 6],
    pub right: Option<[[T; 6]; 6]>,
}

/// The factors of a pseudo-inverse.
#[derive(Debug)]
pub struct Factors<T> {
    pub left: [[T; 6]; 6],
    pub values: [T; 6],
    pub right: [[T; 6]; 6],
}

/// The factors of the pseudo-inverse from a decomposition, or why there are none.
pub open spec fn inverse_factors_of<T: Scalar>(
    decomposition: Result<Decomposition<T>, String>,
) -> Result<Factors<T>, SolveError> {
    match decomposition {
        Err(detail) => Err(SolveError::Decomposition { detail }),
        Ok(parts) => match (parts.left, parts.right) {
            (None, _) => Err(SolveError::MissingLeft),
            (Some(_), None) => Err(SolveError::MissingRight),
            (Some(left), Some(right)) => Ok(
                Factors { left, values: inverted_values_of(parts.values), right },
            ),
        },
    }
}

/// The factors of the pseudo-inverse from a decomposition: the left factor, the
/// inverted singular values and the right factor. A decomposition that failed is given
/// by the text of its error.
pub fn pseudo_inverse_factors<T: Scalar>(decomposition: Result<Decomposition<T>, String>) -> (r:
    Result<Factors<T>, SolveError>)
    ensures
        r is Ok <==> inverse_factors_of(decomposition) is Ok,
        r is Err ==> r == inverse_factors_of(decomposition),
        functional::<T>() ==> r == inverse_factors_of(decomposition),
{
    match decomposition {
        Err(detail) => Err(SolveError::Decomposition { detail }),
        Ok(parts) => match parts.left {
            None => Err(SolveError::MissingLeft),
            Some(left) => match parts.right {
                None => Err(SolveError::MissingRight),
                Some(right) => {
                    let values: [T; 6] = invert_singular_values(&parts.values);
                    Ok(Factors { left, values, right })
                },
            },
        },
    }
}

/// The square of the distance along the normal of one pair.
pub open spec fn squared_residual_of<T: Scalar>(
    moved: [T; 3],
    target: [T; 3],
    normal: [T; 3],
) -> T {
    let distance = plane_distance_of(moved, target, normal);
    times_of(distance, distance)
}

/// The squared distances of all pairs along their normals, after the source points
/// have been moved.
pub fn squared_residuals<T: Scalar>(
    moved: &Vec<[T; 3]>,
    targets: &Vec<[T; 3]>,
    normals: &Vec<[T; 3]>,
) -> (r: Vec<T>)
    requires
        moved@.len() == targets@.len() == normals@.len(),
    ensures
        r@.len() == moved@.len(),
        functional::<T>() ==> forall|i: int|
            0 <= i < r@.len() ==> #[trigger] r@[i] == squared_residual_of(
                moved@[i],
                targets@[i],
                normals@[i],
            ),
{
    let mut r: Vec<T> = Vec::new();
    let mut i: usize = 0;
    while i < moved.len()
        invariant
            i <= moved@.len(),
            moved@.len() == targets@.len() == normals@.len(),
            r@.len() == i,
            functional::<T>() ==> forall|j: int|
                0 <= j < i ==> #[trigger] r@[j] == squared_residual_of(
                    moved@[j],
                    targets@[j],
                    normals@[j],
                ),
        decreases moved@.len() - i,
    {
        let difference: [T; 3] = minus3(targets[i], moved[i]);
        let distance: T = dot3(difference, normals[i]);
        r.push(distance.times(distance));
        i += 1;
    }
    r
}

/// The root of the mean of `n` squares that add up to `sum`.
pub fn root_mean_square<T: Scalar>(sum: T, n: usize) -> (r: T)
    ensures
        functional::<T>() ==> r == square_root_of(over_of(sum, count_of(n))),
{
    sum.over(T::from_count(n)).square_root()
}

/// The points relative to `origin`.
pub open spec fn relative_of<T: Scalar>(points: Seq<[T; 3]>, origin: [T; 3]) -> Seq<[T; 3]> {
    Seq::new(points.len(), |i: int| minus3_of(points[i], origin))
}

/// Subtracts `origin` from every point.
pub fn relative_to<T: Scalar>(points: &Vec<[T; 3]>, origin: [T; 3]) -> (r: Vec<[T; 3]>)
    ensures
        r@.len() == points@.len(),
        functional::<T>() ==> r@ == relative_of(points@, origin),
{
    let mut r: Vec<[T; 3]> = Vec::new();
    let mut i: usize = 0;
    while i < points.len()
        invariant
            i <= points@.len(),
            r@.len() == i,
            functional::<T>() ==> forall|j: int|
                0 <= j < i ==> #[trigger] r@[j] == minus3_of(points@[j], origin),
        decreases points@.len() - i,
    {
        r.push(minus3(points[i], origin));
        i += 1;
    }
    r
}

/// The three numbers times the factor.
pub open spec fn scaled_of<T: Scalar>(v: [T; 3], factor: T) -> [T; 3] {
    [times_of(v[0], factor), times_of(v[1], factor), times_of(v[2], factor)]
}

/// The length of a vector.
pub open spec fn norm_of<T: Scalar>(v: [T; 3]) -> T {
    square_root_of(
        sum3_of([times_of(v[0], v[0]), times_of(v[1], v[1]), times_of(v[2], v[2])]),
    )
}

/// A normal turned towards the viewpoint, where it points away from it.
pub open spec fn facing_of<T: Scalar>(
    normal: [T; 3],
    centroid: [T; 3],
    viewpoint: [T; 3],
) -> [T; 3] {
    if less_of(dot3_of(normal, minus3_of(viewpoint, centroid)), zero_of()) {
        scaled_of(normal, minus_one_of())
    } else {
        normal
    }
}

/// A vector brought to length one, or the zero vector where its length is below a
/// billionth.
pub open spec fn unit_of<T: Scalar>(v: [T; 3]) -> [T; 3] {
    let norm = norm_of(v);
    if less_of(norm, ratio_of(1, 1_000_000_000)) {
        [zero_of(), zero_of(), zero_of()]
    } else {
        [over_of(v[0], norm), over_of(v[1], norm), over_of(v[2], norm)]
    }
}

/// The normal of a surface at a point: the direction in which its neighbours spread
/// least, turned towards the viewpoint from the neighbours' centroid and brought to
/// length one.
pub fn orient_normal<T: Scalar>(
    direction: [T; 3],
    centroid: [T; 3],
    viewpoint: [T; 3],
) -> (normal: [T; 3])
    ensures
        functional::<T>() ==> normal == unit_of(facing_of(direction, centroid, viewpoint)),
{
    let zero: T = T::ratio(0, 1);
    let to_viewpoint: [T; 3] = minus3(viewpoint, centroid);
    let side: T = dot3(direction, to_viewpoint);
    let facing: [T; 3] = if less(side, zero) {
        let minus_one: T = T::ratio(-1, 1);
        [
            direction[0].times(minus_one),
            direction[1].times(minus_one),
            direction[2].times(minus_one),
        ]
    } else {
        direction
    };
    assert(functional::<T>() ==> facing == facing_of(direction, centroid, viewpoint));
    let squares: [T; 3] = [
        facing[0].times(facing[0]),
        facing[1].times(facing[1]),
        facing[2].times(facing[2]),
    ];
    let norm: T = sum3(squares).square_root();
    let tiny: T = T::ratio(1, 1_000_000_000);
    if less(norm, tiny) {
        [zero, zero, zero]
    } else {
        [facing[0].over(norm), facing[1].over(norm), facing[2].over(norm)]
    }
}

} // verus!

//! The steps of an alignment, put together from the arithmetic on single points and
//! the linear algebra that the caller brings.
//!
//! A matrix product over a whole cloud, the sum of many numbers, the solution of a
//! linear system and the decomposition of a matrix come in as functions. What is
//! stated of a step holds whatever they return: it fixes what they are given and what
//! becomes of their results.
use crate::alignment::{
    build_system, centering_transform, centroid, centroid_of, facing_of, homogeneous,
    homogeneous_of, inverse_factors_of, is_solved, jacobian_row_of, no_rotation_of, orient_normal,
    plane_distance_of, pseudo_inverse_factors, relative_of, relative_to, rigid_of,
    root_mean_square, squared_residual_of, squared_residuals, transform_from_solution, unit_of,
    Decomposition, Equations, Factors, SolveError, Transform,
};
use crate::rows::{all_within, rows_at, select};
use crate::scalar::{count_of, functional, minus3_of, over_of, square_root_of, Scalar};
use vstd::prelude::*;

verus! {

/// The number of neighbours that a normal is estimated from.
pub const K_NEIGHBORS: usize = 15;

/// The transform that moves the source cloud's centroid onto the target cloud's.
pub open spec fn centering_of<T: Scalar>(
    source: Seq<[T; 3]>,
    target: Seq<[T; 3]>,
) -> Transform<T> {
    rigid_of(no_rotation_of(), minus3_of(centroid_of(target), centroid_of(source)))
}

/// Moves the source cloud so that its centroid comes to lie on the target cloud's.
/// `apply` multiplies homogeneous rows with a transform and drops the last column.
/// Returns the transform and the moved cloud.
pub fn registration_pcd_center<T: Scalar, A: Fn(&Vec<[T; 4]>, &Transform<T>) -> Vec<[T; 3]>>(
    source_points: &Vec<[T; 3]>,
    target_points: &Vec<[T; 3]>,
    apply: A,
) -> (r: (Transform<T>, Vec<[T; 3]>))
    requires
        source_points@.len() > 0,
        target_points@.len() > 0,
        forall|rows: &Vec<[T; 4]>, m: &Transform<T>| #[trigger] call_requires(apply, (rows, m)),
    ensures
        functional::<T>() ==> r.0 == centering_of(source_points@, target_points@),
        functional::<T>() ==> exists|rows: Vec<[T; 4]>|
            rows@ == homogeneous_of(source_points@) && #[trigger] call_ensures(
                apply,
                (&rows, &r.0),
                r.1,
            ),
{
    let source_centroid: [T; 3] = centroid(source_points).unwrap();
    let target_centroid: [T; 3] = centroid(target_points).unwrap();
    let transform: Transform<T> = centering_transform(source_centroid, target_centroid);
    let rows: Vec<[T; 4]> = homogeneous(source_points);
    let moved: Vec<[T; 3]> = apply(&rows, &transform);
    let r: (Transform<T>, Vec<[T; 3]>) = (transform, moved);
    assert(call_ensures(apply, (&rows, &r.0), r.1));
    r
}

/// `error` comes of moving the source points by `delta` with `apply`, adding up the
/// squares of their distances along the normals with `total`, and taking the root of
/// the mean.
pub open spec fn is_error_of<
    T: Scalar,
    A: Fn(&Vec<[T; 4]>, &Transform<T>) -> Vec<[T; 3]>,
    S: Fn(&Vec<T>) -> T,
>(
    error: T,
    sources: Seq<[T; 3]>,
    targets: Seq<[T; 3]>,
    normals: Seq<[T; 3]>,
    delta: Transform<T>,
    apply: A,
    total: S,
) -> bool {
    exists|rows: Vec<[T; 4]>, moved: Vec<[T; 3]>, squares: Vec<T>, sum: T|
        {
            &&& rows@ == homogeneous_of(sources)
            &&& #[trigger] call_ensures(apply, (&rows, &delta), moved)
            &&& squares@ == Seq::new(
                sources.len(),
                |i: int| squared_residual_of(moved@[i], targets[i], normals[i]),
            )
            &&& #[trigger] call_ensures(total, (&squares,), sum)
            &&& error == square_root_of(over_of(sum, count_of(sources.len() as usize)))
        }
}

/// The root mean square of the distances along the normals, after the source points
/// have been moved by `delta`. `apply` multiplies homogeneous rows with a transform and
/// drops the last column; `total` adds numbers up.
pub fn calculate_mean_pt_to_plane_error<
    T: Scalar,
    A: Fn(&Vec<[T; 4]>, &Transform<T>) -> Vec<[T; 3]>,
    S: Fn(&Vec<T>) -> T,
>(
    source_pts: &Vec<[T; 3]>,
    target_pts: &Vec<[T; 3]>,
    target_normals: &Vec<[T; 3]>,
    delta: &Transform<T>,
    apply: A,
    total: S,
) -> (error: T)
    requires
        source_pts@.len() == target_pts@.len() == target_normals@.len(),
        forall|rows: &Vec<[T; 4]>, m: &Transform<T>| #[trigger] call_requires(apply, (rows, m)),
        forall|rows: &Vec<[T; 4]>, m: &Transform<T>, moved: Vec<[T; 3]>| #[trigger]
            call_ensures(apply, (rows, m), moved) ==> moved@.len() == rows@.len(),
        forall|numbers: &Vec<T>| #[trigger] call_requires(total, (numbers,)),
    ensures
        functional::<T>() ==> is_error_of(
            error,
            source_pts@,
            target_pts@,
            target_normals@,
            *delta,
            apply,
            total,
        ),
{
    let rows: Vec<[T; 4]> = homogeneous(source_pts);
    let moved: Vec<[T; 3]> = apply(&rows, delta);
    let squares: Vec<T> = squared_residuals(&moved, target_pts, target_normals);
    let sum: T = total(&squares);
    let error: T = root_mean_square(sum, source_pts.len());
    proof {
        if functional::<T>() {
            assert(squares@ =~= Seq::new(
                source_pts@.len(),
                |i: int| squared_residual_of(moved@[i], target_pts@[i], target_normals@[i]),
            ));
            assert(call_ensures(apply, (&rows, delta), moved));
            assert(call_ensures(total, (&squares,), sum));
        }
    }
    error
}

/// The linear system of the pairs.
pub open spec fn is_system_of<T: Scalar>(
    rows: Seq<[T; 6]>,
    rhs: Seq<T>,
    sources: Seq<[T; 3]>,
    targets: Seq<[T; 3]>,
    normals: Seq<[T; 3]>,
) -> bool {
    &&& rows == Seq::new(sources.len(), |i: int| jacobian_row_of(sources[i], normals[i]))
    &&& rhs == Seq::new(
        sources.len(),
        |i: int| plane_distance_of(sources[i], targets[i], normals[i]),
    )
}

/// `x` is the solution that `solve` finds of the equations or, where it finds none, that
/// of the pseudo-inverse: an outcome of `product` on the factors of an outcome of
/// `decompose` and on the same equations. An error is that of the factors.
pub open spec fn is_solution_of<
    T: Scalar,
    D: Fn(&Equations<T>) -> Option<[T; 6]>,
    B: Fn(&Equations<T>) -> Result<Decomposition<T>, String>,
    W: Fn(&Factors<T>, &Equations<T>) -> [T; 6],
>(
    x: Result<[T; 6], SolveError>,
    equations: Equations<T>,
    solve: D,
    decompose: B,
    product: W,
) -> bool {
    exists|direct: Option<[T; 6]>|
        {
            &&& #[trigger] call_ensures(solve, (&equations,), direct)
            &&& match direct {
                Some(solution) => x == Ok::<[T; 6], SolveError>(solution),
                None => exists|decomposition: Result<Decomposition<T>, String>|
                    {
                        &&& #[trigger] call_ensures(decompose, (&equations,), decomposition)
                        &&& match inverse_factors_of(decomposition) {
                            Err(error) => x == Err::<[T; 6], SolveError>(error),
                            Ok(factors) => x is Ok && call_ensures(
                                product,
                                (&factors, &equations),
                                x->Ok_0,
                            ),
                        }
                    },
            }
        }
}

/// Solves the equations: directly where `solve` can, and by the pseudo-inverse otherwise.
pub fn solve_equations<
    T: Scalar,
    D: Fn(&Equations<T>) -> Option<[T; 6]>,
    B: Fn(&Equations<T>) -> Result<Decomposition<T>, String>,
    W: Fn(&Factors<T>, &Equations<T>) -> [T; 6],
>(equations: &Equations<T>, solve: D, decompose: B, product: W) -> (x: Result<[T; 6], SolveError>)
    requires
        call_requires(solve, (equations,)),
        call_requires(decompose, (equations,)),
        forall|factors: &Factors<T>| #[trigger] call_requires(product, (factors, equations)),
    ensures
        functional::<T>() ==> is_solution_of(x, *equations, solve, decompose, product),
{
    let direct: Option<[T; 6]> = solve(equations);
    match direct {
        Some(solution) => Ok(solution),
        None => {
            let decomposition: Result<Decomposition<T>, String> = decompose(equations);
            assert(call_ensures(decompose, (equations,), decomposition));
            let factors: Result<Factors<T>, SolveError> = pseudo_inverse_factors(decomposition);
            match factors {
                Ok(factors) => Ok(product(&factors, equations)),
                Err(error) => Err(error),
            }
        },
    }
}

/// `r` comes of the linear system of the pairs: it is the transform of the solution of
/// what `equations` makes of it, or says why there is none.
pub open spec fn is_transformation_of<
    T: Scalar,
    Q: Fn(&Vec<[T; 6]>, &Vec<T>) -> Equations<T>,
    D: Fn(&Equations<T>) -> Option<[T; 6]>,
    B: Fn(&Equations<T>) -> Result<Decomposition<T>, String>,
    W: Fn(&Factors<T>, &Equations<T>) -> [T; 6],
>(
    r: Result<Transform<T>, SolveError>,
    sources: Seq<[T; 3]>,
    targets: Seq<[T; 3]>,
    normals: Seq<[T; 3]>,
    equations: Q,
    solve: D,
    decompose: B,
    product: W,
) -> bool {
    exists|
        rows: Vec<[T; 6]>,
        rhs: Vec<T>,
        normal: Equations<T>,
        x: Result<[T; 6], SolveError>,
    |
        {
            &&& is_system_of(rows@, rhs@, sources, targets, normals)
            &&& #[trigger] call_ensures(equations, (&rows, &rhs), normal)
            &&& #[trigger] is_solution_of(x, normal, solve, decompose, product)
            &&& match x {
                Ok(solution) => r matches Ok(m) && is_solved(m, solution),
                Err(error) => r == Err::<Transform<T>, SolveError>(error),
            }
        }
}

/// The small transform that brings the source points closest to the planes of their
/// targets. `equations` forms the normal equations of a linear system, `solve` solves
/// them or gives up on them; then `decompose` decomposes their matrix by its singular
/// values, and `product` multiplies the pseudo-inverse with their right-hand side.
pub fn calculate_transformation_pt_to_plane<
    T: Scalar,
    Q: Fn(&Vec<[T; 6]>, &Vec<T>) -> Equations<T>,
    D: Fn(&Equations<T>) -> Option<[T; 6]>,
    B: Fn(&Equations<T>) -> Result<Decomposition<T>, String>,
    W: Fn(&Factors<T>, &Equations<T>) -> [T; 6],
>(
    inlier_source_pts: &Vec<[T; 3]>,
    inlier_target_pts: &Vec<[T; 3]>,
    inlier_target_normals: &Vec<[T; 3]>,
    equations: Q,
    solve: D,
    decompose: B,
    product: W,
) -> (r: Result<Transform<T>, SolveError>)
    requires
        inlier_source_pts@.len() == inlier_target_pts@.len() == inlier_target_normals@.len(),
        forall|rows: &Vec<[T; 6]>, rhs: &Vec<T>| #[trigger] call_requires(equations, (rows, rhs)),
        forall|normal: &Equations<T>| #[trigger] call_requires(solve, (normal,)),
        forall|normal: &Equations<T>| #[trigger] call_requires(decompose, (normal,)),
        forall|factors: &Factors<T>, normal: &Equations<T>| #[trigger]
            call_requires(product, (factors, normal)),
    ensures
        functional::<T>() ==> is_transformation_of(
            r,
            inlier_source_pts@,
            inlier_target_pts@,
            inlier_target_normals@,
            equations,
            solve,
            decompose,
            product,
        ),
{
    let (rows, rhs): (Vec<[T; 6]>, Vec<T>) = build_system(
        inlier_source_pts,
        inlier_target_pts,
        inlier_target_normals,
    );
    proof {
        if functional::<T>() {
            assert forall|i: int| 0 <= i < rhs@.len() implies #[trigger] rhs@[i]
                == plane_distance_of(
                inlier_source_pts@[i],
                inlier_target_pts@[i],
                inlier_target_normals@[i],
            ) by {
                assert(rows@[i] == jacobian_row_of(
                    inlier_source_pts@[i],
                    inlier_target_normals@[i],
                ));
            }
            assert(rows@ =~= Seq::new(
                inlier_source_pts@.len(),
                |i: int| jacobian_row_of(inlier_source_pts@[i], inlier_target_normals@[i]),
            ));
            assert(rhs@ =~= Seq::new(
                inlier_source_pts@.len(),
                |i: int|
                    plane_distance_of(
                        inlier_source_pts@[i],
                        inlier_target_pts@[i],
                        inlier_target_normals@[i],
                    ),
            ));
        }
    }
    let normal: Equations<T> = equations(&rows, &rhs);
    let x: Result<[T; 6], SolveError> = solve_equations(&normal, solve, decompose, product);
    match x {
        Ok(solution) => Ok(transform_from_solution(solution)),
        Err(error) => Err(error),
    }
}

/// The normal at one point comes from its neighbours: `direction` is an outcome of
/// `least_spread` on the neighbours relative to their centroid, and the normal is it,
/// turned towards the viewpoint and brought to length one.
pub open spec fn is_normal_of<T: Scalar, F: Fn(&Vec<[T; 3]>) -> [T; 3]>(
    normal: [T; 3],
    neighbours: Seq<[T; 3]>,
    least_spread: F,
    viewpoint: [T; 3],
) -> bool {
    exists|relative: Vec<[T; 3]>, direction: [T; 3]|
        {
            &&& relative@ == relative_of(neighbours, centroid_of(neighbours))
            &&& #[trigger] call_ensures(least_spread, (&relative,), direction)
            &&& normal == unit_of(facing_of(direction, centroid_of(neighbours), viewpoint))
        }
}

/// The normal at `point` comes from the points that `search` finds nearest to it.
pub open spec fn is_normal_at<
    T: Scalar,
    K: Fn(&[T; 3], usize) -> Vec<usize>,
    F: Fn(&Vec<[T; 3]>) -> [T; 3],
>(
    normal: [T; 3],
    point: [T; 3],
    target_pts: Seq<[T; 3]>,
    search: K,
    least_spread: F,
    viewpoint: [T; 3],
) -> bool {
    exists|found: Vec<usize>| #[trigger]
        call_ensures(search, (&point, K_NEIGHBORS), found) && is_normal_of(
            normal,
            rows_at(target_pts, found@),
            least_spread,
            viewpoint,
        )
}

/// The normals of a cloud. `search` lists the positions of the points of the cloud that
/// are nearest to a point, as many as asked for or all where there are fewer;
/// `least_spread` finds the direction in which points that are given relative to their
/// centroid spread least.
pub fn calculate_normals<
    T: Scalar,
    K: Fn(&[T; 3], usize) -> Vec<usize>,
    F: Fn(&Vec<[T; 3]>) -> [T; 3],
>(
    target_pts: &Vec<[T; 3]>,
    search: K,
    least_spread: F,
    viewpoint: [T; 3],
) -> (normals: Vec<[T; 3]>)
    requires
        forall|i: int|
            #![trigger target_pts@[i]]
            0 <= i < target_pts@.len() ==> call_requires(search, (&target_pts@[i], K_NEIGHBORS)),
        forall|i: int, found: Vec<usize>|
            0 <= i < target_pts@.len() && #[trigger] call_ensures(
                search,
                (&target_pts@[i], K_NEIGHBORS),
                found,
            ) ==> found@.len() > 0 && all_within(found@, target_pts@.len() as int),
        forall|points: &Vec<[T; 3]>| #[trigger] call_requires(least_spread, (points,)),
    ensures
        normals@.len() == target_pts@.len(),
        functional::<T>() ==> forall|i: int|
            0 <= i < normals@.len() ==> is_normal_at(
                #[trigger] normals@[i],
                target_pts@[i],
                target_pts@,
                search,
                least_spread,
                viewpoint,
            ),
{
    let mut normals: Vec<[T; 3]> = Vec::new();
    let mut i: usize = 0;
    while i < target_pts.len()
        invariant
            i <= target_pts@.len(),
            forall|j: int|
                #![trigger target_pts@[j]]
                0 <= j < target_pts@.len() ==> call_requires(
                    search,
                    (&target_pts@[j], K_NEIGHBORS),
                ),
            forall|j: int, found: Vec<usize>|
                0 <= j < target_pts@.len() && #[trigger] call_ensures(
                    search,
                    (&target_pts@[j], K_NEIGHBORS),
                    found,
                ) ==> found@.len() > 0 && all_within(found@, target_pts@.len() as int),
            forall|points: &Vec<[T; 3]>| #[trigger] call_requires(least_spread, (points,)),
            normals@.len() == i,
            functional::<T>() ==> forall|j: int|
                0 <= j < i ==> is_normal_at(
                    #[trigger] normals@[j],
                    target_pts@[j],
                    target_pts@,
                    search,
                    least_spread,
                    viewpoint,
                ),
        decreases target_pts@.len() - i,
    {
        let found: Vec<usize> = search(&target_pts[i], K_NEIGHBORS);
        assert(call_ensures(search, (&target_pts@[i as int], K_NEIGHBORS), found));
        let near: Vec<[T; 3]> = select(target_pts, &found);
        let middle: [T; 3] = centroid(&near).unwrap();
        let relative: Vec<[T; 3]> = relative_to(&near, middle);
        let direction: [T; 3] = least_spread(&relative);
        let normal: [T; 3] = orient_normal(direction, middle, viewpoint);
        assert(functional::<T>() ==> is_normal_of(
            normal,
            rows_at(target_pts@, found@),
            least_spread,
            viewpoint,
        ));
        normals.push(normal);
        i += 1;
    }
    normals
}

} // verus!

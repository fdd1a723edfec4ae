//! What the results of the library's functions are, where arithmetic is exact.
use crate::alignment::{
    build_system, centroid, is_solved, jacobian_row_of, orient_normal, plane_distance_of,
    pseudo_inverse_factors, rotation_matrix, transform_from_solution, Decomposition, Equations,
    Factors, SolveError, Transform,
};
use crate::candidates::{hypothesis_candidate, Candidate};
use crate::cells::{
    are_comparable, floors_exactly, is_lowest, law_key_names_voxel, law_rows_are_means, lies_in,
    lists_means,
};
use crate::exact::{
    are_ordered, billionth, compares_exactly, exact, millionth, multiplies_exactly, reads_ratios,
    roots_exactly, value3,
};
use crate::facing::{
    difference, faces, is_mean, law_normal_comes_from_neighbours, law_normal_faces_viewpoint,
    lemma_centroid_is_mean, points_at, seen_from,
};
use crate::fits::{
    is_root_mean_square, law_equation_measures_distance, law_error_is_root_mean_square,
    law_inverse_undoes_values, measures_exactly, off_plane, totals_exactly,
};
use crate::hypotheses::Hypothesis;
use crate::icp::{IcpEvent, IcpState};
use crate::invariants::rigid_row_of;
use crate::iteration::{icp_iteration_on, perform_icp_point_to_plane, Problem};
use crate::morton::{law_key_names_cell, morton3d};
use crate::order::is_nan;
use crate::picture::{
    is_speck, law_box_is_tight, law_picture_shows_all, law_window_is_centered, sets_width,
};
use crate::progress::{
    counts_exactly, follows_on, law_alignment_goes_step_by_step, stands_after, works_on,
};
use crate::registration::{
    calculate_mean_pt_to_plane_error, calculate_normals, calculate_transformation_pt_to_plane,
    is_solution_of, is_system_of, registration_pcd_center,
};
use crate::rigidity::composes_exactly;
use crate::rotations::{cross, dot, Real3};
use crate::rows::all_within;
use crate::scalar::{bits_of, functional, one_of, Scalar};
use crate::steps::{is_step, law_step_follows_the_transform};
use crate::trajectory::{
    bounding_box, plane_series, seen_from_above, view_window, Bounds, PoseData, TrajectoryError,
    Window,
};
use crate::trials::{
    are_placed, is_centered, is_outcome, is_turned_and_centered, law_centering_only_moves,
    law_hypothesis_turns_then_centers, law_moved_points_are_placed,
};
use crate::turning::{
    law_rotation_keeps_its_vector, law_rotation_turns_about_its_vector,
    law_solution_turns_then_moves, placed, scaled, sum, turned, turned_about, turns_about,
};
use crate::voxelization::{cell_keys, voxel_downsample_array2, voxel_keys};
use vstd::prelude::*;

verus! {

/// Arithmetic is exact, ratios are read and roots are found exactly, and numbers compare
/// exactly with those that decisions are made by.
pub open spec fn all_exact<T: Scalar>(value: spec_fn(T) -> real) -> bool {
    &&& functional::<T>()
    &&& exact(value)
    &&& compares_exactly(value)
    &&& reads_ratios(value)
    &&& roots_exactly(value)
}

/// `centroid` gives the mean of points.
pub proof fn law_centroid_gives_mean<T: Scalar>(
    value: spec_fn(T) -> real,
    points: Vec<[T; 3]>,
    r: Option<[T; 3]>,
)
    requires
        all_exact(value),
        0 < points@.len() <= usize::MAX,
        call_ensures(centroid::<T>, (&points,), r),
    ensures
        r is Some,
        is_mean(value, points@, value3(value, r->0)),
{
    lemma_centroid_is_mean(value, points@);
}

/// `orient_normal` gives the unit vector along a direction that faces the viewpoint.
pub proof fn law_orient_normal_faces_viewpoint<T: Scalar>(
    value: spec_fn(T) -> real,
    direction: [T; 3],
    centroid: [T; 3],
    viewpoint: [T; 3],
    normal: [T; 3],
)
    requires
        all_exact(value),
        call_ensures(orient_normal::<T>, (direction, centroid, viewpoint), normal),
    ensures
        faces(
            value3(value, normal),
            value3(value, direction),
            difference(value3(value, viewpoint), value3(value, centroid)),
        ),
{
    law_normal_faces_viewpoint(value, normal, direction, centroid, viewpoint);
}

/// `rotation_matrix` turns about the rotation vector by its length, with the right hand, and
/// leaves the vector where it is. Below a billionth it adds the cross product with the vector.
pub proof fn law_rotation_matrix_turns<T: Scalar>(
    value: spec_fn(T) -> real,
    w: [T; 3],
    r: [[T; 3]; 3],
    length: real,
    k: Real3,
)
    requires
        all_exact(value),
        call_ensures(rotation_matrix::<T>, (w,), r),
        length >= 0 as real,
        length * length == dot(value3(value, w), value3(value, w)),
        scaled(length, k) == value3(value, w),
    ensures
        length >= billionth() ==> turned(value, r, value3(value, w)) == value3(value, w) && exists|
            angle: T,
            s: T,
            c: T,
        |
            {
                &&& value(angle) == length
                &&& #[trigger] call_ensures(T::sine, (angle,), s)
                &&& #[trigger] call_ensures(T::cosine, (angle,), c)
                &&& turns_about(value, r, k, value(s), value(c))
            },
        length < billionth() ==> forall|p: Real3| #[trigger]
            turned(value, r, p) == sum(p, cross(value3(value, w), p)),
{
    law_rotation_turns_about_its_vector(value, r, w, length, k);
    if length >= billionth() {
        law_rotation_keeps_its_vector(value, r, w, length, k);
    }
}

/// `transform_from_solution` turns by the first three numbers and then moves by the others.
pub proof fn law_transform_from_solution_turns_then_moves<T: Scalar>(
    value: spec_fn(T) -> real,
    x: [T; 6],
    m: Transform<T>,
    length: real,
    k: Real3,
)
    requires
        all_exact(value),
        call_ensures(transform_from_solution::<T>, (x,), m),
        length >= 0 as real,
        ({
            let w = (value(x[0]), value(x[1]), value(x[2]));
            length * length == dot(w, w) && scaled(length, k) == w
        }),
    ensures
        ({
            let w = (value(x[0]), value(x[1]), value(x[2]));
            let t = (value(x[3]), value(x[4]), value(x[5]));
            if length >= billionth() {
                exists|angle: T, s: T, c: T|
                    {
                        &&& value(angle) == length
                        &&& #[trigger] call_ensures(T::sine, (angle,), s)
                        &&& #[trigger] call_ensures(T::cosine, (angle,), c)
                        &&& forall|p: Real3| #[trigger]
                            placed(value, m, p) == sum(turned_about(k, value(s), value(c), p), t)
                    }
            } else {
                forall|p: Real3| #[trigger] placed(value, m, p) == sum(sum(p, cross(w, p)), t)
            }
        }),
{
    law_solution_turns_then_moves(value, m, x, length, k);
}

/// What is left of an equation for a turn and a move.
pub open spec fn left_over<T: Scalar>(
    value: spec_fn(T) -> real,
    row: [T; 6],
    rhs: T,
    w: Real3,
    t: Real3,
) -> real {
    value(rhs) - (dot(w, (value(row[0]), value(row[1]), value(row[2]))) + dot(
        t,
        (value(row[3]), value(row[4]), value(row[5])),
    ))
}

/// The equations say how far the source points are from their targets' planes once they have
/// been turned and moved, to first order.
pub open spec fn states_distances<T: Scalar>(
    value: spec_fn(T) -> real,
    rows: Seq<[T; 6]>,
    rhs: Seq<T>,
    sources: Seq<[T; 3]>,
    targets: Seq<[T; 3]>,
    normals: Seq<[T; 3]>,
) -> bool {
    &&& rows.len() == sources.len()
    &&& rhs.len() == sources.len()
    &&& forall|i: int, w: Real3, t: Real3|
        0 <= i < sources.len() ==> #[trigger] left_over(value, rows[i], rhs[i], w, t) == off_plane(
            sum(
                sum(value3(value, sources[i]), cross(w, value3(value, sources[i]))),
                t,
            ),
            value3(value, targets[i]),
            value3(value, normals[i]),
        )
}

/// `build_system` states how far the source points are from their targets' planes.
pub proof fn law_system_states_distances<T: Scalar>(
    value: spec_fn(T) -> real,
    sources: Vec<[T; 3]>,
    targets: Vec<[T; 3]>,
    normals: Vec<[T; 3]>,
    r: (Vec<[T; 6]>, Vec<T>),
)
    requires
        all_exact(value),
        call_ensures(build_system::<T>, (&sources, &targets, &normals), r),
    ensures
        states_distances(value, r.0@, r.1@, sources@, targets@, normals@),
{
    let (rows, rhs) = (r.0@, r.1@);
    assert forall|i: int| 0 <= i < sources@.len() implies #[trigger] rhs[i]
        == plane_distance_of(sources@[i], targets@[i], normals@[i]) by {
        assert(rows[i] == jacobian_row_of(sources@[i], normals@[i]));
    }
    assert(rows =~= Seq::new(
        sources@.len(),
        |i: int| jacobian_row_of(sources@[i], normals@[i]),
    ));
    assert(rhs =~= Seq::new(
        sources@.len(),
        |i: int|
            plane_distance_of(sources@[i], targets@[i], normals@[i]),
    ));
    assert forall|i: int, w: Real3, t: Real3| 0 <= i < sources@.len() implies #[trigger] left_over(
        value,
        rows[i],
        rhs[i],
        w,
        t,
    ) == off_plane(
        sum(sum(value3(value, sources@[i]), cross(w, value3(value, sources@[i]))), t),
        value3(value, targets@[i]),
        value3(value, normals@[i]),
    ) by {
        law_equation_measures_distance(
            value,
            rows,
            rhs,
            sources@,
            targets@,
            normals@,
            i,
            w,
            t,
        );
    }
}

/// `calculate_transformation_pt_to_plane` solves equations that state how far the source
/// points are from their targets' planes, and gives the transform of the solution.
pub proof fn law_fit_solves_distances<
    T: Scalar,
    Q: Fn(&Vec<[T; 6]>, &Vec<T>) -> Equations<T>,
    D: Fn(&Equations<T>) -> Option<[T; 6]>,
    B: Fn(&Equations<T>) -> Result<Decomposition<T>, String>,
    W: Fn(&Factors<T>, &Equations<T>) -> [T; 6],
>(
    value: spec_fn(T) -> real,
    sources: Vec<[T; 3]>,
    targets: Vec<[T; 3]>,
    normals: Vec<[T; 3]>,
    equations: Q,
    solve: D,
    decompose: B,
    product: W,
    m: Transform<T>,
)
    requires
        all_exact(value),
        call_ensures(
            calculate_transformation_pt_to_plane::<T, Q, D, B, W>,
            (&sources, &targets, &normals, equations, solve, decompose, product),
            Ok(m),
        ),
    ensures
        exists|rows: Vec<[T; 6]>, rhs: Vec<T>, normal: Equations<T>, x: [T; 6]|
            {
                &&& states_distances(value, rows@, rhs@, sources@, targets@, normals@)
                &&& #[trigger] call_ensures(equations, (&rows, &rhs), normal)
                &&& #[trigger] is_solution_of(Ok(x), normal, solve, decompose, product)
                &&& is_solved(m, x)
            },
{
    let (rows, rhs, normal, x) = choose|
        rows: Vec<[T; 6]>,
        rhs: Vec<T>,
        normal: Equations<T>,
        x: Result<[T; 6], SolveError>,
    |
        {
            &&& is_system_of(rows@, rhs@, sources@, targets@, normals@)
            &&& #[trigger] call_ensures(equations, (&rows, &rhs), normal)
            &&& #[trigger] is_solution_of(x, normal, solve, decompose, product)
            &&& match x {
                Ok(solution) => is_solved(m, solution),
                Err(error) => Ok::<Transform<T>, SolveError>(m) == Err::<Transform<T>, SolveError>(
                    error,
                ),
            }
        };
    assert forall|i: int, w: Real3, t: Real3| 0 <= i < sources@.len() implies #[trigger] left_over(
        value,
        rows@[i],
        rhs@[i],
        w,
        t,
    ) == off_plane(
        sum(sum(value3(value, sources@[i]), cross(w, value3(value, sources@[i]))), t),
        value3(value, targets@[i]),
        value3(value, normals@[i]),
    ) by {
        law_equation_measures_distance(
            value,
            rows@,
            rhs@,
            sources@,
            targets@,
            normals@,
            i,
            w,
            t,
        );
    }
    assert(states_distances(value, rows@, rhs@, sources@, targets@, normals@));
    assert(x is Ok);
    assert(is_solution_of(Ok(x->Ok_0), normal, solve, decompose, product));
}

/// `calculate_mean_pt_to_plane_error` gives the root mean square of the distances from the
/// planes that are left once the source points have been moved.
pub proof fn law_mean_error_is_root_mean_square<
    T: Scalar,
    A: Fn(&Vec<[T; 4]>, &Transform<T>) -> Vec<[T; 3]>,
    S: Fn(&Vec<T>) -> T,
>(
    value: spec_fn(T) -> real,
    sources: Vec<[T; 3]>,
    targets: Vec<[T; 3]>,
    normals: Vec<[T; 3]>,
    delta: Transform<T>,
    apply: A,
    total: S,
    error: T,
)
    requires
        all_exact(value),
        multiplies_exactly(value, apply),
        totals_exactly(value, total),
        0 < sources@.len() <= usize::MAX,
        call_ensures(
            calculate_mean_pt_to_plane_error::<T, A, S>,
            (&sources, &targets, &normals, &delta, apply, total),
            error,
        ),
    ensures
        is_root_mean_square(value, error, delta, sources@, targets@, normals@),
{
    law_error_is_root_mean_square(
        value,
        error,
        sources@,
        targets@,
        normals@,
        delta,
        apply,
        total,
    );
}

/// `registration_pcd_center` moves the source cloud to where its mean is that of the target,
/// and its transform takes every point there.
pub proof fn law_center_moves_mean<
    T: Scalar,
    A: Fn(&Vec<[T; 4]>, &Transform<T>) -> Vec<[T; 3]>,
>(
    value: spec_fn(T) -> real,
    source: Vec<[T; 3]>,
    target: Vec<[T; 3]>,
    apply: A,
    r: (Transform<T>, Vec<[T; 3]>),
)
    requires
        all_exact(value),
        multiplies_exactly(value, apply),
        0 < source@.len() <= usize::MAX,
        0 < target@.len() <= usize::MAX,
        call_ensures(registration_pcd_center::<T, A>, (&source, &target, apply), r),
    ensures
        is_centered(value, r.1@, source@, target@),
        are_placed(value, r.1@, source@, r.0),
{
    law_centering_only_moves(value, r.1, source@, target@, apply);
    law_moved_points_are_placed(value, r.1, source@, r.0, apply);
}

/// `calculate_normals` gives every point the normal of its neighbourhood that faces the
/// viewpoint.
pub proof fn law_normals_face_viewpoint<
    T: Scalar,
    K: Fn(&[T; 3], usize) -> Vec<usize>,
    F: Fn(&Vec<[T; 3]>) -> [T; 3],
>(
    value: spec_fn(T) -> real,
    target_pts: Vec<[T; 3]>,
    search: K,
    least_spread: F,
    viewpoint: [T; 3],
    normals: Vec<[T; 3]>,
    i: int,
)
    requires
        all_exact(value),
        0 <= i < target_pts@.len(),
        forall|found: Vec<usize>| #[trigger]
            call_ensures(search, (&target_pts@[i], 15usize), found) ==> 0 < found@.len()
                <= usize::MAX,
        call_ensures(
            calculate_normals::<T, K, F>,
            (&target_pts, search, least_spread, viewpoint),
            normals,
        ),
    ensures
        normals@.len() == target_pts@.len(),
        exists|found: Vec<usize>, around: Vec<[T; 3]>, direction: [T; 3], at: Real3|
            {
                &&& #[trigger] call_ensures(search, (&target_pts@[i], 15usize), found)
                &&& is_mean(value, points_at(target_pts@, found@), at)
                &&& #[trigger] seen_from(value, around@, points_at(target_pts@, found@), at)
                &&& #[trigger] call_ensures(least_spread, (&around,), direction)
                &&& faces(
                    value3(value, normals@[i]),
                    value3(value, direction),
                    difference(value3(value, viewpoint), at),
                )
            },
{
    law_normal_comes_from_neighbours(
        value,
        normals@[i],
        target_pts@[i],
        target_pts@,
        search,
        least_spread,
        viewpoint,
    );
}

/// `pseudo_inverse_factors` keeps the factors of a decomposition and undoes its singular
/// values, those of a millionth or less in magnitude by zero.
pub proof fn law_factors_undo_values<T: Scalar>(
    value: spec_fn(T) -> real,
    parts: Decomposition<T>,
    factors: Factors<T>,
    i: int,
)
    requires
        all_exact(value),
        measures_exactly(value),
        0 <= i < 6,
        call_ensures(
            pseudo_inverse_factors::<T>,
            (Ok::<Decomposition<T>, String>(parts),),
            Ok::<Factors<T>, SolveError>(factors),
        ),
    ensures
        parts.left == Some(factors.left),
        parts.right == Some(factors.right),
        ({
            let (before, after) = (value(parts.values[i]), value(factors.values[i]));
            if before > millionth() || before < -millionth() {
                after * before == 1 as real
            } else {
                after == 0 as real
            }
        }),
{
    law_inverse_undoes_values(value, parts, factors, i);
}

/// `voxel_keys` gives two points the same key exactly when along each of the three axes the
/// numbers of their cells agree in their low 21 bits. Cells are counted from the lowest
/// coordinate along an axis in steps of the voxels' size.
pub proof fn law_voxel_keys_name_voxels<T: Scalar>(
    value: spec_fn(T) -> real,
    points: Vec<[T; 3]>,
    voxel_size: T,
    keys: Vec<u64>,
    low: (real, real, real),
    i: int,
    j: int,
    a: (int, int, int),
    b: (int, int, int),
)
    requires
        all_exact(value),
        floors_exactly(value),
        call_ensures(voxel_keys::<T>, (&points, voxel_size), keys),
        value(voxel_size) > 0 as real,
        are_comparable(value, points@),
        0 <= i < points@.len(),
        0 <= j < points@.len(),
        is_lowest(value, points@, 0, low.0),
        is_lowest(value, points@, 1, low.1),
        is_lowest(value, points@, 2, low.2),
        0 <= a.0 < 0x1_0000_0000 && 0 <= a.1 < 0x1_0000_0000 && 0 <= a.2 < 0x1_0000_0000,
        0 <= b.0 < 0x1_0000_0000 && 0 <= b.1 < 0x1_0000_0000 && 0 <= b.2 < 0x1_0000_0000,
        lies_in(value(points@[i][0]), low.0, value(voxel_size), a.0),
        lies_in(value(points@[i][1]), low.1, value(voxel_size), a.1),
        lies_in(value(points@[i][2]), low.2, value(voxel_size), a.2),
        lies_in(value(points@[j][0]), low.0, value(voxel_size), b.0),
        lies_in(value(points@[j][1]), low.1, value(voxel_size), b.1),
        lies_in(value(points@[j][2]), low.2, value(voxel_size), b.2),
    ensures
        keys@.len() == points@.len(),
        keys@[i] == keys@[j] <==> {
            &&& a.0 % 0x200000 == b.0 % 0x200000
            &&& a.1 % 0x200000 == b.1 % 0x200000
            &&& a.2 % 0x200000 == b.2 % 0x200000
        },
{
    law_key_names_voxel(value, points@, voxel_size, low, i, j, a, b);
}

/// `voxel_downsample_array2` gives the mean of the points that have the same key by
/// `voxel_keys`, one row for each key.
pub proof fn law_downsampling_gives_means<T: Scalar>(
    value: spec_fn(T) -> real,
    points: Vec<[T; 3]>,
    voxel_size: T,
    keys: Vec<u64>,
    rows: Vec<[T; 3]>,
)
    requires
        all_exact(value),
        points@.len() <= usize::MAX,
        call_ensures(voxel_keys::<T>, (&points, voxel_size), keys),
        call_ensures(voxel_downsample_array2::<T>, (&points, voxel_size), rows),
    ensures
        exists|cells: Seq<u64>| #[trigger] lists_means(value, rows@, cells, points@, keys@),
{
    law_rows_are_means(value, rows@, points@, voxel_size);
    assert(keys@ == cell_keys(points@, voxel_size));
}

/// The picture of a trajectory shows every pose in the plane of x and y, unless the trajectory
/// is a speck there. It has the proportions 1024 to 768, shares its middle with the box of the
/// poses, and is a tenth larger than the box in the direction that sets its size.
pub proof fn law_picture_of_poses<S, T: Scalar>(
    value: spec_fn(T) -> real,
    poses: Vec<PoseData<S, T>>,
    series: Vec<(T, T)>,
    bounds: Bounds<T>,
    window: Window<T>,
    i: int,
)
    requires
        all_exact(value),
        call_ensures(plane_series::<S, T>, (&poses,), series),
        call_ensures(bounding_box::<T>, (&series,), Ok::<Bounds<T>, TrajectoryError>(bounds)),
        call_ensures(view_window::<T>, (&bounds,), window),
        0 <= i < poses@.len(),
        are_ordered(value, Seq::new(poses@.len(), |j: int| poses@[j].position[0])),
        are_ordered(value, Seq::new(poses@.len(), |j: int| poses@[j].position[1])),
    ensures
        ({
            let (left, right) = (value(window.x.0), value(window.x.1));
            let (bottom, top) = (value(window.y.0), value(window.y.1));
            let width = value(bounds.max_x) - value(bounds.min_x);
            let height = value(bounds.max_y) - value(bounds.min_y);
            &&& value(bounds.min_x) <= value(poses@[i].position[0]) <= value(bounds.max_x)
            &&& value(bounds.min_y) <= value(poses@[i].position[1]) <= value(bounds.max_y)
            &&& left + right == value(bounds.min_x) + value(bounds.max_x)
            &&& bottom + top == value(bounds.min_y) + value(bounds.max_y)
            &&& 768 as real * (right - left) == 1024 as real * (top - bottom)
            &&& if sets_width(width, height) {
                10 as real * (right - left) == 11 as real * width
            } else {
                10 as real * (top - bottom) == 11 as real * height
            }
            &&& !is_speck(width, height) ==> {
                &&& left <= value(poses@[i].position[0]) <= right
                &&& bottom <= value(poses@[i].position[1]) <= top
            }
        }),
{
    let above = seen_from_above(poses@);
    assert(above.map_values(|p: (T, T)| p.0) =~= Seq::new(
        poses@.len(),
        |j: int| poses@[j].position[0],
    ));
    assert(above.map_values(|p: (T, T)| p.1) =~= Seq::new(
        poses@.len(),
        |j: int| poses@[j].position[1],
    ));
    law_box_is_tight(value, above);
    assert(value(bounds.min_x) <= value(above[i].0) <= value(bounds.max_x));
    law_window_is_centered(value, bounds);
    if !is_speck(
        value(bounds.max_x) - value(bounds.min_x),
        value(bounds.max_y) - value(bounds.min_y),
    ) {
        law_picture_shows_all(value, poses@, i);
    }
}

/// `morton3d` gives two cells the same key exactly when their indices agree in their low 21
/// bits.
pub proof fn law_morton_tells_cells_apart(
    a: (u32, u32, u32),
    b: (u32, u32, u32),
    key_a: u64,
    key_b: u64,
)
    requires
        call_ensures(morton3d, (a.0, a.1, a.2), key_a),
        call_ensures(morton3d, (b.0, b.1, b.2), key_b),
    ensures
        key_a == key_b <==> {
            &&& a.0 % 0x200000 == b.0 % 0x200000
            &&& a.1 % 0x200000 == b.1 % 0x200000
            &&& a.2 % 0x200000 == b.2 % 0x200000
        },
{
    law_key_names_cell(a, b);
}

/// `icp_iteration_on` makes a step: the transform that it returns takes every point where the
/// fit takes it from where the transform found so far takes it, and the error is that of the
/// returned transform on the source points of the kept pairs.
pub proof fn law_iteration_makes_step<
    T: Scalar,
    A: Fn(&Vec<[T; 4]>, &Transform<T>) -> Vec<[T; 3]> + Copy,
    N: Fn(&Vec<[T; 3]>) -> Vec<(usize, T)>,
    Q: Fn(&Vec<[T; 6]>, &Vec<T>) -> Equations<T>,
    D: Fn(&Equations<T>) -> Option<[T; 6]>,
    B: Fn(&Equations<T>) -> Result<Decomposition<T>, String>,
    W: Fn(&Factors<T>, &Equations<T>) -> [T; 6],
    C: Fn(&Transform<T>, &Transform<T>) -> Transform<T>,
    S: Fn(&Vec<T>) -> T,
>(
    value: spec_fn(T) -> real,
    problem: Problem<T>,
    transform: Transform<T>,
    indices: Vec<usize>,
    apply: A,
    nearest: N,
    equations: Q,
    solve: D,
    decompose: B,
    product: W,
    compose: C,
    total: S,
    event: IcpEvent<Transform<T>, T>,
)
    requires
        all_exact(value),
        counts_exactly(value),
        multiplies_exactly(value, apply),
        composes_exactly(value, compose),
        totals_exactly(value, total),
        transform[3] == rigid_row_of::<T>(),
        forall|i: int|
            0 <= i < problem.source_rows@.len() ==> (#[trigger] problem.source_rows@[i])[3]
                == one_of::<T>(),
        all_within(indices@, problem.source_rows@.len() as int),
        indices@.len() <= usize::MAX,
        forall|points: &Vec<[T; 3]>, near: Vec<(usize, T)>| #[trigger]
            call_ensures(nearest, (points,), near) ==> near@.len() == points@.len(),
        forall|points: &Vec<[T; 3]>, near: Vec<(usize, T)>, i: int|
            #![trigger call_ensures(nearest, (points,), near), near@[i]]
            call_ensures(nearest, (points,), near) && 0 <= i < near@.len() ==> !is_nan(
                bits_of(near@[i].1),
            ),
        call_ensures(
            icp_iteration_on::<T, A, N, Q, D, B, W, C, S>,
            (
                &problem,
                &transform,
                &indices,
                apply,
                nearest,
                equations,
                solve,
                decompose,
                product,
                compose,
                total,
            ),
            event,
        ),
        event is Stepped,
    ensures
        is_step(
            value,
            event->transform,
            event->error,
            problem,
            transform,
            indices@,
            nearest,
            equations,
            solve,
            decompose,
            product,
        ),
{
    law_step_follows_the_transform(
        value,
        event,
        problem,
        transform,
        indices@,
        apply,
        nearest,
        equations,
        solve,
        decompose,
        product,
        compose,
        total,
    );
}

/// `hypothesis_candidate` turns the source cloud by the matrix of the hypothesis, moves it so
/// that its mean is that of the target, and aligns it from there in at most forty iterations.
pub proof fn law_hypothesis_candidate_turns_then_centers<
    T: Scalar,
    A: Fn(&Vec<[T; 4]>, &Transform<T>) -> Vec<[T; 3]> + Copy,
    N: Fn(&Vec<[T; 3]>) -> Vec<(usize, T)> + Copy,
    Q: Fn(&Vec<[T; 6]>, &Vec<T>) -> Equations<T> + Copy,
    D: Fn(&Equations<T>) -> Option<[T; 6]> + Copy,
    B: Fn(&Equations<T>) -> Result<Decomposition<T>, String> + Copy,
    W: Fn(&Factors<T>, &Equations<T>) -> [T; 6] + Copy,
    C: Fn(&Transform<T>, &Transform<T>) -> Transform<T> + Copy,
    S: Fn(&Vec<T>) -> T + Copy,
    R: Fn(&IcpEvent<Transform<T>, T>, usize) + Copy,
>(
    value: spec_fn(T) -> real,
    hypothesis: Hypothesis,
    source_pts: Vec<[T; 3]>,
    target_pts: Vec<[T; 3]>,
    target_normals: Vec<[T; 3]>,
    apply: A,
    nearest: N,
    equations: Q,
    solve: D,
    decompose: B,
    product: W,
    compose: C,
    total: S,
    report: R,
    candidate: Candidate<T>,
)
    requires
        all_exact(value),
        multiplies_exactly(value, apply),
        0 < source_pts@.len() <= usize::MAX,
        0 < target_pts@.len() <= usize::MAX,
        call_ensures(
            hypothesis_candidate::<T, A, N, Q, D, B, W, C, S, R>,
            (
                &hypothesis,
                &source_pts,
                &target_pts,
                &target_normals,
                apply,
                nearest,
                equations,
                solve,
                decompose,
                product,
                compose,
                total,
                report,
            ),
            candidate,
        ),
    ensures
        candidate.label@ == hypothesis.label@,
        exists|centered: Seq<[T; 3]>|
            {
                &&& #[trigger] is_turned_and_centered(
                    value,
                    centered,
                    source_pts@,
                    target_pts@,
                    hypothesis.matrix,
                )
                &&& is_outcome(
                    value,
                    candidate,
                    centered,
                    target_pts@,
                    target_normals@,
                    40,
                    apply,
                    nearest,
                    equations,
                    solve,
                    decompose,
                    product,
                    compose,
                    total,
                    report,
                )
            },
{
    law_hypothesis_turns_then_centers(
        value,
        candidate,
        hypothesis,
        source_pts@,
        target_pts@,
        target_normals@,
        apply,
        nearest,
        equations,
        solve,
        decompose,
        product,
        compose,
        total,
        report,
    );
}

/// `perform_icp_point_to_plane` goes from step to step, each from the transform of the one
/// before it, until one fails, falls below the tolerance or is the last allowed, and ends with
/// what the last step came to.
pub proof fn law_alignment_takes_steps<
    T: Scalar,
    A: Fn(&Vec<[T; 4]>, &Transform<T>) -> Vec<[T; 3]> + Copy,
    N: Fn(&Vec<[T; 3]>) -> Vec<(usize, T)> + Copy,
    Q: Fn(&Vec<[T; 6]>, &Vec<T>) -> Equations<T> + Copy,
    D: Fn(&Equations<T>) -> Option<[T; 6]> + Copy,
    B: Fn(&Equations<T>) -> Result<Decomposition<T>, String> + Copy,
    W: Fn(&Factors<T>, &Equations<T>) -> [T; 6] + Copy,
    C: Fn(&Transform<T>, &Transform<T>) -> Transform<T> + Copy,
    S: Fn(&Vec<T>) -> T + Copy,
    R: Fn(&IcpEvent<Transform<T>, T>, usize) + Copy,
>(
    source_pts: Vec<[T; 3]>,
    target_pts: Vec<[T; 3]>,
    target_normals: Vec<[T; 3]>,
    initial_transform: Transform<T>,
    max_iterations: usize,
    tolerance: T,
    sample_size: usize,
    trim_percentage: T,
    apply: A,
    nearest: N,
    equations: Q,
    solve: D,
    decompose: B,
    product: W,
    compose: C,
    total: S,
    report: R,
    end: IcpState<Transform<T>, T>,
)
    requires
        functional::<T>(),
        call_ensures(
            perform_icp_point_to_plane::<T, A, N, Q, D, B, W, C, S, R>,
            (
                &source_pts,
                &target_pts,
                &target_normals,
                nearest,
                initial_transform,
                max_iterations,
                tolerance,
                sample_size,
                trim_percentage,
                apply,
                equations,
                solve,
                decompose,
                product,
                compose,
                total,
                report,
            ),
            end,
        ),
    ensures
        exists|problem: Problem<T>, events: Seq<IcpEvent<Transform<T>, T>>|
            {
                &&& #[trigger] works_on(
                    problem,
                    source_pts@,
                    target_pts@,
                    target_normals@,
                    sample_size,
                    trim_percentage,
                )
                &&& #[trigger] stands_after(
                    end,
                    initial_transform,
                    events,
                    events.len() as int,
                    max_iterations,
                    tolerance,
                )
                &&& follows_on(
                    problem,
                    initial_transform,
                    events,
                    apply,
                    nearest,
                    equations,
                    solve,
                    decompose,
                    product,
                    compose,
                    total,
                    report,
                )
            },
{
    law_alignment_goes_step_by_step(
        end,
        source_pts@,
        target_pts@,
        target_normals@,
        initial_transform,
        max_iterations,
        tolerance,
        sample_size,
        trim_percentage,
        apply,
        nearest,
        equations,
        solve,
        decompose,
        product,
        compose,
        total,
        report,
    );
}

} // verus!

use icp_practice::alignment::{
    build_system, centering_transform, centroid, homogeneous, invert_singular_values,
    orient_normal, pair_equation, pseudo_inverse_factors, relative_to, rigid_transform,
    root_mean_square, rotation_matrix, squared_residuals, transform_from_solution, Decomposition,
    Equations, Factors, SolveError,
};
use icp_practice::candidates::{
    best_of, best_result, first_alignment, identity as candidates_identity, matrix_of_numbers, no_candidate,
    original_candidate, try_hypotheses, Candidate,
};
use icp_practice::hypotheses::{create_rot_90_z_matrix, hypotheses};
use icp_practice::icp::{
    closest_indices, default_trim_percentage, find_closest_pairs_kdtree, icp_advance, icp_start,
    keep_count, reports_progress, sample_indices, select_inliers, tolerance, IcpEvent,
    IcpState, IcpStatus,
};
use icp_practice::iteration::{
    icp_iteration, icp_iteration_on, perform_icp_point_to_plane, Problem,
};
use icp_practice::operate_pcd::{PointXYZ, Points};
use icp_practice::registration::{
    calculate_mean_pt_to_plane_error, calculate_normals, calculate_transformation_pt_to_plane,
    registration_pcd_center, solve_equations,
};
use icp_practice::scalar::{dot3, less, minus3, sum3, Scalar};
use icp_practice::trajectory::{
    bounding_box, plane_series, view_window, Bounds, PoseData, TrajectoryError,
};
use icp_practice::voxelization::{
    accumulate, chunk_bounds, collect_chunks, counts_fit, lower_corner, merge_stats,
    voxel_downsample_array2, voxel_downsample_by, voxel_keys, voxel_means, CHUNK_SIZE,
};
use std::cell::RefCell;

#[derive(Clone, Copy, Debug, PartialEq)]
struct F(f64);

impl Scalar for F {
    fn plus(self, other: Self) -> Self {
        F(self.0 + other.0)
    }
    fn minus(self, other: Self) -> Self {
        F(self.0 - other.0)
    }
    fn times(self, other: Self) -> Self {
        F(self.0 * other.0)
    }
    fn over(self, other: Self) -> Self {
        F(self.0 / other.0)
    }
    fn negated(self) -> Self {
        F(-self.0)
    }
    fn magnitude(self) -> Self {
        F(self.0.abs())
    }
    fn square_root(self) -> Self {
        F(self.0.sqrt())
    }
    fn sine(self) -> Self {
        F(self.0.sin())
    }
    fn cosine(self) -> Self {
        F(self.0.cos())
    }
    fn ratio(num: i32, den: u32) -> Self {
        F(num as f64 / den as f64)
    }
    fn from_count(n: usize) -> Self {
        F(n as f64)
    }
    fn to_count(self) -> usize {
        self.0 as usize
    }
    fn floor_index(self) -> u32 {
        self.0.floor() as u32
    }
    fn infinity() -> Self {
        F(f64::INFINITY)
    }
    fn largest() -> Self {
        F(f64::MAX)
    }
    fn to_bits(self) -> u64 {
        if self.0.is_nan() { f64::NAN.to_bits() } else { self.0.to_bits() }
    }
}

fn v(x: f64, y: f64, z: f64) -> [F; 3] {
    [F(x), F(y), F(z)]
}

fn near(a: f64, b: f64) -> bool {
    (a - b).abs() < 1e-9
}

type Tf = [[F; 4]; 4];

fn identity() -> Tf {
    rigid_transform([v(1.0, 0.0, 0.0), v(0.0, 1.0, 0.0), v(0.0, 0.0, 1.0)], v(0.0, 0.0, 0.0))
}

fn apply(rows: &Vec<[F; 4]>, m: &Tf) -> Vec<[F; 3]> {
    rows.iter()
        .map(|p| {
            let mut out = v(0.0, 0.0, 0.0);
            for i in 0..3 {
                for k in 0..4 {
                    out[i] = F(out[i].0 + m[i][k].0 * p[k].0);
                }
            }
            out
        })
        .collect()
}

fn compose(a: &Tf, b: &Tf) -> Tf {
    let mut out = [[F(0.0); 4]; 4];
    for i in 0..4 {
        for j in 0..4 {
            for k in 0..4 {
                out[i][j] = F(out[i][j].0 + a[i][k].0 * b[k][j].0);
            }
        }
    }
    out
}

fn total(numbers: &Vec<F>) -> F {
    F(numbers.iter().map(|x| x.0).sum())
}

fn equations(rows: &Vec<[F; 6]>, rhs: &Vec<F>) -> Equations<F> {
    let mut normal = Equations { matrix: [[F(0.0); 6]; 6], rhs: [F(0.0); 6] };
    for (row, b) in rows.iter().zip(rhs) {
        for i in 0..6 {
            for j in 0..6 {
                normal.matrix[i][j] = F(normal.matrix[i][j].0 + row[i].0 * row[j].0);
            }
            normal.rhs[i] = F(normal.rhs[i].0 + row[i].0 * b.0);
        }
    }
    normal
}

/// Solves the equations by elimination with pivots.
fn solve(normal: &Equations<F>) -> Option<[F; 6]> {
    let mut m = [[0.0f64; 7]; 6];
    for i in 0..6 {
        for j in 0..6 {
            m[i][j] = normal.matrix[i][j].0;
        }
        m[i][6] = normal.rhs[i].0;
    }
    for c in 0..6 {
        let mut pivot = c;
        for r in c..6 {
            if m[r][c].abs() > m[pivot][c].abs() {
                pivot = r;
            }
        }
        if m[pivot][c].abs() < 1e-12 {
            return None;
        }
        m.swap(c, pivot);
        for r in 0..6 {
            if r != c {
                let f = m[r][c] / m[c][c];
                for j in c..7 {
                    m[r][j] -= f * m[c][j];
                }
            }
        }
    }
    let mut x = [F(0.0); 6];
    for i in 0..6 {
        x[i] = F(m[i][6] / m[i][i]);
    }
    Some(x)
}

#[test]
fn thresholds_equal_their_decimal_forms() {
    assert_eq!(F::ratio(1, 1_000_000_000), F(1e-9));
    assert_eq!(F::ratio(1, 1_000_000), F(1e-6));
    assert_eq!(F::ratio(15, 1000), F(0.015));
    assert_eq!(tolerance::<F>(), F(0.015));
    assert_eq!(default_trim_percentage::<F>(), F(1.0));
}

#[test]
fn vectors_are_added_and_multiplied() {
    assert_eq!(sum3(v(1.0, 2.0, 4.0)), F(7.0));
    assert_eq!(dot3(v(1.0, 2.0, 3.0), v(4.0, -5.0, 6.0)), F(12.0));
    assert_eq!(minus3(v(1.0, 2.0, 3.0), v(4.0, 4.0, 4.0)), v(-3.0, -2.0, -1.0));
    assert!(less(F(-1.0), F(2.0)));
    assert!(!less(F(f64::NAN), F(2.0)));
}

#[test]
fn centroids_are_means() {
    assert_eq!(centroid(&vec![v(0.0, 0.0, 3.0), v(2.0, 4.0, -3.0)]), Some(v(1.0, 2.0, 0.0)));
    assert_eq!(centroid(&Vec::<[F; 3]>::new()), None);
}

#[test]
fn centering_moves_one_centroid_onto_the_other() {
    let m = centering_transform(v(1.0, 2.0, 3.0), v(4.0, 4.0, 4.0));
    assert_eq!(m[0], [F(1.0), F(0.0), F(0.0), F(3.0)]);
    assert_eq!(m[1], [F(0.0), F(1.0), F(0.0), F(2.0)]);
    assert_eq!(m[2], [F(0.0), F(0.0), F(1.0), F(1.0)]);
    assert_eq!(m[3], [F(0.0), F(0.0), F(0.0), F(1.0)]);
    let source = vec![v(0.0, 0.0, 0.0), v(2.0, 0.0, 0.0)];
    let target = vec![v(5.0, 5.0, 5.0)];
    let (transform, moved) = registration_pcd_center(&source, &target, apply);
    assert_eq!(transform[0][3], F(4.0));
    assert_eq!(moved, vec![v(4.0, 5.0, 5.0), v(6.0, 5.0, 5.0)]);
    assert_eq!(centroid(&moved), Some(v(5.0, 5.0, 5.0)));
}

#[test]
fn homogeneous_points_end_in_one() {
    assert_eq!(homogeneous(&vec![v(1.0, 2.0, 3.0)]), vec![[F(1.0), F(2.0), F(3.0), F(1.0)]]);
    assert_eq!(relative_to(&vec![v(1.0, 2.0, 3.0)], v(1.0, 1.0, 1.0)), vec![v(0.0, 1.0, 2.0)]);
}

#[test]
fn pairs_give_equations() {
    let (row, distance) = pair_equation(v(1.0, 2.0, 3.0), v(2.0, 2.0, 5.0), v(0.0, 0.5, 1.0));
    assert_eq!(row, [F(0.5), F(-1.0), F(0.5), F(0.0), F(0.5), F(1.0)]);
    assert_eq!(distance, F(2.0));
    let (rows, rhs) = build_system(
        &vec![v(1.0, 2.0, 3.0)],
        &vec![v(2.0, 2.0, 5.0)],
        &vec![v(0.0, 0.5, 1.0)],
    );
    assert_eq!((rows, rhs), (vec![row], vec![distance]));
}

#[test]
fn small_rotations_are_linear() {
    let r = rotation_matrix(v(1e-10, 2e-10, 3e-10));
    assert_eq!(r[0], v(1.0, -3e-10, 2e-10));
    assert_eq!(r[1], v(3e-10, 1.0, -1e-10));
    assert_eq!(r[2], v(-2e-10, 1e-10, 1.0));
}

#[test]
fn a_quarter_turn_takes_x_to_y() {
    let r = rotation_matrix(v(0.0, 0.0, std::f64::consts::FRAC_PI_2));
    let expected = [[0.0, -1.0, 0.0], [1.0, 0.0, 0.0], [0.0, 0.0, 1.0]];
    for i in 0..3 {
        for j in 0..3 {
            assert!(near(r[i][j].0, expected[i][j]));
        }
    }
}

#[test]
fn rotations_keep_lengths() {
    let r = rotation_matrix(v(0.3, -1.1, 0.7));
    for i in 0..3 {
        for j in 0..3 {
            let dot: f64 = (0..3).map(|k| r[i][k].0 * r[j][k].0).sum();
            assert!(near(dot, if i == j { 1.0 } else { 0.0 }));
        }
    }
    let theta = (0.3f64 * 0.3 + -1.1 * -1.1 + 0.7 * 0.7).sqrt();
    let trace = r[0][0].0 + r[1][1].0 + r[2][2].0;
    assert!(near(trace, 1.0 + 2.0 * theta.cos()));
}

#[test]
fn solutions_become_transforms() {
    let m = transform_from_solution([F(0.0), F(0.0), F(0.0), F(1.0), F(2.0), F(3.0)]);
    assert_eq!(m[0], [F(1.0), F(-0.0), F(0.0), F(1.0)]);
    assert_eq!(m[2][3], F(3.0));
    assert_eq!(m[3], [F(0.0), F(0.0), F(0.0), F(1.0)]);
}

#[test]
fn tiny_singular_values_are_dropped() {
    let r = invert_singular_values(&[F(4.0), F(-0.5), F(1e-6), F(-1e-7), F(0.0), F(1.0)]);
    assert_eq!(r, [F(0.25), F(-2.0), F(0.0), F(0.0), F(0.0), F(1.0)]);
}

fn parts(left: Option<[[F; 6]; 6]>, right: Option<[[F; 6]; 6]>) -> Decomposition<F> {
    Decomposition { left, values: [F(4.0); 6], right }
}

#[test]
fn decompositions_can_be_incomplete() {
    let (u, w) = ([[F(1.0); 6]; 6], [[F(2.0); 6]; 6]);
    let failed: Result<Decomposition<F>, String> = Err("Lapack { return_code: 1 }".to_string());
    let error = pseudo_inverse_factors(failed).unwrap_err();
    assert_eq!(error.message(), "SVD failed: Lapack { return_code: 1 }");
    assert_eq!(
        error,
        SolveError::Decomposition { detail: "Lapack { return_code: 1 }".to_string() }
    );
    let none = pseudo_inverse_factors(Ok(parts(None, None))).unwrap_err();
    assert_eq!(none, SolveError::MissingLeft);
    let left = pseudo_inverse_factors(Ok(parts(None, Some(w)))).unwrap_err();
    assert_eq!(left, SolveError::MissingLeft);
    let right = pseudo_inverse_factors(Ok(parts(Some(u), None))).unwrap_err();
    assert_eq!(right, SolveError::MissingRight);
    let factors = pseudo_inverse_factors(Ok(parts(Some(u), Some(w)))).unwrap();
    assert_eq!((factors.left, factors.values, factors.right), (u, [F(0.25); 6], w));
    assert_eq!(SolveError::MissingLeft.message(), "SVD failed: U matrix is None");
    assert_eq!(SolveError::MissingRight.message(), "SVD failed: Vt matrix is None");
}

#[test]
fn errors_are_root_mean_squares() {
    let moved = vec![v(0.0, 0.0, 0.0), v(0.0, 0.0, 1.0)];
    let targets = vec![v(9.0, 0.0, 3.0), v(0.0, 0.0, 5.0)];
    let normals = vec![v(0.0, 0.0, 1.0), v(0.0, 0.0, 1.0)];
    assert_eq!(squared_residuals(&moved, &targets, &normals), vec![F(9.0), F(16.0)]);
    assert_eq!(root_mean_square(F(25.0), 4), F(2.5));
    let error =
        calculate_mean_pt_to_plane_error(&moved, &targets, &normals, &identity(), apply, total);
    assert_eq!(error, F((25.0f64 / 2.0).sqrt()));
}

#[test]
fn normals_face_the_viewpoint() {
    let up = orient_normal(v(0.0, 0.0, 2.0), v(0.0, 0.0, -1.0), v(0.0, 0.0, 0.0));
    assert_eq!(up, v(0.0, 0.0, 1.0));
    let down = orient_normal(v(0.0, 0.0, 2.0), v(0.0, 0.0, 1.0), v(0.0, 0.0, 0.0));
    assert_eq!(down, v(0.0, 0.0, -1.0));
    let none = orient_normal(v(0.0, 0.0, 1e-10), v(0.0, 0.0, -1.0), v(0.0, 0.0, 0.0));
    assert_eq!(none, v(0.0, 0.0, 0.0));
}

#[test]
fn normals_come_from_neighbours() {
    let pts = vec![v(0.0, 0.0, 5.0), v(2.0, 0.0, 5.0), v(0.0, 2.0, 5.0)];
    let asked = RefCell::new(Vec::new());
    let search = |p: &[F; 3], amount: usize| {
        asked.borrow_mut().push((*p, amount));
        if p[0].0 == 2.0 { vec![1, 2, 0] } else { vec![0, 1] }
    };
    let least = |relative: &Vec<[F; 3]>| v(0.0, relative[0][0].0 * 0.0, relative.len() as f64);
    let normals = calculate_normals(&pts, search, least, v(0.0, 0.0, 0.0));
    assert_eq!(*asked.borrow(), vec![(pts[0], 15), (pts[1], 15), (pts[2], 15)]);
    assert_eq!(normals.len(), 3);
    for n in normals {
        assert_eq!((n[0].0, n[2].0), (0.0, -1.0));
    }
}

#[test]
fn the_fallback_is_asked_only_when_needed() {
    let pts = vec![v(1.0, 0.0, 0.0)];
    let x = [F(0.0), F(0.0), F(0.0), F(7.0), F(0.0), F(0.0)];
    let seen = |rows: &Vec<[F; 6]>, rhs: &Vec<F>| {
        assert_eq!(rows[0], [F(0.0), F(0.0), F(0.0), F(1.0), F(0.0), F(0.0)]);
        assert_eq!(*rhs, vec![F(0.0)]);
        equations(rows, rhs)
    };
    let direct = calculate_transformation_pt_to_plane(
        &pts,
        &pts,
        &pts,
        seen,
        |_: &Equations<F>| Some(x),
        |_: &Equations<F>| panic!("not needed"),
        no_product,
    );
    assert_eq!(direct.unwrap()[0][3], F(7.0));
    let fallback = calculate_transformation_pt_to_plane(
        &pts,
        &pts,
        &pts,
        seen,
        |_: &Equations<F>| None,
        |normal: &Equations<F>| {
            assert_eq!(normal.matrix[3][3], F(1.0));
            Ok(parts(Some([[F(1.0); 6]; 6]), Some([[F(2.0); 6]; 6])))
        },
        |factors: &Factors<F>, normal: &Equations<F>| {
            assert_eq!((factors.values[0], factors.left[0][0]), (F(0.25), F(1.0)));
            assert_eq!((factors.right[0][0], normal.matrix[3][3]), (F(2.0), F(1.0)));
            x
        },
    );
    assert_eq!(fallback.unwrap()[0][3], F(7.0));
    let failed = calculate_transformation_pt_to_plane(
        &pts,
        &pts,
        &pts,
        seen,
        |_: &Equations<F>| None,
        |_: &Equations<F>| Ok(parts(None, None)),
        no_product,
    );
    assert!(matches!(failed, Err(SolveError::MissingLeft)));
}

#[test]
fn equations_are_solved_directly_or_by_factors() {
    let mut normal = Equations { matrix: [[F(0.0); 6]; 6], rhs: [F(6.0); 6] };
    for i in 0..6 {
        normal.matrix[i][i] = F(2.0);
    }
    let direct = solve_equations(&normal, solve, no_factors, no_product);
    assert_eq!(direct, Ok([F(3.0); 6]));
    let none = solve_equations(&normal, |_: &Equations<F>| None, no_factors, no_product);
    assert_eq!(none, Err(SolveError::MissingRight));
    let failed = solve_equations(
        &normal,
        |_: &Equations<F>| None,
        |_: &Equations<F>| Err("why".to_string()),
        no_product,
    );
    assert_eq!(failed.unwrap_err().message(), "SVD failed: why");
}

#[test]
fn nothing_to_fit_leaves_everything_in_place() {
    let (points, normals) = grid();
    let m = calculate_transformation_pt_to_plane(
        &points,
        &points,
        &normals,
        equations,
        solve,
        no_factors,
        no_product,
    );
    assert_eq!(m.unwrap(), identity());
    let none: Vec<[F; 3]> = Vec::new();
    let m = calculate_transformation_pt_to_plane(
        &none,
        &none,
        &none,
        equations,
        solve,
        |_: &Equations<F>| Ok(parts(Some([[F(1.0); 6]; 6]), Some([[F(1.0); 6]; 6]))),
        |_: &Factors<F>, normal: &Equations<F>| normal.rhs,
    );
    assert_eq!(m.unwrap(), identity());
}

#[test]
fn the_orientation_of_normals_leaves_fit_and_error() {
    let (points, normals) = grid();
    let source = shifted(&points);
    let flipped: Vec<[F; 3]> = normals
        .iter()
        .enumerate()
        .map(|(i, n)| if i % 3 == 0 { v(-n[0].0, -n[1].0, -n[2].0) } else { *n })
        .collect();
    let fit = |normals: &Vec<[F; 3]>| {
        calculate_transformation_pt_to_plane(
            &source, &points, normals, equations, solve, no_factors, no_product,
        )
        .unwrap()
    };
    let delta = fit(&normals);
    assert_eq!(delta, fit(&flipped));
    let slid: Vec<[F; 3]> = points
        .iter()
        .zip(&normals)
        .map(|(p, n)| v(p[0].0 + n[1].0 * 4.0, p[1].0 + n[2].0 * 2.0, p[2].0 + n[0].0 * 8.0))
        .collect();
    let error = |targets: &Vec<[F; 3]>, normals: &Vec<[F; 3]>| {
        calculate_mean_pt_to_plane_error(&source, targets, normals, &delta, apply, total)
    };
    assert_eq!(error(&points, &normals), error(&points, &flipped));
    assert!(near(error(&points, &normals).0, error(&slid, &flipped).0));
}

#[test]
fn centering_twice_moves_nothing_more() {
    let source = vec![v(1.0, 2.0, 3.0), v(3.0, 6.0, -1.0)];
    let target = vec![v(0.0, 8.0, 0.0), v(4.0, 0.0, 2.0)];
    let (_, centered) = registration_pcd_center(&source, &target, apply);
    assert_eq!(centroid(&centered), centroid(&target));
    assert_eq!(minus3(centered[0], centered[1]), minus3(source[0], source[1]));
    let (m, again) = registration_pcd_center(&centered, &target, apply);
    assert_eq!((m, again), (identity(), centered));
}

#[test]
fn an_alignment_ends_in_a_rigid_transform() {
    let source: Vec<[F; 3]> = grid()
        .0
        .iter()
        .map(|p| v(p[0].0 + 0.02 * p[1].0, p[1].0 - 0.02 * p[0].0, p[2].0 + 0.05))
        .collect();
    let m = aligned_from(&source, identity(), 7, F(-1.0)).transform;
    assert_eq!(m[3], [F(0.0), F(0.0), F(0.0), F(1.0)]);
    let row = |i: usize| [m[i][0].0, m[i][1].0, m[i][2].0];
    for i in 0..3 {
        let (a, b, c) = (row(i), row((i + 1) % 3), row((i + 2) % 3));
        for j in 0..3 {
            let dot: f64 = (0..3).map(|k| a[k] * row(j)[k]).sum();
            assert!((dot - if i == j { 1.0 } else { 0.0 }).abs() < 1e-12);
            let (k, l) = ((j + 1) % 3, (j + 2) % 3);
            assert!((a[k] * b[l] - a[l] * b[k] - c[j]).abs() < 1e-12);
        }
    }
    assert!(m[0][1].0.abs() > 1e-3);
}

#[test]
fn the_first_alignment_is_prepared_and_made() {
    let (target, normals) = grid();
    let source = shifted(&target);
    let told = RefCell::new(0);
    let found = first_alignment(
        &source,
        &target,
        |p: &[F; 3], amount: usize| {
            assert_eq!(amount, 15);
            vec![target.iter().position(|q| q == p).unwrap()]
        },
        |_: &Vec<[F; 3]>| v(0.0, 0.0, 2.0),
        apply,
        |p: &Vec<[F; 3]>| nearest_in(&target, p),
        equations,
        solve,
        no_factors,
        no_product,
        compose,
        total,
        |_: &Event, i: usize| assert!(i < 20),
        |centered: &Vec<[F; 3]>, normals: &Vec<[F; 3]>| {
            assert_eq!(centered.len(), normals.len());
            *told.borrow_mut() += 1;
        },
    );
    assert_eq!(*told.borrow(), 1);
    assert_eq!(found.0, registration_pcd_center(&source, &target, apply).1);
    assert_eq!(found.1.len(), normals.len());
    for (n, p) in found.1.iter().zip(&target) {
        assert_eq!(n[2].0, if p[2].0 > 0.0 { -1.0 } else { 1.0 });
    }
    assert_eq!(found.2.label, "Original");
    assert_eq!(found.2.points.len(), source.len());
}

#[test]
fn small_clouds_are_sampled_whole() {
    assert_eq!(sample_indices(4, 4), vec![0, 1, 2, 3]);
    assert_eq!(sample_indices(0, 4), Vec::<usize>::new());
}

#[test]
fn large_clouds_are_sampled_without_repetition() {
    let sample = sample_indices(1000, 50);
    assert_eq!(sample.len(), 50);
    let mut sorted = sample.clone();
    sorted.sort();
    sorted.dedup();
    assert_eq!(sorted.len(), 50);
    assert!(sorted[49] < 1000);
    let other = sample_indices(1000, 50);
    assert!(sample != (0..50).collect::<Vec<usize>>() || other != (0..50).collect::<Vec<usize>>());
}

#[test]
fn matches_are_split() {
    let (points, indices, distances) =
        find_closest_pairs_kdtree(&vec![(2, 0.5), (0, 0.25)], &vec!['a', 'b', 'c']);
    assert_eq!(points, vec!['c', 'a']);
    assert_eq!(indices, vec![2, 0]);
    assert_eq!(distances, vec![0.5, 0.25]);
}

#[test]
fn shares_are_cut_down_to_whole_pairs() {
    assert_eq!(keep_count(10, F(0.79)), 7);
    assert_eq!(keep_count(10, F(1.0)), 10);
    assert_eq!(keep_count(10, F(-1.0)), 0);
}

#[test]
fn the_closest_pairs_are_kept() {
    let bits: Vec<u64> = [3.0f64, 1.0, 2.0, 1.0, f64::INFINITY].iter().map(|d| d.to_bits()).collect();
    assert_eq!(closest_indices(&bits, 3), vec![1, 3, 2]);
    assert_eq!(closest_indices(&bits, 9), vec![1, 3, 2, 0, 4]);
    assert_eq!(closest_indices(&bits, 0), Vec::<usize>::new());
}

#[test]
fn inliers_are_picked_pair_by_pair() {
    let inliers = select_inliers(
        &vec!['a', 'b', 'c'],
        &vec!['A', 'B', 'C'],
        &vec![4, 0, 2],
        &vec!['0', '1', '2', '3', '4'],
        &vec![2, 0],
    );
    assert_eq!(inliers.sources, vec!['c', 'a']);
    assert_eq!(inliers.targets, vec!['C', 'A']);
    assert_eq!(inliers.normals, vec!['2', '4']);
}

#[test]
fn the_first_and_every_fifth_iteration_are_reported() {
    let reported: Vec<usize> = (0..16).filter(|i| reports_progress(*i)).collect();
    assert_eq!(reported, vec![0, 4, 9, 14]);
}

#[test]
fn iterations_end_by_convergence() {
    let state: IcpState<u8, F> = icp_start(0, 3);
    assert_eq!(state.status, IcpStatus::Running);
    assert_eq!(state.last_error, F(f64::MAX));
    let event = IcpEvent::Stepped { transform: 1, error: F(0.5) };
    let state = icp_advance(state, event, 3, F(0.015));
    assert_eq!((state.status, state.iteration), (IcpStatus::Running, 1));
    let event = IcpEvent::Stepped { transform: 2, error: F(0.01) };
    let state = icp_advance(state, event, 3, F(0.015));
    assert_eq!((state.status, state.iteration), (IcpStatus::Converged, 1));
    assert_eq!((state.transform, state.last_error), (2, F(0.01)));
}

#[test]
fn a_failed_solver_keeps_the_last_result() {
    let state: IcpState<u8, F> = icp_start(0, 3);
    let event = IcpEvent::Stepped { transform: 1, error: F(0.5) };
    let state = icp_advance(state, event, 3, F(0.015));
    let event = IcpEvent::SolverFailed { reason: SolveError::MissingLeft };
    let state = icp_advance(state, event, 3, F(0.015));
    assert_eq!(state.status, IcpStatus::SolverFailed);
    assert_eq!((state.transform, state.last_error), (1, F(0.5)));
}

fn grid() -> (Vec<[F; 3]>, Vec<[F; 3]>) {
    let mut points = Vec::new();
    let mut normals = Vec::new();
    for i in 0..6 {
        for j in 0..6 {
            let (a, b) = (i as f64, j as f64);
            points.push(v(a, b, 0.0));
            normals.push(v(0.0, 0.0, 1.0));
            points.push(v(a, -3.0, b + 3.0));
            normals.push(v(0.0, 1.0, 0.0));
            points.push(v(-4.0, a, b + 2.5));
            normals.push(v(1.0, 0.0, 0.0));
        }
    }
    (points, normals)
}

fn nearest_in(targets: &Vec<[F; 3]>, points: &Vec<[F; 3]>) -> Vec<(usize, F)> {
    points
        .iter()
        .map(|p| {
            let mut best = (0, F(f64::INFINITY));
            for (i, t) in targets.iter().enumerate() {
                let d: f64 = (0..3).map(|k| (p[k].0 - t[k].0) * (p[k].0 - t[k].0)).sum();
                if d < best.1 .0 {
                    best = (i, F(d));
                }
            }
            best
        })
        .collect()
}

fn no_factors(_: &Equations<F>) -> Result<Decomposition<F>, String> {
    Ok(parts(Some([[F(1.0); 6]; 6]), None))
}

fn no_product(_: &Factors<F>, _: &Equations<F>) -> [F; 6] {
    panic!("there are no factors")
}

type Event = IcpEvent<Tf, F>;

fn shifted(points: &[[F; 3]]) -> Vec<[F; 3]> {
    points.iter().map(|p| v(p[0].0 + 0.1, p[1].0 - 0.15, p[2].0 + 0.05)).collect()
}

fn undoes_shift(m: &Tf) -> bool {
    let expected = [-0.1, 0.15, -0.05];
    (0..3).all(|i| {
        (m[i][3].0 - expected[i]).abs() < 1e-6 && (m[i][i].0 - 1.0).abs() < 1e-6
    })
}

#[test]
fn an_alignment_recovers_a_small_move() {
    let (points, normals) = grid();
    let source = shifted(&points);
    let seen = RefCell::new(Vec::new());
    let end = perform_icp_point_to_plane(
        &source,
        &points,
        &normals,
        |p: &Vec<[F; 3]>| nearest_in(&points, p),
        identity(),
        20,
        F(1e-6),
        7200,
        F(1.0),
        apply,
        equations,
        solve,
        no_factors,
        no_product,
        compose,
        total,
        |event: &Event, i: usize| {
            assert!(matches!(event, IcpEvent::Stepped { .. }));
            seen.borrow_mut().push(i);
        },
    );
    assert_eq!(end.status, IcpStatus::Converged);
    assert!(end.last_error.0 < 1e-6);
    assert!(undoes_shift(&end.transform));
    assert_eq!(*seen.borrow(), (0..end.iteration + 1).collect::<Vec<usize>>());
}

#[test]
fn an_alignment_uses_up_its_iterations() {
    let (points, normals) = grid();
    let source = shifted(&points);
    for max_iterations in [0, 1, 3] {
        let seen = RefCell::new(0);
        let end = perform_icp_point_to_plane(
            &source,
            &points,
            &normals,
            |p: &Vec<[F; 3]>| nearest_in(&points, p),
            identity(),
            max_iterations,
            F(-1.0),
            90,
            F(1.0),
            apply,
            equations,
            solve,
            no_factors,
            no_product,
            compose,
            total,
            |_: &Event, _: usize| *seen.borrow_mut() += 1,
        );
        assert_eq!((end.status, end.iteration), (IcpStatus::Exhausted, max_iterations));
        assert_eq!(*seen.borrow(), max_iterations);
        if max_iterations == 0 {
            assert_eq!(end.transform, identity());
            assert_eq!(end.last_error, F(f64::MAX));
        }
    }
}

#[test]
fn an_alignment_ends_at_an_unsolvable_iteration() {
    let points = vec![v(0.0, 0.0, 0.0), v(1.0, 0.0, 0.0)];
    let normals = vec![v(0.0, 0.0, 1.0), v(0.0, 0.0, 1.0)];
    let seen = RefCell::new(0);
    let end = perform_icp_point_to_plane(
        &points,
        &points,
        &normals,
        |p: &Vec<[F; 3]>| nearest_in(&points, p),
        identity(),
        20,
        F(0.015),
        7200,
        F(1.0),
        apply,
        equations,
        solve,
        no_factors,
        no_product,
        compose,
        total,
        |event: &Event, i: usize| {
            assert_eq!(i, 0);
            assert!(matches!(event, IcpEvent::SolverFailed { reason: SolveError::MissingRight }));
            *seen.borrow_mut() += 1;
        },
    );
    assert_eq!((end.status, end.iteration), (IcpStatus::SolverFailed, 0));
    assert_eq!((end.transform, end.last_error), (identity(), F(f64::MAX)));
    assert_eq!(*seen.borrow(), 1);
}

#[test]
fn only_a_sample_takes_part_in_an_iteration() {
    let points = vec![v(0.0, 0.0, 0.0), v(1.0, 0.0, 0.0)];
    let normals = vec![v(0.0, 0.0, 1.0), v(0.0, 0.0, 1.0)];
    let problem = Problem {
        source_rows: homogeneous(&points),
        target_pts: &points,
        target_normals: &normals,
        sample_size: 1,
        trim_percentage: F(1.0),
    };
    let event = icp_iteration(
        &problem,
        &identity(),
        apply,
        |p: &Vec<[F; 3]>| {
            assert_eq!(p.len(), 1);
            nearest_in(&points, p)
        },
        equations,
        solve,
        no_factors,
        no_product,
        compose,
        total,
    );
    assert!(matches!(event, IcpEvent::SolverFailed { reason: SolveError::MissingRight }));
}

#[test]
fn an_iteration_takes_the_points_that_are_drawn() {
    let (points, normals) = grid();
    let source = shifted(&points);
    let problem = Problem {
        source_rows: homogeneous(&source),
        target_pts: &points,
        target_normals: &normals,
        sample_size: 7,
        trim_percentage: F(1.0),
    };
    let indices: Vec<usize> = (0..source.len()).rev().filter(|i| i % 3 != 1 || i % 2 == 0).collect();
    let drawn: Vec<[F; 3]> = indices.iter().map(|i| source[*i]).collect();
    let part = Problem {
        source_rows: homogeneous(&drawn),
        target_pts: &points,
        target_normals: &normals,
        sample_size: 7200,
        trim_percentage: F(1.0),
    };
    let nearest = |p: &Vec<[F; 3]>| nearest_in(&points, p);
    let on_sample = icp_iteration_on(
        &problem,
        &identity(),
        &indices,
        apply,
        nearest,
        equations,
        solve,
        no_factors,
        no_product,
        compose,
        total,
    );
    let on_part =
        icp_iteration(
            &part, &identity(), apply, nearest, equations, solve, no_factors, no_product, compose, total,
        );
    match (on_sample, on_part) {
        (
            IcpEvent::Stepped { transform: a, error: e },
            IcpEvent::Stepped { transform: b, error: f },
        ) => assert_eq!((a, e), (b, f)),
        _ => panic!("both steps can be made"),
    }
}

fn aligned_from(
    source: &Vec<[F; 3]>,
    start: Tf,
    max_iterations: usize,
    tolerance: F,
) -> IcpState<Tf, F> {
    let (points, normals) = grid();
    perform_icp_point_to_plane(
        source,
        &points,
        &normals,
        |p: &Vec<[F; 3]>| nearest_in(&points, p),
        start,
        max_iterations,
        tolerance,
        7200,
        F(0.9),
        apply,
        equations,
        solve,
        no_factors,
        no_product,
        compose,
        total,
        |_: &Event, _: usize| {},
    )
}

#[test]
fn a_larger_limit_changes_no_converged_alignment() {
    let source = shifted(&grid().0);
    let a = aligned_from(&source, identity(), 15, F(1e-6));
    let b = aligned_from(&source, identity(), 40, F(1e-6));
    assert_eq!((a.status, b.status), (IcpStatus::Converged, IcpStatus::Converged));
    assert_eq!((a.transform, a.last_error), (b.transform, b.last_error));
}

#[test]
fn alignments_compose() {
    let source = shifted(&grid().0);
    let middle = aligned_from(&source, identity(), 2, F(-1.0));
    let end = aligned_from(&source, middle.transform, 3, F(-1.0));
    let whole = aligned_from(&source, identity(), 5, F(-1.0));
    assert_eq!((whole.transform, whole.last_error), (end.transform, end.last_error));
    assert_eq!((whole.status, whole.iteration), (IcpStatus::Exhausted, 5));
}

#[test]
fn an_empty_source_needs_no_target() {
    let none: Vec<[F; 3]> = Vec::new();
    let end = perform_icp_point_to_plane(
        &none,
        &none,
        &none,
        |p: &Vec<[F; 3]>| {
            assert!(p.is_empty());
            Vec::new()
        },
        identity(),
        3,
        F(0.015),
        7200,
        F(1.0),
        apply,
        equations,
        |_: &Equations<F>| None,
        no_factors,
        no_product,
        compose,
        total,
        |_: &Event, _: usize| {},
    );
    assert_eq!(end.status, IcpStatus::SolverFailed);
}

fn narrowed(x: F) -> f32 {
    x.0 as f32
}

#[test]
fn clouds_are_moved_by_a_transform() {
    let points = vec![PointXYZ { x: 1.0f32, y: 2.0, z: 3.0 }, PointXYZ { x: 0.0, y: 0.5, z: -1.0 }];
    let mut cloud = Points::new(points);
    let turn: Tf = matrix_of_numbers(create_rot_90_z_matrix());
    let mut m = turn;
    m[0][3] = F(10.0);
    let product = |m: &Tf, row: &[F; 4]| {
        assert_eq!(row[3], F(1.0));
        let mut r = [F(0.0); 4];
        for i in 0..4 {
            r[i] = F((0..4).map(|k| m[i][k].0 * row[k].0).sum());
        }
        r
    };
    cloud.apply_transform(&m, |x: f32| F(x as f64), product, narrowed);
    let moved: Vec<(f32, f32, f32)> = cloud.points.iter().map(|p| (p.x, p.y, p.z)).collect();
    assert_eq!(moved, vec![(8.0, 1.0, 3.0), (9.5, 0.0, -1.0)]);
}

#[test]
fn the_order_of_points_changes_no_cell() {
    let points: Vec<[F; 3]> =
        (0..500).map(|i| v((i % 7) as f64, ((i * i) % 11) as f64, (i % 3) as f64 * 0.5)).collect();
    let mut other = points.clone();
    other.reverse();
    other.swap(3, 77);
    let rows = sorted(voxel_downsample_array2(&points, F(2.0)));
    assert_eq!(rows, sorted(voxel_downsample_array2(&other, F(2.0))));
}

#[test]
fn chunks_may_be_collected_elsewhere() {
    let points: Vec<[F; 3]> = (0..20_001).map(|i| v((i % 9) as f64, 0.0, 0.0)).collect();
    let asked = RefCell::new(Vec::new());
    let rows = voxel_downsample_by(
        &points,
        F(3.0),
        |points: &Vec<[F; 3]>, keys: &Vec<u64>, bounds: &Vec<(usize, usize)>| {
            asked.borrow_mut().extend(bounds.iter().copied());
            collect_chunks(points, keys, bounds)
        },
    );
    assert_eq!(*asked.borrow(), vec![(0, 10_000), (10_000, 20_000), (20_000, 20_001)]);
    assert_eq!(sorted(rows), sorted(voxel_downsample_array2(&points, F(3.0))));
}

#[test]
fn small_counts_fit() {
    assert!(counts_fit(&vec![]));
    assert!(counts_fit(&vec![1, 2, 1, 1, 3]));
}

#[test]
fn matrices_of_whole_numbers_become_transforms() {
    let m: Tf = matrix_of_numbers(create_rot_90_z_matrix());
    let moved = apply(&homogeneous(&vec![v(1.0, 2.0, 3.0)]), &m);
    assert_eq!(moved, vec![v(-2.0, 1.0, 3.0)]);
    let same: Tf = candidates_identity();
    assert_eq!(same, identity());
}

#[test]
fn hypotheses_are_tried_after_the_original() {
    let (target, normals) = grid();
    let mirrored: Vec<[F; 3]> =
        target.iter().map(|p| v(p[0].0 + 0.1, -p[1].0 - 0.15, p[2].0 + 0.05)).collect();
    let nearest = |p: &Vec<[F; 3]>| nearest_in(&target, p);
    let report = |_: &Event, i: usize| assert!(i < 40);
    let (_, centered) = registration_pcd_center(&mirrored, &target, apply);
    let original = original_candidate(
        &centered,
        &target,
        &normals,
        apply,
        nearest,
        equations,
        solve,
        no_factors,
        no_product,
        compose,
        total,
        report,
    );
    assert_eq!(original.label, "Original");
    assert_eq!(original.points, apply(&homogeneous(&centered), &original.transform));
    let announced = RefCell::new(Vec::new());
    let candidates = try_hypotheses(
        original,
        &hypotheses(),
        &mirrored,
        &target,
        &normals,
        apply,
        nearest,
        equations,
        solve,
        no_factors,
        no_product,
        compose,
        total,
        report,
        |c: &Candidate<F>| announced.borrow_mut().push(c.label),
    );
    assert_eq!(candidates.len(), 13);
    let labels: Vec<&str> = candidates.iter().map(|c| c.label).collect();
    assert_eq!(labels[0], "Original");
    assert_eq!(labels[1..], announced.borrow()[..]);
    assert_eq!(best_of(&candidates), Some(1));
    let none = no_candidate();
    let best = best_result(&candidates, &none);
    assert_eq!(best.label, "LR_Flip_Reverse-Y");
    assert!(best.rmse.0 < 0.015);
    for (p, q) in best.points.iter().zip(target.iter()) {
        assert!((0..3).all(|k| (p[k].0 - q[k].0).abs() < 0.05));
    }
}

#[test]
fn where_nothing_can_be_chosen_there_is_no_best() {
    let none: Candidate<F> = no_candidate();
    assert_eq!((none.label, none.points.len()), ("None", 0));
    assert_eq!((none.rmse, none.transform), (F(f64::MAX), identity()));
    let failed = Candidate {
        label: "Original",
        points: vec![v(0.0, 0.0, 0.0)],
        rmse: F(f64::MAX),
        transform: identity(),
    };
    let candidates = vec![failed];
    assert_eq!(best_of(&candidates), None);
    assert_eq!(best_result(&candidates, &none).label, "None");
}

fn sorted(mut rows: Vec<[F; 3]>) -> Vec<[F; 3]> {
    rows.sort_by(|a, b| {
        let key = |p: &[F; 3]| (p[0].0, p[1].0, p[2].0);
        key(a).partial_cmp(&key(b)).unwrap()
    });
    rows
}

#[test]
fn the_points_of_a_cell_become_their_mean() {
    let points = vec![
        v(0.0, 0.0, 0.0),
        v(0.5, 0.25, 0.0),
        v(1.5, 0.0, 0.0),
        v(0.0, 0.0, 2.5),
        v(1.25, 0.5, 0.0),
    ];
    let rows = sorted(voxel_downsample_array2(&points, F(1.0)));
    assert_eq!(rows, vec![v(0.0, 0.0, 2.5), v(0.25, 0.125, 0.0), v(1.375, 0.25, 0.0)]);
}

#[test]
fn cells_are_counted_from_the_lower_corner() {
    let points = vec![v(-3.5, 10.0, 2.0), v(-2.75, 10.5, 2.0), v(-2.25, 10.0, 2.0)];
    assert_eq!(lower_corner(&points), v(-3.5, 10.0, 2.0));
    assert_eq!(voxel_keys(&points, F(1.0)), vec![0, 0, 1]);
    assert_eq!(sorted(voxel_downsample_array2(&points, F(1.0))).len(), 2);
}

#[test]
fn no_points_have_no_cells() {
    assert_eq!(voxel_downsample_array2(&Vec::<[F; 3]>::new(), F(1.0)), Vec::<[F; 3]>::new());
    assert_eq!(lower_corner(&Vec::<[F; 3]>::new()), v(f64::INFINITY, f64::INFINITY, f64::INFINITY));
}

#[test]
fn chunks_cover_all_points() {
    assert_eq!(CHUNK_SIZE, 10_000);
    assert_eq!(chunk_bounds(25_000), vec![(0, 10_000), (10_000, 20_000), (20_000, 25_000)]);
    assert_eq!(chunk_bounds(20_000), vec![(0, 10_000), (10_000, 20_000)]);
    assert_eq!(chunk_bounds(0), vec![]);
}

#[test]
fn chunks_are_collected_and_joined() {
    let n = 25_000;
    let points: Vec<[F; 3]> = (0..n).map(|i| v((i % 4) as f64, i as f64, 0.0)).collect();
    let keys: Vec<u64> = (0..n).map(|i| (i % 4) as u64 * 10).collect();
    let parts = chunk_bounds(n).iter().map(|b| accumulate(&points, &keys, b.0, b.1)).collect();
    let global = merge_stats(&parts);
    assert_eq!(global.len(), 4);
    for k in 0..4u64 {
        assert_eq!(global[&(k * 10)].count, 6250);
        assert_eq!(global[&(k * 10)].sum[0], F(6250.0 * k as f64));
    }
    let rows = sorted(voxel_means(&global));
    assert_eq!(rows[3], v(3.0, 3.0 + 4.0 * 6249.0 / 2.0, 0.0));
}

#[test]
fn every_point_is_counted_once() {
    let points: Vec<[F; 3]> =
        (0..12_345).map(|i| v((i % 17) as f64, (i % 23) as f64, (i % 5) as f64)).collect();
    let keys = voxel_keys(&points, F(2.0));
    let map = accumulate(&points, &keys, 0, points.len());
    let counted: u64 = map.values().map(|s| s.count as u64).sum();
    assert_eq!(counted, 12_345);
    assert!(voxel_downsample_array2(&points, F(2.0)).len() == map.len());
    assert!(map.len() <= points.len());
}

fn pose(x: f64, y: f64) -> PoseData<f64, F> {
    PoseData {
        timestamp: 0.0,
        position: v(x, y, 9.0),
        rotation_quat: [F(1.0), F(0.0), F(0.0), F(0.0)],
    }
}

#[test]
fn trajectories_are_seen_from_above() {
    let series = plane_series(&vec![pose(1.0, 2.0), pose(3.0, 4.0)]);
    assert_eq!(series, vec![(F(1.0), F(2.0)), (F(3.0), F(4.0))]);
}

#[test]
fn bounds_hold_all_positions() {
    let bounds = bounding_box(&vec![(F(1.0), F(5.0)), (F(-2.0), F(f64::NAN)), (F(0.0), F(7.0))]);
    let b = match bounds {
        Ok(b) => b,
        Err(_) => panic!("there are positions"),
    };
    assert_eq!((b.min_x, b.max_x, b.min_y, b.max_y), (F(-2.0), F(1.0), F(5.0), F(7.0)));
}

#[test]
fn an_empty_trajectory_is_refused() {
    let error = match bounding_box(&Vec::<(F, F)>::new()) {
        Ok(_) => panic!("there are no positions"),
        Err(e) => e,
    };
    assert_eq!(error, TrajectoryError::Empty);
    assert_eq!(error.message(), "Trajectory data is empty");
}

#[test]
fn wide_data_sets_the_width_of_the_picture() {
    let w = view_window(&Bounds { min_x: F(0.0), max_x: F(40.0), min_y: F(0.0), max_y: F(3.0) });
    assert!(near(w.x.0 .0, 20.0 - 22.0) && near(w.x.1 .0, 42.0));
    assert!(near(w.y.0 .0, 1.5 - 16.5) && near(w.y.1 .0, 1.5 + 16.5));
}

#[test]
fn tall_data_sets_the_height_of_the_picture() {
    let w = view_window(&Bounds { min_x: F(0.0), max_x: F(1.0), min_y: F(0.0), max_y: F(30.0) });
    assert!(near(w.y.0 .0, 15.0 - 16.5) && near(w.y.1 .0, 31.5));
    assert!(near(w.x.0 .0, 0.5 - 22.0) && near(w.x.1 .0, 22.5));
}

#[test]
fn flat_data_is_wider_than_the_picture() {
    let w = view_window(&Bounds { min_x: F(0.0), max_x: F(4.0), min_y: F(2.0), max_y: F(2.0) });
    assert!(near(w.x.0 .0, 2.0 - 2.2) && near(w.y.1 .0, 2.0 + 1.65));
}

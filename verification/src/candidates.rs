//! The candidates of an alignment: the source cloud as it is, and its mirror images and
//! rotations, each aligned to the target cloud.
use crate::alignment::{
    homogeneous, homogeneous_of, no_rotation_of, rigid_of, rigid_transform, Decomposition,
    Equations, Factors, Transform,
};
use crate::hypotheses::{Hypothesis, Matrix4};
use crate::icp::{
    default_trim_percentage, tolerance, IcpEvent, IcpState, DEFAULT_SAMPLE_SIZE,
    INIT_ICP_MAX_ITERATIONS, SECOND_ICP_MAX_ITERATIONS,
};
use crate::iteration::{is_alignment, perform_icp_point_to_plane, tools_work};
use crate::registration::{
    calculate_normals, centering_of, is_normal_at, registration_pcd_center, K_NEIGHBORS,
};
use crate::report::{best_candidate, is_best};
use crate::rows::all_within;
use crate::scalar::{bits_of, functional, largest_of, one_of, ratio_of, zero_of, Scalar};
use vstd::prelude::*;

verus! {

/// A cloud that was aligned to the target.
pub struct Candidate<T> {
    pub label: &'static str,
    /// The cloud where the alignment left it.
    pub points: Vec<[T; 3]>,
    /// The error that was reached.
    pub rmse: T,
    /// The transform that was found.
    pub transform: Transform<T>,
}

/// The transform that leaves everything where it is.
pub open spec fn identity_of<T: Scalar>() -> Transform<T> {
    rigid_of(no_rotation_of(), [zero_of(), zero_of(), zero_of()])
}

/// The transform that leaves everything where it is.
pub fn identity<T: Scalar>() -> (m: Transform<T>)
    ensures
        functional::<T>() ==> m == identity_of::<T>(),
{
    let zero: T = T::ratio(0, 1);
    let one: T = T::ratio(1, 1);
    let rotation: [[T; 3]; 3] = [[one, zero, zero], [zero, one, zero], [zero, zero, one]];
    assert(functional::<T>() ==> rotation == no_rotation_of::<T>());
    rigid_transform(rotation, [zero, zero, zero])
}

/// A row of whole numbers.
pub open spec fn row_in<T: Scalar>(row: [i32; 4]) -> [T; 4] {
    [ratio_of(row[0], 1), ratio_of(row[1], 1), ratio_of(row[2], 1), ratio_of(row[3], 1)]
}

/// A transform with whole-number entries.
pub open spec fn matrix_in<T: Scalar>(m: Matrix4) -> Transform<T> {
    [row_in(m[0]), row_in(m[1]), row_in(m[2]), row_in(m[3])]
}

/// Turns a row of whole numbers into numbers of the type wanted.
fn row_of_numbers<T: Scalar>(row: [i32; 4]) -> (r: [T; 4])
    ensures
        functional::<T>() ==> r == row_in::<T>(row),
{
    [T::ratio(row[0], 1), T::ratio(row[1], 1), T::ratio(row[2], 1), T::ratio(row[3], 1)]
}

/// Turns whole-number entries into numbers of the type wanted.
pub fn matrix_of_numbers<T: Scalar>(m: Matrix4) -> (r: Transform<T>)
    ensures
        functional::<T>() ==> r == matrix_in::<T>(m),
{
    [row_of_numbers(m[0]), row_of_numbers(m[1]), row_of_numbers(m[2]), row_of_numbers(m[3])]
}

/// `moved` is an outcome of `apply` on the points' homogeneous coordinates and the
/// transform.
pub open spec fn is_moved<T: Scalar, A: Fn(&Vec<[T; 4]>, &Transform<T>) -> Vec<[T; 3]>>(
    moved: Vec<[T; 3]>,
    points: Seq<[T; 3]>,
    transform: Transform<T>,
    apply: A,
) -> bool {
    exists|rows: Vec<[T; 4]>|
        rows@ == homogeneous_of(points) && #[trigger] call_ensures(
            apply,
            (&rows, &transform),
            moved,
        )
}

/// `candidate` comes of aligning `points` to the target from where they are: it is the
/// points moved by the transform in which the alignment ends.
pub open spec fn is_aligned<
    T: Scalar,
    A: Fn(&Vec<[T; 4]>, &Transform<T>) -> Vec<[T; 3]>,
    N: Fn(&Vec<[T; 3]>) -> Vec<(usize, T)>,
    Q: Fn(&Vec<[T; 6]>, &Vec<T>) -> Equations<T>,
    D: Fn(&Equations<T>) -> Option<[T; 6]>,
    B: Fn(&Equations<T>) -> Result<Decomposition<T>, String>,
    W: Fn(&Factors<T>, &Equations<T>) -> [T; 6],
    C: Fn(&Transform<T>, &Transform<T>) -> Transform<T>,
    S: Fn(&Vec<T>) -> T,
    R: Fn(&IcpEvent<Transform<T>, T>, usize),
>(
    candidate: Candidate<T>,
    label: Seq<char>,
    points: Seq<[T; 3]>,
    target_pts: Seq<[T; 3]>,
    target_normals: Seq<[T; 3]>,
    max_iterations: usize,
    apply: A,
    nearest: N,
    equations: Q,
    solve: D,
    decompose: B,
    product: W,
    compose: C,
    total: S,
    report: R,
) -> bool {
    &&& candidate.label@ == label
    &&& is_moved(candidate.points, points, candidate.transform, apply)
    &&& exists|end: IcpState<Transform<T>, T>|
        {
            &&& #[trigger] is_alignment(
                end,
                points,
                target_pts,
                target_normals,
                identity_of(),
                max_iterations,
                ratio_of(15, 1000),
                DEFAULT_SAMPLE_SIZE,
                one_of(),
                apply,
                nearest,
                equations,
                solve,
                decompose,
                product,
                compose,
                total,
                report,
            )
            &&& candidate.rmse == end.last_error
            &&& candidate.transform == end.transform
        }
}

/// Aligns points to the target from where they are, and moves them by the transform
/// found. See `icp_iteration_on` for what the functions given do.
fn align<
    T: Scalar,
    A: Fn(&Vec<[T; 4]>, &Transform<T>) -> Vec<[T; 3]> + Copy,
    N: Fn(&Vec<[T; 3]>) -> Vec<(usize, T)> + Copy,
    Q: Fn(&Vec<[T; 6]>, &Vec<T>) -> Equations<T> + Copy,
    D: Fn(&Equations<T>) -> Option<[T; 6]> + Copy,
    B: Fn(&Equations<T>) -> Result<Decomposition<T>, String> + Copy,
    W: Fn(&Factors<T>, &Equations<T>) -> [T; 6] + Copy,
    C: Fn(&Transform<T>, &Transform<T>) -> Transform<T> + Copy,
    S: Fn(&Vec<T>) -> T + Copy,
    R: Fn(&IcpEvent<Transform<T>, T>, usize) + Copy,
>(
    label: &'static str,
    points: &Vec<[T; 3]>,
    target_pts: &Vec<[T; 3]>,
    target_normals: &Vec<[T; 3]>,
    max_iterations: usize,
    apply: A,
    nearest: N,
    equations: Q,
    solve: D,
    decompose: B,
    product: W,
    compose: C,
    total: S,
    report: R,
) -> (candidate: Candidate<T>)
    requires
        target_pts@.len() == target_normals@.len(),
        target_pts@.len() > 0 || points@.len() == 0,
        tools_work(target_pts@.len(), apply, nearest, equations, solve, decompose, product, compose, total),
        forall|event: &IcpEvent<Transform<T>, T>, iteration: usize|
            iteration < max_iterations ==> #[trigger] call_requires(report, (event, iteration)),
    ensures
        candidate.label == label,
        candidate.points@.len() == points@.len(),
        functional::<T>() ==> is_aligned(
            candidate,
            label@,
            points@,
            target_pts@,
            target_normals@,
            max_iterations,
            apply,
            nearest,
            equations,
            solve,
            decompose,
            product,
            compose,
            total,
            report,
        ),
{
    let end: IcpState<Transform<T>, T> = perform_icp_point_to_plane(
        points,
        target_pts,
        target_normals,
        nearest,
        identity(),
        max_iterations,
        tolerance(),
        DEFAULT_SAMPLE_SIZE,
        default_trim_percentage(),
        apply,
        equations,
        solve,
        decompose,
        product,
        compose,
        total,
        report,
    );
    let rows: Vec<[T; 4]> = homogeneous(points);
    let moved: Vec<[T; 3]> = apply(&rows, &end.transform);
    let candidate: Candidate<T> = Candidate {
        label,
        points: moved,
        rmse: end.last_error,
        transform: end.transform,
    };
    assert(call_ensures(apply, (&rows, &candidate.transform), candidate.points));
    candidate
}

/// Aligns the source cloud as it is, after it has been centered on the target.
pub fn original_candidate<
    T: Scalar,
    A: Fn(&Vec<[T; 4]>, &Transform<T>) -> Vec<[T; 3]> + Copy,
    N: Fn(&Vec<[T; 3]>) -> Vec<(usize, T)> + Copy,
    Q: Fn(&Vec<[T; 6]>, &Vec<T>) -> Equations<T> + Copy,
    D: Fn(&Equations<T>) -> Option<[T; 6]> + Copy,
    B: Fn(&Equations<T>) -> Result<Decomposition<T>, String> + Copy,
    W: Fn(&Factors<T>, &Equations<T>) -> [T; 6] + Copy,
    C: Fn(&Transform<T>, &Transform<T>) -> Transform<T> + Copy,
    S: Fn(&Vec<T>) -> T + Copy,
    R: Fn(&IcpEvent<Transform<T>, T>, usize) + Copy,
>(
    centered: &Vec<[T; 3]>,
    target_pts: &Vec<[T; 3]>,
    target_normals: &Vec<[T; 3]>,
    apply: A,
    nearest: N,
    equations: Q,
    solve: D,
    decompose: B,
    product: W,
    compose: C,
    total: S,
    report: R,
) -> (candidate: Candidate<T>)
    requires
        target_pts@.len() == target_normals@.len(),
        target_pts@.len() > 0 || centered@.len() == 0,
        tools_work(target_pts@.len(), apply, nearest, equations, solve, decompose, product, compose, total),
        forall|event: &IcpEvent<Transform<T>, T>, iteration: usize|
            iteration < INIT_ICP_MAX_ITERATIONS ==> #[trigger] call_requires(
                report,
                (event, iteration),
            ),
    ensures
        candidate.label@ == "Original"@,
        candidate.points@.len() == centered@.len(),
        functional::<T>() ==> is_aligned(
            candidate,
            "Original"@,
            centered@,
            target_pts@,
            target_normals@,
            INIT_ICP_MAX_ITERATIONS,
            apply,
            nearest,
            equations,
            solve,
            decompose,
            product,
            compose,
            total,
            report,
        ),
{
    align(
        "Original",
        centered,
        target_pts,
        target_normals,
        INIT_ICP_MAX_ITERATIONS,
        apply,
        nearest,
        equations,
        solve,
        decompose,
        product,
        compose,
        total,
        report,
    )
}

/// Prepares and makes the first alignment: centers the source cloud on the target, finds
/// the normals of the target that face the origin, and aligns the source as it is. Returns
/// the centered cloud, the normals and the candidate. `search` and `least_spread` find the
/// normals as in `calculate_normals`; `prepared` is told the first two results before the
/// alignment starts.
pub fn first_alignment<
    T: Scalar,
    A: Fn(&Vec<[T; 4]>, &Transform<T>) -> Vec<[T; 3]> + Copy,
    N: Fn(&Vec<[T; 3]>) -> Vec<(usize, T)> + Copy,
    Q: Fn(&Vec<[T; 6]>, &Vec<T>) -> Equations<T> + Copy,
    D: Fn(&Equations<T>) -> Option<[T; 6]> + Copy,
    B: Fn(&Equations<T>) -> Result<Decomposition<T>, String> + Copy,
    W: Fn(&Factors<T>, &Equations<T>) -> [T; 6] + Copy,
    C: Fn(&Transform<T>, &Transform<T>) -> Transform<T> + Copy,
    S: Fn(&Vec<T>) -> T + Copy,
    R: Fn(&IcpEvent<Transform<T>, T>, usize) + Copy,
    H: Fn(&[T; 3], usize) -> Vec<usize>,
    L: Fn(&Vec<[T; 3]>) -> [T; 3],
    Y: Fn(&Vec<[T; 3]>, &Vec<[T; 3]>),
>(
    source_pts: &Vec<[T; 3]>,
    target_pts: &Vec<[T; 3]>,
    search: H,
    least_spread: L,
    apply: A,
    nearest: N,
    equations: Q,
    solve: D,
    decompose: B,
    product: W,
    compose: C,
    total: S,
    report: R,
    prepared: Y,
) -> (r: (Vec<[T; 3]>, Vec<[T; 3]>, Candidate<T>))
    requires
        source_pts@.len() > 0,
        target_pts@.len() > 0,
        forall|i: int|
            #![trigger target_pts@[i]]
            0 <= i < target_pts@.len() ==> call_requires(search, (&target_pts@[i], K_NEIGHBORS)),
        forall|i: int, found: Vec<usize>|
            0 <= i < target_pts@.len() && #[trigger] call_ensures(
                search,
                (&target_pts@[i], K_NEIGHBORS),
                found,
            ) ==> found@.len() > 0 && all_within(found@, target_pts@.len() as int),
        forall|points: &Vec<[T; 3]>| #[trigger] call_requires(least_spread, (points,)),
        tools_work(target_pts@.len(), apply, nearest, equations, solve, decompose, product, compose, total),
        forall|event: &IcpEvent<Transform<T>, T>, iteration: usize|
            iteration < INIT_ICP_MAX_ITERATIONS ==> #[trigger] call_requires(
                report,
                (event, iteration),
            ),
        forall|centered: &Vec<[T; 3]>, normals: &Vec<[T; 3]>| #[trigger]
            call_requires(prepared, (centered, normals)),
    ensures
        r.1@.len() == target_pts@.len(),
        r.2.label@ == "Original"@,
        r.2.points@.len() == r.0@.len(),
        call_ensures(prepared, (&r.0, &r.1), ()),
        functional::<T>() ==> is_moved(
            r.0,
            source_pts@,
            centering_of(source_pts@, target_pts@),
            apply,
        ),
        functional::<T>() ==> forall|i: int|
            0 <= i < r.1@.len() ==> is_normal_at(
                #[trigger] r.1@[i],
                target_pts@[i],
                target_pts@,
                search,
                least_spread,
                [zero_of(), zero_of(), zero_of()],
            ),
        functional::<T>() ==> is_aligned(
            r.2,
            "Original"@,
            r.0@,
            target_pts@,
            r.1@,
            INIT_ICP_MAX_ITERATIONS,
            apply,
            nearest,
            equations,
            solve,
            decompose,
            product,
            compose,
            total,
            report,
        ),
{
    let (_, centered): (Transform<T>, Vec<[T; 3]>) = registration_pcd_center(
        source_pts,
        target_pts,
        apply,
    );
    let zero: T = T::ratio(0, 1);
    let origin: [T; 3] = [zero, zero, zero];
    assert(functional::<T>() ==> origin == [zero_of::<T>(), zero_of::<T>(), zero_of::<T>()]);
    let normals: Vec<[T; 3]> = calculate_normals(target_pts, search, least_spread, origin);
    prepared(&centered, &normals);
    let candidate: Candidate<T> = original_candidate(
        &centered,
        target_pts,
        &normals,
        apply,
        nearest,
        equations,
        solve,
        decompose,
        product,
        compose,
        total,
        report,
    );
    let r: (Vec<[T; 3]>, Vec<[T; 3]>, Candidate<T>) = (centered, normals, candidate);
    assert(functional::<T>() ==> is_moved(
        r.0,
        source_pts@,
        centering_of(source_pts@, target_pts@),
        apply,
    ));
    r
}

/// `candidate` comes of trying the hypothesis on the source cloud: the cloud is turned
/// by its matrix, centered on the target and aligned.
pub open spec fn is_tried<
    T: Scalar,
    A: Fn(&Vec<[T; 4]>, &Transform<T>) -> Vec<[T; 3]>,
    N: Fn(&Vec<[T; 3]>) -> Vec<(usize, T)>,
    Q: Fn(&Vec<[T; 6]>, &Vec<T>) -> Equations<T>,
    D: Fn(&Equations<T>) -> Option<[T; 6]>,
    B: Fn(&Equations<T>) -> Result<Decomposition<T>, String>,
    W: Fn(&Factors<T>, &Equations<T>) -> [T; 6],
    C: Fn(&Transform<T>, &Transform<T>) -> Transform<T>,
    S: Fn(&Vec<T>) -> T,
    R: Fn(&IcpEvent<Transform<T>, T>, usize),
>(
    candidate: Candidate<T>,
    hypothesis: Hypothesis,
    source_pts: Seq<[T; 3]>,
    target_pts: Seq<[T; 3]>,
    target_normals: Seq<[T; 3]>,
    apply: A,
    nearest: N,
    equations: Q,
    solve: D,
    decompose: B,
    product: W,
    compose: C,
    total: S,
    report: R,
) -> bool {
    exists|turned: Vec<[T; 3]>, centered: Vec<[T; 3]>|
        {
            &&& #[trigger] is_moved(turned, source_pts, matrix_in(hypothesis.matrix), apply)
            &&& #[trigger] is_moved(
                centered,
                turned@,
                centering_of(turned@, target_pts),
                apply,
            )
            &&& is_aligned(
                candidate,
                hypothesis.label@,
                centered@,
                target_pts,
                target_normals,
                SECOND_ICP_MAX_ITERATIONS,
                apply,
                nearest,
                equations,
                solve,
                decompose,
                product,
                compose,
                total,
                report,
            )
        }
}

/// Tries one hypothesis on the source cloud.
pub fn hypothesis_candidate<
    T: Scalar,
    A: Fn(&Vec<[T; 4]>, &Transform<T>) -> Vec<[T; 3]> + Copy,
    N: Fn(&Vec<[T; 3]>) -> Vec<(usize, T)> + Copy,
    Q: Fn(&Vec<[T; 6]>, &Vec<T>) -> Equations<T> + Copy,
    D: Fn(&Equations<T>) -> Option<[T; 6]> + Copy,
    B: Fn(&Equations<T>) -> Result<Decomposition<T>, String> + Copy,
    W: Fn(&Factors<T>, &Equations<T>) -> [T; 6] + Copy,
    C: Fn(&Transform<T>, &Transform<T>) -> Transform<T> + Copy,
    S: Fn(&Vec<T>) -> T + Copy,
    R: Fn(&IcpEvent<Transform<T>, T>, usize) + Copy,
>(
    hypothesis: &Hypothesis,
    source_pts: &Vec<[T; 3]>,
    target_pts: &Vec<[T; 3]>,
    target_normals: &Vec<[T; 3]>,
    apply: A,
    nearest: N,
    equations: Q,
    solve: D,
    decompose: B,
    product: W,
    compose: C,
    total: S,
    report: R,
) -> (candidate: Candidate<T>)
    requires
        source_pts@.len() > 0,
        target_pts@.len() > 0,
        target_pts@.len() == target_normals@.len(),
        tools_work(target_pts@.len(), apply, nearest, equations, solve, decompose, product, compose, total),
        forall|event: &IcpEvent<Transform<T>, T>, iteration: usize|
            iteration < SECOND_ICP_MAX_ITERATIONS ==> #[trigger] call_requires(
                report,
                (event, iteration),
            ),
    ensures
        candidate.label == hypothesis.label,
        functional::<T>() ==> is_tried(
            candidate,
            *hypothesis,
            source_pts@,
            target_pts@,
            target_normals@,
            apply,
            nearest,
            equations,
            solve,
            decompose,
            product,
            compose,
            total,
            report,
        ),
{
    let matrix: Transform<T> = matrix_of_numbers(hypothesis.matrix);
    let rows: Vec<[T; 4]> = homogeneous(source_pts);
    let turned: Vec<[T; 3]> = apply(&rows, &matrix);
    let (_, centered): (Transform<T>, Vec<[T; 3]>) = registration_pcd_center(
        &turned,
        target_pts,
        apply,
    );
    proof {
        if functional::<T>() {
            assert(call_ensures(apply, (&rows, &matrix), turned));
            assert(is_moved(turned, source_pts@, matrix_in(hypothesis.matrix), apply));
            assert(is_moved(centered, turned@, centering_of(turned@, target_pts@), apply));
        }
    }
    align(
        hypothesis.label,
        &centered,
        target_pts,
        target_normals,
        SECOND_ICP_MAX_ITERATIONS,
        apply,
        nearest,
        equations,
        solve,
        decompose,
        product,
        compose,
        total,
        report,
    )
}

/// `candidates` lists `original` and then, for each of the first `n` hypotheses, a
/// candidate that comes of trying it and was announced.
pub open spec fn lists_tried<
    T: Scalar,
    A: Fn(&Vec<[T; 4]>, &Transform<T>) -> Vec<[T; 3]>,
    N: Fn(&Vec<[T; 3]>) -> Vec<(usize, T)>,
    Q: Fn(&Vec<[T; 6]>, &Vec<T>) -> Equations<T>,
    D: Fn(&Equations<T>) -> Option<[T; 6]>,
    B: Fn(&Equations<T>) -> Result<Decomposition<T>, String>,
    W: Fn(&Factors<T>, &Equations<T>) -> [T; 6],
    C: Fn(&Transform<T>, &Transform<T>) -> Transform<T>,
    S: Fn(&Vec<T>) -> T,
    R: Fn(&IcpEvent<Transform<T>, T>, usize),
    E: Fn(&Candidate<T>),
>(
    candidates: Seq<Candidate<T>>,
    original: Candidate<T>,
    hypotheses: Seq<Hypothesis>,
    n: int,
    source_pts: Seq<[T; 3]>,
    target_pts: Seq<[T; 3]>,
    target_normals: Seq<[T; 3]>,
    apply: A,
    nearest: N,
    equations: Q,
    solve: D,
    decompose: B,
    product: W,
    compose: C,
    total: S,
    report: R,
    announce: E,
) -> bool {
    &&& candidates.len() == n + 1
    &&& candidates[0] == original
    &&& forall|i: int|
        0 <= i < n ==> {
            let candidate = candidates[i + 1];
            &&& candidate.label == (#[trigger] hypotheses[i]).label
            &&& call_ensures(announce, (&candidate,), ())
            &&& functional::<T>() ==> is_tried(
                candidate,
                hypotheses[i],
                source_pts,
                target_pts,
                target_normals,
                apply,
                nearest,
                equations,
                solve,
                decompose,
                product,
                compose,
                total,
                report,
            )
        }
}

/// Tries the hypotheses in their order, and lists their candidates after the one given.
/// `announce` is told each of them as it is found.
pub fn try_hypotheses<
    T: Scalar,
    A: Fn(&Vec<[T; 4]>, &Transform<T>) -> Vec<[T; 3]> + Copy,
    N: Fn(&Vec<[T; 3]>) -> Vec<(usize, T)> + Copy,
    Q: Fn(&Vec<[T; 6]>, &Vec<T>) -> Equations<T> + Copy,
    D: Fn(&Equations<T>) -> Option<[T; 6]> + Copy,
    B: Fn(&Equations<T>) -> Result<Decomposition<T>, String> + Copy,
    W: Fn(&Factors<T>, &Equations<T>) -> [T; 6] + Copy,
    C: Fn(&Transform<T>, &Transform<T>) -> Transform<T> + Copy,
    S: Fn(&Vec<T>) -> T + Copy,
    R: Fn(&IcpEvent<Transform<T>, T>, usize) + Copy,
    E: Fn(&Candidate<T>),
>(
    original: Candidate<T>,
    hypotheses: &Vec<Hypothesis>,
    source_pts: &Vec<[T; 3]>,
    target_pts: &Vec<[T; 3]>,
    target_normals: &Vec<[T; 3]>,
    apply: A,
    nearest: N,
    equations: Q,
    solve: D,
    decompose: B,
    product: W,
    compose: C,
    total: S,
    report: R,
    announce: E,
) -> (candidates: Vec<Candidate<T>>)
    requires
        source_pts@.len() > 0,
        target_pts@.len() > 0,
        target_pts@.len() == target_normals@.len(),
        tools_work(target_pts@.len(), apply, nearest, equations, solve, decompose, product, compose, total),
        forall|event: &IcpEvent<Transform<T>, T>, iteration: usize|
            iteration < SECOND_ICP_MAX_ITERATIONS ==> #[trigger] call_requires(
                report,
                (event, iteration),
            ),
        forall|candidate: &Candidate<T>| #[trigger] call_requires(announce, (candidate,)),
    ensures
        lists_tried(
            candidates@,
            original,
            hypotheses@,
            hypotheses@.len() as int,
            source_pts@,
            target_pts@,
            target_normals@,
            apply,
            nearest,
            equations,
            solve,
            decompose,
            product,
            compose,
            total,
            report,
            announce,
        ),
{
    let mut candidates: Vec<Candidate<T>> = Vec::new();
    candidates.push(original);
    let mut n: usize = 0;
    while n < hypotheses.len()
        invariant
            n <= hypotheses@.len(),
            source_pts@.len() > 0,
            target_pts@.len() > 0,
            target_pts@.len() == target_normals@.len(),
            tools_work(target_pts@.len(), apply, nearest, equations, solve, decompose, product, compose, total),
            forall|event: &IcpEvent<Transform<T>, T>, iteration: usize|
                iteration < SECOND_ICP_MAX_ITERATIONS ==> #[trigger] call_requires(
                    report,
                    (event, iteration),
                ),
            forall|candidate: &Candidate<T>| #[trigger] call_requires(announce, (candidate,)),
            lists_tried(
                candidates@,
                original,
                hypotheses@,
                n as int,
                source_pts@,
                target_pts@,
                target_normals@,
                apply,
                nearest,
                equations,
                solve,
                decompose,
                product,
                compose,
                total,
                report,
                announce,
            ),
        decreases hypotheses@.len() - n,
    {
        let candidate: Candidate<T> = hypothesis_candidate(
            &hypotheses[n],
            source_pts,
            target_pts,
            target_normals,
            apply,
            nearest,
            equations,
            solve,
            decompose,
            product,
            compose,
            total,
            report,
        );
        announce(&candidate);
        candidates.push(candidate);
        n += 1;
    }
    candidates
}

/// The bit patterns of the candidates' errors.
pub open spec fn error_bits_of<T: Scalar>(candidates: Seq<Candidate<T>>) -> Seq<u64> {
    Seq::new(candidates.len(), |i: int| bits_of(candidates[i].rmse))
}

/// The position of the candidate with the smallest error, the first of them where there
/// are several; `None` where no error is a number below the largest one.
pub fn best_of<T: Scalar>(candidates: &Vec<Candidate<T>>) -> (best: Option<usize>)
    ensures
        best matches Some(b) ==> b < candidates@.len(),
        functional::<T>() ==> is_best(best, error_bits_of(candidates@)),
{
    let mut bits: Vec<u64> = Vec::new();
    let mut i: usize = 0;
    while i < candidates.len()
        invariant
            i <= candidates@.len(),
            bits@.len() == i,
            functional::<T>() ==> forall|j: int|
                0 <= j < i ==> #[trigger] bits@[j] == bits_of(candidates@[j].rmse),
        decreases candidates@.len() - i,
    {
        bits.push(candidates[i].rmse.to_bits());
        i += 1;
    }
    assert(functional::<T>() ==> bits@ =~= error_bits_of(candidates@));
    best_candidate(&bits)
}

/// What stands for the best candidate where there is none: no points, the largest error
/// and the transform that leaves everything where it is.
pub fn no_candidate<T: Scalar>() -> (candidate: Candidate<T>)
    ensures
        candidate.label@ == "None"@,
        candidate.points@.len() == 0,
        functional::<T>() ==> candidate.rmse == largest_of::<T>(),
        functional::<T>() ==> candidate.transform == identity_of::<T>(),
{
    Candidate { label: "None", points: Vec::new(), rmse: T::largest(), transform: identity() }
}

/// The candidate with the smallest error, or `none` where no candidate can be chosen.
pub fn best_result<'a, T: Scalar>(
    candidates: &'a Vec<Candidate<T>>,
    none: &'a Candidate<T>,
) -> (best: &'a Candidate<T>)
    ensures
        functional::<T>() ==> exists|choice: Option<usize>| #[trigger]
            is_best(choice, error_bits_of(candidates@)) && *best == (match choice {
                Some(b) => candidates@[b as int],
                None => *none,
            }),
{
    let choice: Option<usize> = best_of(candidates);
    match choice {
        Some(b) => &candidates[b],
        None => none,
    }
}

} // verus!

//! One iteration of an alignment, and the alignment as a whole.
use crate::alignment::{
    homogeneous, homogeneous_of, Decomposition, Equations, Factors, SolveError, Transform,
};
use crate::icp::{
    closest_indices, find_closest_pairs_kdtree, icp_advance, icp_initial, icp_run, icp_start,
    icp_valid, is_sample, keep_count, keeps_closest, law_nothing_done_nothing_changed,
    lemma_iterations_grow, lemma_run_push, sample_indices, select_inliers, IcpEvent,
    IcpState, IcpStatus, Inliers,
};
use crate::order::is_nan;
use crate::registration::{
    calculate_mean_pt_to_plane_error, calculate_transformation_pt_to_plane, is_error_of,
    is_transformation_of,
};
use crate::rows::{all_within, rows_at, select};
use crate::scalar::{bits_of, count_of, functional, largest_of, times_of, whole_of, Scalar};
use vstd::prelude::*;

verus! {

/// The clouds that an alignment works on, and which of their points take part.
pub struct Problem<'a, T> {
    /// The source points in homogeneous coordinates.
    pub source_rows: Vec<[T; 4]>,
    pub target_pts: &'a Vec<[T; 3]>,
    /// The normals at the target points.
    pub target_normals: &'a Vec<[T; 3]>,
    /// How many source points take part in an iteration at most.
    pub sample_size: usize,
    /// The share of the pairs that is kept.
    pub trim_percentage: T,
}

/// The positions of the matched target points.
pub open spec fn matched_positions<T>(nearest: Seq<(usize, T)>) -> Seq<usize> {
    nearest.map_values(|m: (usize, T)| m.0)
}

/// The bit patterns of the distances of the matches.
pub open spec fn distance_bits_of<T: Scalar>(nearest: Seq<(usize, T)>) -> Seq<u64> {
    nearest.map_values(|m: (usize, T)| bits_of(m.1))
}

/// How many of `n` pairs a problem keeps.
pub open spec fn kept_count<T: Scalar>(problem: Problem<T>, n: nat) -> nat {
    whole_of(times_of(count_of(n as usize), problem.trim_percentage)) as nat
}

/// `moved` are the source points where `transform` takes them, `sampled` those at the
/// positions that take part, `near` what `nearest` finds for them, and `kept` the pairs
/// that are kept.
pub open spec fn is_selection<
    T: Scalar,
    A: Fn(&Vec<[T; 4]>, &Transform<T>) -> Vec<[T; 3]>,
    N: Fn(&Vec<[T; 3]>) -> Vec<(usize, T)>,
>(
    problem: Problem<T>,
    transform: Transform<T>,
    indices: Seq<usize>,
    apply: A,
    nearest: N,
    moved: Vec<[T; 3]>,
    sampled: Vec<[T; 3]>,
    near: Vec<(usize, T)>,
    kept: Seq<usize>,
) -> bool {
    &&& call_ensures(apply, (&problem.source_rows, &transform), moved)
    &&& sampled@ == rows_at(moved@, indices)
    &&& call_ensures(nearest, (&sampled,), near)
    &&& keeps_closest(kept, distance_bits_of(near@), kept_count(problem, near@.len()))
}

/// The event is what the kept pairs come to: `delta` is an outcome of fitting them; a
/// failed fit is reported as such, and otherwise the new transform is an outcome of
/// `compose` and the error that of the fit.
pub open spec fn is_fit<
    T: Scalar,
    A: Fn(&Vec<[T; 4]>, &Transform<T>) -> Vec<[T; 3]>,
    Q: Fn(&Vec<[T; 6]>, &Vec<T>) -> Equations<T>,
    D: Fn(&Equations<T>) -> Option<[T; 6]>,
    B: Fn(&Equations<T>) -> Result<Decomposition<T>, String>,
    W: Fn(&Factors<T>, &Equations<T>) -> [T; 6],
    C: Fn(&Transform<T>, &Transform<T>) -> Transform<T>,
    S: Fn(&Vec<T>) -> T,
>(
    event: IcpEvent<Transform<T>, T>,
    transform: Transform<T>,
    sources: Seq<[T; 3]>,
    targets: Seq<[T; 3]>,
    normals: Seq<[T; 3]>,
    apply: A,
    equations: Q,
    solve: D,
    decompose: B,
    product: W,
    compose: C,
    total: S,
) -> bool {
    exists|fit: Result<Transform<T>, SolveError>|
        {
            &&& #[trigger] is_transformation_of(
                fit,
                sources,
                targets,
                normals,
                equations,
                solve,
                decompose,
                product,
            )
            &&& match fit {
                Err(reason) => event == IcpEvent::<Transform<T>, T>::SolverFailed { reason },
                Ok(delta) => {
                    &&& event is Stepped
                    &&& call_ensures(compose, (&delta, &transform), event->transform)
                    &&& is_error_of(
                        event->error,
                        sources,
                        targets,
                        normals,
                        delta,
                        apply,
                        total,
                    )
                },
            }
        }
}

/// The functions that an iteration calls can be called on anything, except that `nearest`
/// may need a target point for any points that it is given; `apply` gives as many points
/// as it is given rows, and `nearest` gives every point one of `n_targets` target points
/// at a distance that is a number.
pub open spec fn tools_work<
    T: Scalar,
    A: Fn(&Vec<[T; 4]>, &Transform<T>) -> Vec<[T; 3]>,
    N: Fn(&Vec<[T; 3]>) -> Vec<(usize, T)>,
    Q: Fn(&Vec<[T; 6]>, &Vec<T>) -> Equations<T>,
    D: Fn(&Equations<T>) -> Option<[T; 6]>,
    B: Fn(&Equations<T>) -> Result<Decomposition<T>, String>,
    W: Fn(&Factors<T>, &Equations<T>) -> [T; 6],
    C: Fn(&Transform<T>, &Transform<T>) -> Transform<T>,
    S: Fn(&Vec<T>) -> T,
>(
    n_targets: nat,
    apply: A,
    nearest: N,
    equations: Q,
    solve: D,
    decompose: B,
    product: W,
    compose: C,
    total: S,
) -> bool {
    &&& forall|rows: &Vec<[T; 4]>, m: &Transform<T>| #[trigger] call_requires(apply, (rows, m))
    &&& forall|rows: &Vec<[T; 4]>, m: &Transform<T>, moved: Vec<[T; 3]>| #[trigger]
        call_ensures(apply, (rows, m), moved) ==> moved@.len() == rows@.len()
    &&& forall|points: &Vec<[T; 3]>|
        n_targets > 0 || points@.len() == 0 ==> #[trigger] call_requires(nearest, (points,))
    &&& forall|points: &Vec<[T; 3]>, near: Vec<(usize, T)>|
        (n_targets > 0 || points@.len() == 0) && #[trigger] call_ensures(
            nearest,
            (points,),
            near,
        ) ==> near@.len() == points@.len() && forall|i: int|
            0 <= i < near@.len() ==> (#[trigger] near@[i]).0 < n_targets
    &&& forall|points: &Vec<[T; 3]>, near: Vec<(usize, T)>, i: int, bits: u64|
        #![trigger call_ensures(nearest, (points,), near), call_ensures(T::to_bits, (near@[i].1,), bits)]
        (n_targets > 0 || points@.len() == 0) && call_ensures(nearest, (points,), near) && 0 <= i
            < near@.len() && call_ensures(T::to_bits, (near@[i].1,), bits) ==> !is_nan(bits)
    &&& forall|rows: &Vec<[T; 6]>, rhs: &Vec<T>| #[trigger] call_requires(equations, (rows, rhs))
    &&& forall|normal: &Equations<T>| #[trigger] call_requires(solve, (normal,))
    &&& forall|normal: &Equations<T>| #[trigger] call_requires(decompose, (normal,))
    &&& forall|factors: &Factors<T>, normal: &Equations<T>| #[trigger]
        call_requires(product, (factors, normal))
    &&& forall|a: &Transform<T>, b: &Transform<T>| #[trigger] call_requires(compose, (a, b))
    &&& forall|numbers: &Vec<T>| #[trigger] call_requires(total, (numbers,))
}

/// Whether an iteration of `n_source` points can find a match for all that take part.
pub open spec fn can_match(n_targets: nat, n_source: nat, sample_size: usize) -> bool {
    n_targets > 0 || n_source == 0 || sample_size == 0
}

/// The event is what an iteration from `transform` comes to in which the points at
/// `indices` take part: their pairs are selected, and it is what they are fitted to.
pub open spec fn is_iteration_on<
    T: Scalar,
    A: Fn(&Vec<[T; 4]>, &Transform<T>) -> Vec<[T; 3]>,
    N: Fn(&Vec<[T; 3]>) -> Vec<(usize, T)>,
    Q: Fn(&Vec<[T; 6]>, &Vec<T>) -> Equations<T>,
    D: Fn(&Equations<T>) -> Option<[T; 6]>,
    B: Fn(&Equations<T>) -> Result<Decomposition<T>, String>,
    W: Fn(&Factors<T>, &Equations<T>) -> [T; 6],
    C: Fn(&Transform<T>, &Transform<T>) -> Transform<T>,
    S: Fn(&Vec<T>) -> T,
>(
    event: IcpEvent<Transform<T>, T>,
    problem: Problem<T>,
    transform: Transform<T>,
    indices: Seq<usize>,
    apply: A,
    nearest: N,
    equations: Q,
    solve: D,
    decompose: B,
    product: W,
    compose: C,
    total: S,
) -> bool {
    exists|
        moved: Vec<[T; 3]>,
        sampled: Vec<[T; 3]>,
        near: Vec<(usize, T)>,
        kept: Seq<usize>,
    |
        {
            &&& #[trigger] is_selection(
                problem,
                transform,
                indices,
                apply,
                nearest,
                moved,
                sampled,
                near,
                kept,
            )
            &&& is_fit(
                event,
                transform,
                rows_at(sampled@, kept),
                rows_at(rows_at(problem.target_pts@, matched_positions(near@)), kept),
                rows_at(rows_at(problem.target_normals@, matched_positions(near@)), kept),
                apply,
                equations,
                solve,
                decompose,
                product,
                compose,
                total,
            )
        }
}

/// The event is what an iteration from `transform` comes to: one in which the points of
/// some sample take part.
pub open spec fn is_iteration<
    T: Scalar,
    A: Fn(&Vec<[T; 4]>, &Transform<T>) -> Vec<[T; 3]>,
    N: Fn(&Vec<[T; 3]>) -> Vec<(usize, T)>,
    Q: Fn(&Vec<[T; 6]>, &Vec<T>) -> Equations<T>,
    D: Fn(&Equations<T>) -> Option<[T; 6]>,
    B: Fn(&Equations<T>) -> Result<Decomposition<T>, String>,
    W: Fn(&Factors<T>, &Equations<T>) -> [T; 6],
    C: Fn(&Transform<T>, &Transform<T>) -> Transform<T>,
    S: Fn(&Vec<T>) -> T,
>(
    event: IcpEvent<Transform<T>, T>,
    problem: Problem<T>,
    transform: Transform<T>,
    apply: A,
    nearest: N,
    equations: Q,
    solve: D,
    decompose: B,
    product: W,
    compose: C,
    total: S,
) -> bool {
    exists|indices: Seq<usize>|
        {
            &&& #[trigger] is_sample(
                indices,
                problem.source_rows@.len(),
                problem.sample_size as nat,
            )
            &&& is_iteration_on(
                event,
                problem,
                transform,
                indices,
                apply,
                nearest,
                equations,
                solve,
                decompose,
                product,
                compose,
                total,
            )
        }
}

/// One iteration with the points at `indices`: moves the source points by the transform
/// found so far, matches each of those that take part to its nearest target point, drops
/// the farthest pairs, fits the others and measures how well they fit.
///
/// `apply` multiplies homogeneous rows with a transform and drops the last column;
/// `nearest` finds the position of the nearest target point and its distance for each
/// point; `equations` forms the normal equations of a linear system, `solve` solves them
/// or gives up on them, and then `decompose` decomposes their matrix by its singular
/// values and `product` multiplies the pseudo-inverse with their right-hand side;
/// `compose` multiplies two transforms; `total` adds numbers up.
pub fn icp_iteration_on<
    T: Scalar,
    A: Fn(&Vec<[T; 4]>, &Transform<T>) -> Vec<[T; 3]> + Copy,
    N: Fn(&Vec<[T; 3]>) -> Vec<(usize, T)>,
    Q: Fn(&Vec<[T; 6]>, &Vec<T>) -> Equations<T>,
    D: Fn(&Equations<T>) -> Option<[T; 6]>,
    B: Fn(&Equations<T>) -> Result<Decomposition<T>, String>,
    W: Fn(&Factors<T>, &Equations<T>) -> [T; 6],
    C: Fn(&Transform<T>, &Transform<T>) -> Transform<T>,
    S: Fn(&Vec<T>) -> T,
>(
    problem: &Problem<T>,
    transform: &Transform<T>,
    indices: &Vec<usize>,
    apply: A,
    nearest: N,
    equations: Q,
    solve: D,
    decompose: B,
    product: W,
    compose: C,
    total: S,
) -> (event: IcpEvent<Transform<T>, T>)
    requires
        problem.target_pts@.len() == problem.target_normals@.len(),
        all_within(indices@, problem.source_rows@.len() as int),
        problem.target_pts@.len() > 0 || indices@.len() == 0,
        tools_work(
            problem.target_pts@.len(),
            apply,
            nearest,
            equations,
            solve,
            decompose,
            product,
            compose,
            total,
        ),
    ensures
        functional::<T>() ==> is_iteration_on(
            event,
            *problem,
            *transform,
            indices@,
            apply,
            nearest,
            equations,
            solve,
            decompose,
            product,
            compose,
            total,
        ),
{
    let moved: Vec<[T; 3]> = apply(&problem.source_rows, transform);
    let sampled: Vec<[T; 3]> = select(&moved, indices);
    let near: Vec<(usize, T)> = nearest(&sampled);
    let (matched, matched_indices, distances): (Vec<[T; 3]>, Vec<usize>, Vec<T>) =
        find_closest_pairs_kdtree(&near, problem.target_pts);
    let mut distance_bits: Vec<u64> = Vec::new();
    let mut i: usize = 0;
    while i < distances.len()
        invariant
            i <= distances@.len(),
            distance_bits@.len() == i,
            distances@ == near@.map_values(|m: (usize, T)| m.1),
            call_ensures(nearest, (&sampled,), near),
            problem.target_pts@.len() > 0 || sampled@.len() == 0,
            tools_work(
                problem.target_pts@.len(),
                apply,
                nearest,
                equations,
                solve,
                decompose,
                product,
                compose,
                total,
            ),
            forall|j: int| 0 <= j < i ==> !is_nan(#[trigger] distance_bits@[j]),
            functional::<T>() ==> forall|j: int|
                0 <= j < i ==> #[trigger] distance_bits@[j] == bits_of(near@[j].1),
        decreases distances@.len() - i,
    {
        let bits: u64 = distances[i].to_bits();
        assert(call_ensures(T::to_bits, (near@[i as int].1,), bits));
        distance_bits.push(bits);
        i += 1;
    }
    let n_to_keep: usize = keep_count(distance_bits.len(), problem.trim_percentage);
    let kept: Vec<usize> = closest_indices(&distance_bits, n_to_keep);
    assert forall|j: int| 0 <= j < matched_indices@.len() implies (
    #[trigger] matched_indices@[j]) < problem.target_normals@.len() by {
        assert(near@[j].0 < problem.target_pts@.len());
    }
    let inliers: Inliers<[T; 3]> = select_inliers(
        &sampled,
        &matched,
        &matched_indices,
        problem.target_normals,
        &kept,
    );
    proof {
        if functional::<T>() {
            assert(distance_bits@ =~= distance_bits_of(near@));
            assert(is_selection(
                *problem,
                *transform,
                indices@,
                apply,
                nearest,
                moved,
                sampled,
                near,
                kept@,
            ));
        }
    }
    let fit: Result<Transform<T>, SolveError> = calculate_transformation_pt_to_plane(
        &inliers.sources,
        &inliers.targets,
        &inliers.normals,
        equations,
        solve,
        decompose,
        product,
    );
    match fit {
        Err(reason) => IcpEvent::SolverFailed { reason },
        Ok(delta) => {
            let next: Transform<T> = compose(&delta, transform);
            let error: T = calculate_mean_pt_to_plane_error(
                &inliers.sources,
                &inliers.targets,
                &inliers.normals,
                &delta,
                apply,
                total,
            );
            IcpEvent::Stepped { transform: next, error }
        },
    }
}

/// One iteration: samples the source points, and makes the iteration with them. See
/// [`icp_iteration_on`] for what the functions given do.
pub fn icp_iteration<
    T: Scalar,
    A: Fn(&Vec<[T; 4]>, &Transform<T>) -> Vec<[T; 3]> + Copy,
    N: Fn(&Vec<[T; 3]>) -> Vec<(usize, T)>,
    Q: Fn(&Vec<[T; 6]>, &Vec<T>) -> Equations<T>,
    D: Fn(&Equations<T>) -> Option<[T; 6]>,
    B: Fn(&Equations<T>) -> Result<Decomposition<T>, String>,
    W: Fn(&Factors<T>, &Equations<T>) -> [T; 6],
    C: Fn(&Transform<T>, &Transform<T>) -> Transform<T>,
    S: Fn(&Vec<T>) -> T,
>(
    problem: &Problem<T>,
    transform: &Transform<T>,
    apply: A,
    nearest: N,
    equations: Q,
    solve: D,
    decompose: B,
    product: W,
    compose: C,
    total: S,
) -> (event: IcpEvent<Transform<T>, T>)
    requires
        problem.target_pts@.len() == problem.target_normals@.len(),
        can_match(problem.target_pts@.len(), problem.source_rows@.len(), problem.sample_size),
        tools_work(
            problem.target_pts@.len(),
            apply,
            nearest,
            equations,
            solve,
            decompose,
            product,
            compose,
            total,
        ),
    ensures
        functional::<T>() ==> is_iteration(
            event,
            *problem,
            *transform,
            apply,
            nearest,
            equations,
            solve,
            decompose,
            product,
            compose,
            total,
        ),
{
    let indices: Vec<usize> = sample_indices(problem.source_rows.len(), problem.sample_size);
    icp_iteration_on(
        problem,
        transform,
        &indices,
        apply,
        nearest,
        equations,
        solve,
        decompose,
        product,
        compose,
        total,
    )
}

/// Each event is what an iteration comes to from the transform that the alignment had
/// reached by then, and was reported with the number of its iteration.
pub open spec fn steps_through<
    T: Scalar,
    A: Fn(&Vec<[T; 4]>, &Transform<T>) -> Vec<[T; 3]>,
    N: Fn(&Vec<[T; 3]>) -> Vec<(usize, T)>,
    Q: Fn(&Vec<[T; 6]>, &Vec<T>) -> Equations<T>,
    D: Fn(&Equations<T>) -> Option<[T; 6]>,
    B: Fn(&Equations<T>) -> Result<Decomposition<T>, String>,
    W: Fn(&Factors<T>, &Equations<T>) -> [T; 6],
    C: Fn(&Transform<T>, &Transform<T>) -> Transform<T>,
    S: Fn(&Vec<T>) -> T,
    R: Fn(&IcpEvent<Transform<T>, T>, usize),
>(
    problem: Problem<T>,
    initial: IcpState<Transform<T>, T>,
    events: Seq<IcpEvent<Transform<T>, T>>,
    max_iterations: usize,
    tolerance: T,
    apply: A,
    nearest: N,
    equations: Q,
    solve: D,
    decompose: B,
    product: W,
    compose: C,
    total: S,
    report: R,
) -> bool {
    forall|k: int|
        0 <= k < events.len() ==> {
            let reached = icp_run(initial, events.take(k), max_iterations, tolerance);
            &&& reached.status is Running
            &&& is_iteration(
                #[trigger] events[k],
                problem,
                reached.transform,
                apply,
                nearest,
                equations,
                solve,
                decompose,
                product,
                compose,
                total,
            )
            &&& call_ensures(report, (&events[k], reached.iteration), ())
        }
}

/// One more event of an iteration from where the alignment stands keeps the steps.
proof fn lemma_steps_push<
    T: Scalar,
    A: Fn(&Vec<[T; 4]>, &Transform<T>) -> Vec<[T; 3]>,
    N: Fn(&Vec<[T; 3]>) -> Vec<(usize, T)>,
    Q: Fn(&Vec<[T; 6]>, &Vec<T>) -> Equations<T>,
    D: Fn(&Equations<T>) -> Option<[T; 6]>,
    B: Fn(&Equations<T>) -> Result<Decomposition<T>, String>,
    W: Fn(&Factors<T>, &Equations<T>) -> [T; 6],
    C: Fn(&Transform<T>, &Transform<T>) -> Transform<T>,
    S: Fn(&Vec<T>) -> T,
    R: Fn(&IcpEvent<Transform<T>, T>, usize),
>(
    problem: Problem<T>,
    initial: IcpState<Transform<T>, T>,
    events: Seq<IcpEvent<Transform<T>, T>>,
    event: IcpEvent<Transform<T>, T>,
    max_iterations: usize,
    tolerance: T,
    apply: A,
    nearest: N,
    equations: Q,
    solve: D,
    decompose: B,
    product: W,
    compose: C,
    total: S,
    report: R,
)
    requires
        steps_through(
            problem,
            initial,
            events,
            max_iterations,
            tolerance,
            apply,
            nearest,
            equations,
            solve,
            decompose,
            product,
            compose,
            total,
            report,
        ),
        ({
            let reached = icp_run(initial, events, max_iterations, tolerance);
            &&& reached.status is Running
            &&& is_iteration(
                event,
                problem,
                reached.transform,
                apply,
                nearest,
                equations,
                solve,
                decompose,
                product,
                compose,
                total,
            )
            &&& call_ensures(report, (&event, reached.iteration), ())
        }),
    ensures
        steps_through(
            problem,
            initial,
            events.push(event),
            max_iterations,
            tolerance,
            apply,
            nearest,
            equations,
            solve,
            decompose,
            product,
            compose,
            total,
            report,
        ),
{
    let more = events.push(event);
    assert forall|k: int| 0 <= k < more.len() implies {
        let reached = icp_run(initial, more.take(k), max_iterations, tolerance);
        &&& reached.status is Running
        &&& is_iteration(
            #[trigger] more[k],
            problem,
            reached.transform,
            apply,
            nearest,
            equations,
            solve,
            decompose,
            product,
            compose,
            total,
        )
        &&& call_ensures(report, (&more[k], reached.iteration), ())
    } by {
        assert(more.take(k) =~= events.take(k));
        if k < events.len() {
            assert(more[k] == events[k]);
        } else {
            assert(events.take(k) =~= events);
        }
    }
}

/// `problem` is the alignment of these source points to these target points.
pub open spec fn is_problem_of<T: Scalar>(
    problem: Problem<T>,
    source_pts: Seq<[T; 3]>,
    target_pts: Seq<[T; 3]>,
    target_normals: Seq<[T; 3]>,
    sample_size: usize,
    trim_percentage: T,
) -> bool {
    &&& problem.source_rows@ == homogeneous_of(source_pts)
    &&& problem.target_pts@ == target_pts
    &&& problem.target_normals@ == target_normals
    &&& problem.sample_size == sample_size
    &&& problem.trim_percentage == trim_percentage
}

/// `end` is where the alignment of these source points to these target points ends:
/// where a run over the events of its iterations stands.
pub open spec fn is_alignment<
    T: Scalar,
    A: Fn(&Vec<[T; 4]>, &Transform<T>) -> Vec<[T; 3]>,
    N: Fn(&Vec<[T; 3]>) -> Vec<(usize, T)>,
    Q: Fn(&Vec<[T; 6]>, &Vec<T>) -> Equations<T>,
    D: Fn(&Equations<T>) -> Option<[T; 6]>,
    B: Fn(&Equations<T>) -> Result<Decomposition<T>, String>,
    W: Fn(&Factors<T>, &Equations<T>) -> [T; 6],
    C: Fn(&Transform<T>, &Transform<T>) -> Transform<T>,
    S: Fn(&Vec<T>) -> T,
    R: Fn(&IcpEvent<Transform<T>, T>, usize),
>(
    end: IcpState<Transform<T>, T>,
    source_pts: Seq<[T; 3]>,
    target_pts: Seq<[T; 3]>,
    target_normals: Seq<[T; 3]>,
    initial_transform: Transform<T>,
    max_iterations: usize,
    tolerance: T,
    sample_size: usize,
    trim_percentage: T,
    apply: A,
    nearest: N,
    equations: Q,
    solve: D,
    decompose: B,
    product: W,
    compose: C,
    total: S,
    report: R,
) -> bool {
    let initial = icp_initial(initial_transform, max_iterations);
    &&& !(end.status is Running)
    &&& exists|problem: Problem<T>, events: Seq<IcpEvent<Transform<T>, T>>|
        {
            &&& is_problem_of(
                problem,
                source_pts,
                target_pts,
                target_normals,
                sample_size,
                trim_percentage,
            )
            &&& #[trigger] steps_through(
                problem,
                initial,
                events,
                max_iterations,
                tolerance,
                apply,
                nearest,
                equations,
                solve,
                decompose,
                product,
                compose,
                total,
                report,
            )
            &&& end == icp_run(initial, events, max_iterations, tolerance)
        }
}

/// An alignment ends in a valid state: it has made no more iterations than allowed, and
/// one that has converged has an error below the tolerance. One that neither converges
/// nor completes an iteration gives the initial transform back with the largest error.
pub proof fn law_alignment_result<
    T: Scalar,
    A: Fn(&Vec<[T; 4]>, &Transform<T>) -> Vec<[T; 3]>,
    N: Fn(&Vec<[T; 3]>) -> Vec<(usize, T)>,
    Q: Fn(&Vec<[T; 6]>, &Vec<T>) -> Equations<T>,
    D: Fn(&Equations<T>) -> Option<[T; 6]>,
    B: Fn(&Equations<T>) -> Result<Decomposition<T>, String>,
    W: Fn(&Factors<T>, &Equations<T>) -> [T; 6],
    C: Fn(&Transform<T>, &Transform<T>) -> Transform<T>,
    S: Fn(&Vec<T>) -> T,
    R: Fn(&IcpEvent<Transform<T>, T>, usize),
>(
    end: IcpState<Transform<T>, T>,
    source_pts: Seq<[T; 3]>,
    target_pts: Seq<[T; 3]>,
    target_normals: Seq<[T; 3]>,
    initial_transform: Transform<T>,
    max_iterations: usize,
    tolerance: T,
    sample_size: usize,
    trim_percentage: T,
    apply: A,
    nearest: N,
    equations: Q,
    solve: D,
    decompose: B,
    product: W,
    compose: C,
    total: S,
    report: R,
)
    requires
        is_alignment(
            end,
            source_pts,
            target_pts,
            target_normals,
            initial_transform,
            max_iterations,
            tolerance,
            sample_size,
            trim_percentage,
            apply,
            nearest,
            equations,
            solve,
            decompose,
            product,
            compose,
            total,
            report,
        ),
    ensures
        icp_valid(end, max_iterations, tolerance),
        end.iteration == 0 && !(end.status is Converged) ==> {
            &&& end.transform == initial_transform
            &&& end.last_error == largest_of::<T>()
        },
{
    let initial = icp_initial::<Transform<T>, T>(initial_transform, max_iterations);
    let (problem, events) = choose|
        problem: Problem<T>,
        events: Seq<IcpEvent<Transform<T>, T>>,
    |
        {
            &&& is_problem_of(
                problem,
                source_pts,
                target_pts,
                target_normals,
                sample_size,
                trim_percentage,
            )
            &&& #[trigger] steps_through(
                problem,
                initial,
                events,
                max_iterations,
                tolerance,
                apply,
                nearest,
                equations,
                solve,
                decompose,
                product,
                compose,
                total,
                report,
            )
            &&& end == icp_run(initial, events, max_iterations, tolerance)
        };
    lemma_iterations_grow(initial, events, max_iterations, tolerance);
    law_nothing_done_nothing_changed(initial_transform, events, max_iterations, tolerance);
}

/// Aligns the source points to the target points: iterates from the initial transform
/// until the error falls below the tolerance, the system of an iteration cannot be
/// solved or `max_iterations` have been made. See [`icp_iteration_on`] for what the other
/// functions do; `report` is told what each iteration came to, with its number counted
/// from zero.
pub fn perform_icp_point_to_plane<
    T: Scalar,
    A: Fn(&Vec<[T; 4]>, &Transform<T>) -> Vec<[T; 3]> + Copy,
    N: Fn(&Vec<[T; 3]>) -> Vec<(usize, T)> + Copy,
    Q: Fn(&Vec<[T; 6]>, &Vec<T>) -> Equations<T> + Copy,
    D: Fn(&Equations<T>) -> Option<[T; 6]> + Copy,
    B: Fn(&Equations<T>) -> Result<Decomposition<T>, String> + Copy,
    W: Fn(&Factors<T>, &Equations<T>) -> [T; 6] + Copy,
    C: Fn(&Transform<T>, &Transform<T>) -> Transform<T> + Copy,
    S: Fn(&Vec<T>) -> T + Copy,
    R: Fn(&IcpEvent<Transform<T>, T>, usize),
>(
    source_pts: &Vec<[T; 3]>,
    target_pts: &Vec<[T; 3]>,
    target_normals: &Vec<[T; 3]>,
    nearest: N,
    initial_transform: Transform<T>,
    max_iterations: usize,
    tolerance: T,
    sample_size: usize,
    trim_percentage: T,
    apply: A,
    equations: Q,
    solve: D,
    decompose: B,
    product: W,
    compose: C,
    total: S,
    report: R,
) -> (end: IcpState<Transform<T>, T>)
    requires
        target_pts@.len() == target_normals@.len(),
        max_iterations > 0 ==> can_match(target_pts@.len(), source_pts@.len(), sample_size),
        tools_work(target_pts@.len(), apply, nearest, equations, solve, decompose, product, compose, total),
        forall|event: &IcpEvent<Transform<T>, T>, iteration: usize|
            iteration < max_iterations ==> #[trigger] call_requires(report, (event, iteration)),
    ensures
        !(end.status is Running),
        functional::<T>() ==> is_alignment(
            end,
            source_pts@,
            target_pts@,
            target_normals@,
            initial_transform,
            max_iterations,
            tolerance,
            sample_size,
            trim_percentage,
            apply,
            nearest,
            equations,
            solve,
            decompose,
            product,
            compose,
            total,
            report,
        ),
{
    let problem: Problem<T> = Problem {
        source_rows: homogeneous(source_pts),
        target_pts,
        target_normals,
        sample_size,
        trim_percentage,
    };
    let mut state: IcpState<Transform<T>, T> = icp_start(initial_transform, max_iterations);
    let ghost start = state;
    let ghost mut events = Seq::<IcpEvent<Transform<T>, T>>::empty();
    loop
        invariant
            problem.target_pts@ == target_pts@,
            problem.target_normals@ == target_normals@,
            target_pts@.len() == target_normals@.len(),
            problem.source_rows@.len() == source_pts@.len(),
            problem.sample_size == sample_size,
            max_iterations > 0 ==> can_match(target_pts@.len(), source_pts@.len(), sample_size),
            tools_work(target_pts@.len(), apply, nearest, equations, solve, decompose, product, compose, total),
            forall|event: &IcpEvent<Transform<T>, T>, iteration: usize|
                iteration < max_iterations ==> #[trigger] call_requires(
                    report,
                    (event, iteration),
                ),
            state.iteration <= max_iterations,
            state.status is Running ==> state.iteration < max_iterations,
            functional::<T>() ==> {
                &&& steps_through(
                    problem,
                    start,
                    events,
                    max_iterations,
                    tolerance,
                    apply,
                    nearest,
                    equations,
                    solve,
                    decompose,
                    product,
                    compose,
                    total,
                    report,
                )
                &&& state == icp_run(start, events, max_iterations, tolerance)
            },
        ensures
            !(state.status is Running),
        decreases max_iterations - state.iteration, (if state.status is Running {
            1int
        } else {
            0int
        }),
    {
        match state.status {
            IcpStatus::Running => {},
            _ => {
                break;
            },
        }
        let event: IcpEvent<Transform<T>, T> = icp_iteration(
            &problem,
            &state.transform,
            apply,
            nearest,
            equations,
            solve,
            decompose,
            product,
            compose,
            total,
        );
        report(&event, state.iteration);
        proof {
            if functional::<T>() {
                lemma_run_push(start, events, event, max_iterations, tolerance);
                lemma_steps_push(
                    problem,
                    start,
                    events,
                    event,
                    max_iterations,
                    tolerance,
                    apply,
                    nearest,
                    equations,
                    solve,
                    decompose,
                    product,
                    compose,
                    total,
                    report,
                );
                events = events.push(event);
            }
        }
        state = icp_advance(state, event, max_iterations, tolerance);
    }
    state
}

} // verus!

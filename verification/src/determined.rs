//! Alignments whose functions are determined: what they are given settles what they
//! return. Such an alignment comes to one result, and its laws relate the results of
//! several.
use crate::alignment::{is_solved, Decomposition, Equations, Factors, SolveError, Transform};
use crate::icp::{
    icp_initial, icp_next, icp_run, is_shifted, keeps_closest, law_runs_compose,
    lemma_iterations_grow, lemma_larger_limit, lemma_run_push, ranks_of, IcpEvent, IcpState,
};
use crate::iteration::{
    distance_bits_of, is_alignment, is_fit, is_iteration, is_iteration_on, is_problem_of,
    is_selection, kept_count, matched_positions, steps_through, Problem,
};
use crate::registration::{is_error_of, is_solution_of, is_transformation_of};
use crate::rows::{positions, rows_at};
use crate::scalar::Scalar;
use crate::sort::{is_stable_order, law_order_is_unique};
use vstd::prelude::*;

verus! {

/// The sine and the cosine are functions of the angle.
pub open spec fn angles_determined<T: Scalar>() -> bool {
    &&& forall|a: T, r: T, s: T| #[trigger]
        call_ensures(T::sine, (a,), r) && #[trigger] call_ensures(T::sine, (a,), s) ==> r == s
    &&& forall|a: T, r: T, s: T| #[trigger]
        call_ensures(T::cosine, (a,), r) && #[trigger] call_ensures(T::cosine, (a,), s) ==> r == s
}

/// Two outcomes of solving a system: the same solution, or no solution.
pub open spec fn same_solution<X>(a: Result<X, SolveError>, b: Result<X, SolveError>) -> bool {
    match (a, b) {
        (Ok(x), Ok(y)) => x == y,
        (Err(_), Err(_)) => true,
        _ => false,
    }
}

/// Two outcomes of a decomposition: the same one, or a failure.
pub open spec fn same_decomposition<T>(
    a: Result<Decomposition<T>, String>,
    b: Result<Decomposition<T>, String>,
) -> bool {
    match (a, b) {
        (Ok(x), Ok(y)) => x == y,
        (Err(_), Err(_)) => true,
        _ => false,
    }
}

/// What each function is given settles what it returns.
pub open spec fn determined<
    T: Scalar,
    A: Fn(&Vec<[T; 4]>, &Transform<T>) -> Vec<[T; 3]>,
    N: Fn(&Vec<[T; 3]>) -> Vec<(usize, T)>,
    Q: Fn(&Vec<[T; 6]>, &Vec<T>) -> Equations<T>,
    D: Fn(&Equations<T>) -> Option<[T; 6]>,
    B: Fn(&Equations<T>) -> Result<Decomposition<T>, String>,
    W: Fn(&Factors<T>, &Equations<T>) -> [T; 6],
    C: Fn(&Transform<T>, &Transform<T>) -> Transform<T>,
    S: Fn(&Vec<T>) -> T,
>(
    apply: A,
    nearest: N,
    equations: Q,
    solve: D,
    decompose: B,
    product: W,
    compose: C,
    total: S,
) -> bool {
    &&& angles_determined::<T>()
    &&& forall|
        a: &Vec<[T; 4]>,
        b: &Vec<[T; 4]>,
        m: &Transform<T>,
        r: Vec<[T; 3]>,
        s: Vec<[T; 3]>,
    |
        a@ == b@ && #[trigger] call_ensures(apply, (a, m), r) && #[trigger] call_ensures(
            apply,
            (b, m),
            s,
        ) ==> r@ == s@
    &&& forall|
        a: &Vec<[T; 3]>,
        b: &Vec<[T; 3]>,
        r: Vec<(usize, T)>,
        s: Vec<(usize, T)>,
    |
        a@ == b@ && #[trigger] call_ensures(nearest, (a,), r) && #[trigger] call_ensures(
            nearest,
            (b,),
            s,
        ) ==> r@ == s@
    &&& forall|
        a: &Vec<[T; 6]>,
        b: &Vec<[T; 6]>,
        c: &Vec<T>,
        d: &Vec<T>,
        r: Equations<T>,
        s: Equations<T>,
    |
        a@ == b@ && c@ == d@ && #[trigger] call_ensures(equations, (a, c), r)
            && #[trigger] call_ensures(equations, (b, d), s) ==> r == s
    &&& forall|a: &Equations<T>, r: Option<[T; 6]>, s: Option<[T; 6]>| #[trigger]
        call_ensures(solve, (a,), r) && #[trigger] call_ensures(solve, (a,), s) ==> r == s
    &&& forall|
        a: &Equations<T>,
        r: Result<Decomposition<T>, String>,
        s: Result<Decomposition<T>, String>,
    | #[trigger]
        call_ensures(decompose, (a,), r) && #[trigger] call_ensures(decompose, (a,), s)
            ==> same_decomposition(r, s)
    &&& forall|a: &Factors<T>, b: &Equations<T>, r: [T; 6], s: [T; 6]| #[trigger]
        call_ensures(product, (a, b), r) && #[trigger] call_ensures(product, (a, b), s) ==> r == s
    &&& forall|a: &Transform<T>, b: &Transform<T>, r: Transform<T>, s: Transform<T>| #[trigger]
        call_ensures(compose, (a, b), r) && #[trigger] call_ensures(compose, (a, b), s) ==> r == s
    &&& forall|a: &Vec<T>, b: &Vec<T>, r: T, s: T|
        a@ == b@ && #[trigger] call_ensures(total, (a,), r) && #[trigger] call_ensures(
            total,
            (b,),
            s,
        ) ==> r == s
}

/// Two events that lead an alignment to the same state.
pub open spec fn same_step<M, T>(a: IcpEvent<M, T>, b: IcpEvent<M, T>) -> bool {
    match (a, b) {
        (
            IcpEvent::Stepped { transform, error },
            IcpEvent::Stepped { transform: other, error: other_error },
        ) => transform == other && error == other_error,
        (IcpEvent::SolverFailed { .. }, IcpEvent::SolverFailed { .. }) => true,
        _ => false,
    }
}

/// A solution stands for one transform.
proof fn lemma_solved_one_way<T: Scalar>(m: Transform<T>, n: Transform<T>, x: [T; 6])
    requires
        angles_determined::<T>(),
        is_solved(m, x),
        is_solved(n, x),
    ensures
        m == n,
{
}

/// A fit comes to one result.
proof fn lemma_fit_one_way<
    T: Scalar,
    A: Fn(&Vec<[T; 4]>, &Transform<T>) -> Vec<[T; 3]>,
    N: Fn(&Vec<[T; 3]>) -> Vec<(usize, T)>,
    Q: Fn(&Vec<[T; 6]>, &Vec<T>) -> Equations<T>,
    D: Fn(&Equations<T>) -> Option<[T; 6]>,
    B: Fn(&Equations<T>) -> Result<Decomposition<T>, String>,
    W: Fn(&Factors<T>, &Equations<T>) -> [T; 6],
    C: Fn(&Transform<T>, &Transform<T>) -> Transform<T>,
    S: Fn(&Vec<T>) -> T,
>(
    a: Result<Transform<T>, SolveError>,
    b: Result<Transform<T>, SolveError>,
    sources: Seq<[T; 3]>,
    targets: Seq<[T; 3]>,
    normals: Seq<[T; 3]>,
    apply: A,
    nearest: N,
    equations: Q,
    solve: D,
    decompose: B,
    product: W,
    compose: C,
    total: S,
)
    requires
        determined(apply, nearest, equations, solve, decompose, product, compose, total),
        is_transformation_of(a, sources, targets, normals, equations, solve, decompose, product),
        is_transformation_of(b, sources, targets, normals, equations, solve, decompose, product),
    ensures
        same_solution(a, b),
{
    assert forall|
        x: Result<[T; 6], SolveError>,
        y: Result<[T; 6], SolveError>,
        normal: Equations<T>,
    | #[trigger]
        is_solution_of(x, normal, solve, decompose, product) && #[trigger] is_solution_of(
            y,
            normal,
            solve,
            decompose,
            product,
        ) implies same_solution(x, y) by {}
    if a is Ok && b is Ok {
        assert forall|x: [T; 6]| is_solved(a->Ok_0, x) && is_solved(b->Ok_0, x) implies a->Ok_0
            == b->Ok_0 by {
            lemma_solved_one_way(a->Ok_0, b->Ok_0, x);
        }
    }
}

/// A fit leaves one error.
proof fn lemma_error_one_way<
    T: Scalar,
    A: Fn(&Vec<[T; 4]>, &Transform<T>) -> Vec<[T; 3]>,
    N: Fn(&Vec<[T; 3]>) -> Vec<(usize, T)>,
    Q: Fn(&Vec<[T; 6]>, &Vec<T>) -> Equations<T>,
    D: Fn(&Equations<T>) -> Option<[T; 6]>,
    B: Fn(&Equations<T>) -> Result<Decomposition<T>, String>,
    W: Fn(&Factors<T>, &Equations<T>) -> [T; 6],
    C: Fn(&Transform<T>, &Transform<T>) -> Transform<T>,
    S: Fn(&Vec<T>) -> T,
>(
    a: T,
    b: T,
    sources: Seq<[T; 3]>,
    targets: Seq<[T; 3]>,
    normals: Seq<[T; 3]>,
    delta: Transform<T>,
    apply: A,
    nearest: N,
    equations: Q,
    solve: D,
    decompose: B,
    product: W,
    compose: C,
    total: S,
)
    requires
        determined(apply, nearest, equations, solve, decompose, product, compose, total),
        is_error_of(a, sources, targets, normals, delta, apply, total),
        is_error_of(b, sources, targets, normals, delta, apply, total),
    ensures
        a == b,
{
}

/// The pairs kept come to one event.
proof fn lemma_event_one_way<
    T: Scalar,
    A: Fn(&Vec<[T; 4]>, &Transform<T>) -> Vec<[T; 3]>,
    N: Fn(&Vec<[T; 3]>) -> Vec<(usize, T)>,
    Q: Fn(&Vec<[T; 6]>, &Vec<T>) -> Equations<T>,
    D: Fn(&Equations<T>) -> Option<[T; 6]>,
    B: Fn(&Equations<T>) -> Result<Decomposition<T>, String>,
    W: Fn(&Factors<T>, &Equations<T>) -> [T; 6],
    C: Fn(&Transform<T>, &Transform<T>) -> Transform<T>,
    S: Fn(&Vec<T>) -> T,
>(
    a: IcpEvent<Transform<T>, T>,
    b: IcpEvent<Transform<T>, T>,
    transform: Transform<T>,
    sources: Seq<[T; 3]>,
    targets: Seq<[T; 3]>,
    normals: Seq<[T; 3]>,
    apply: A,
    nearest: N,
    equations: Q,
    solve: D,
    decompose: B,
    product: W,
    compose: C,
    total: S,
)
    requires
        determined(apply, nearest, equations, solve, decompose, product, compose, total),
        is_fit(
            a,
            transform,
            sources,
            targets,
            normals,
            apply,
            equations,
            solve,
            decompose,
            product,
            compose,
            total,
        ),
        is_fit(
            b,
            transform,
            sources,
            targets,
            normals,
            apply,
            equations,
            solve,
            decompose,
            product,
            compose,
            total,
        ),
    ensures
        same_step(a, b),
{
    let fit = choose|fit: Result<Transform<T>, SolveError>|
        {
            &&& #[trigger] is_transformation_of(
                fit,
                sources,
                targets,
                normals,
                equations,
                solve,
                decompose,
                product,
            )
            &&& match fit {
                Err(reason) => a == IcpEvent::<Transform<T>, T>::SolverFailed { reason },
                Ok(delta) => {
                    &&& a is Stepped
                    &&& call_ensures(compose, (&delta, &transform), a->transform)
                    &&& is_error_of(a->error, sources, targets, normals, delta, apply, total)
                },
            }
        };
    let other = choose|fit: Result<Transform<T>, SolveError>|
        {
            &&& #[trigger] is_transformation_of(
                fit,
                sources,
                targets,
                normals,
                equations,
                solve,
                decompose,
                product,
            )
            &&& match fit {
                Err(reason) => b == IcpEvent::<Transform<T>, T>::SolverFailed { reason },
                Ok(delta) => {
                    &&& b is Stepped
                    &&& call_ensures(compose, (&delta, &transform), b->transform)
                    &&& is_error_of(b->error, sources, targets, normals, delta, apply, total)
                },
            }
        };
    lemma_fit_one_way(fit, other, sources, targets, normals, apply, nearest, equations, solve, decompose, product, compose, total);
    if fit is Ok {
        lemma_error_one_way(
            a->error,
            b->error,
            sources,
            targets,
            normals,
            fit->Ok_0,
            apply,
            nearest,
            equations,
            solve,
            decompose,
            product,
            compose,
            total,
        );
    }
}

/// The same pairs are kept.
proof fn lemma_kept_one_way(a: Seq<usize>, b: Seq<usize>, bits: Seq<u64>, n: nat)
    requires
        keeps_closest(a, bits, n),
        keeps_closest(b, bits, n),
    ensures
        a == b,
{
    assert forall|p: Seq<usize>, q: Seq<usize>|
        is_stable_order(ranks_of(bits), p) && is_stable_order(
            ranks_of(bits),
            q,
        ) implies p == q by {
        law_order_is_unique(ranks_of(bits), p, q);
    }
}

/// Two problems with the same clouds and the same choice of points.
pub open spec fn same_problem<T>(a: Problem<T>, b: Problem<T>) -> bool {
    &&& a.source_rows@ == b.source_rows@
    &&& a.target_pts@ == b.target_pts@
    &&& a.target_normals@ == b.target_normals@
    &&& a.sample_size == b.sample_size
    &&& a.trim_percentage == b.trim_percentage
}

/// The event is what the pairs kept of a problem are fitted to.
spec fn is_fit_of<
    T: Scalar,
    A: Fn(&Vec<[T; 4]>, &Transform<T>) -> Vec<[T; 3]>,
    N: Fn(&Vec<[T; 3]>) -> Vec<(usize, T)>,
    Q: Fn(&Vec<[T; 6]>, &Vec<T>) -> Equations<T>,
    D: Fn(&Equations<T>) -> Option<[T; 6]>,
    B: Fn(&Equations<T>) -> Result<Decomposition<T>, String>,
    W: Fn(&Factors<T>, &Equations<T>) -> [T; 6],
    C: Fn(&Transform<T>, &Transform<T>) -> Transform<T>,
    S: Fn(&Vec<T>) -> T,
>(
    event: IcpEvent<Transform<T>, T>,
    problem: Problem<T>,
    transform: Transform<T>,
    sampled: Seq<[T; 3]>,
    near: Seq<(usize, T)>,
    kept: Seq<usize>,
    apply: A,
    nearest: N,
    equations: Q,
    solve: D,
    decompose: B,
    product: W,
    compose: C,
    total: S,
) -> bool {
    is_fit(
        event,
        transform,
        rows_at(sampled, kept),
        rows_at(rows_at(problem.target_pts@, matched_positions(near)), kept),
        rows_at(rows_at(problem.target_normals@, matched_positions(near)), kept),
        apply,
        equations,
        solve,
        decompose,
        product,
        compose,
        total,
    )
}

/// An iteration from the same transform, with the same points taking part, comes to the
/// same.
proof fn lemma_iteration_one_way<
    T: Scalar,
    A: Fn(&Vec<[T; 4]>, &Transform<T>) -> Vec<[T; 3]>,
    N: Fn(&Vec<[T; 3]>) -> Vec<(usize, T)>,
    Q: Fn(&Vec<[T; 6]>, &Vec<T>) -> Equations<T>,
    D: Fn(&Equations<T>) -> Option<[T; 6]>,
    B: Fn(&Equations<T>) -> Result<Decomposition<T>, String>,
    W: Fn(&Factors<T>, &Equations<T>) -> [T; 6],
    C: Fn(&Transform<T>, &Transform<T>) -> Transform<T>,
    S: Fn(&Vec<T>) -> T,
>(
    a: IcpEvent<Transform<T>, T>,
    b: IcpEvent<Transform<T>, T>,
    problem: Problem<T>,
    other: Problem<T>,
    transform: Transform<T>,
    indices: Seq<usize>,
    apply: A,
    nearest: N,
    equations: Q,
    solve: D,
    decompose: B,
    product: W,
    compose: C,
    total: S,
)
    requires
        determined(apply, nearest, equations, solve, decompose, product, compose, total),
        same_problem(problem, other),
        is_iteration_on(a, problem, transform, indices, apply, nearest, equations, solve, decompose, product, compose, total),
        is_iteration_on(b, other, transform, indices, apply, nearest, equations, solve, decompose, product, compose, total),
    ensures
        same_step(a, b),
{
    let (moved, sampled, near, kept) = choose|
        moved: Vec<[T; 3]>,
        sampled: Vec<[T; 3]>,
        near: Vec<(usize, T)>,
        kept: Seq<usize>,
    |
        {
            &&& #[trigger] is_selection(
                problem,
                transform,
                indices,
                apply,
                nearest,
                moved,
                sampled,
                near,
                kept,
            )
            &&& is_fit_of(a, problem, transform, sampled@, near@, kept, apply, nearest, equations, solve, decompose, product, compose, total)
        };
    let (moved2, sampled2, near2, kept2) = choose|
        moved: Vec<[T; 3]>,
        sampled: Vec<[T; 3]>,
        near: Vec<(usize, T)>,
        kept: Seq<usize>,
    |
        {
            &&& #[trigger] is_selection(
                other,
                transform,
                indices,
                apply,
                nearest,
                moved,
                sampled,
                near,
                kept,
            )
            &&& is_fit_of(b, other, transform, sampled@, near@, kept, apply, nearest, equations, solve, decompose, product, compose, total)
        };
    assert(moved@ == moved2@);
    assert(sampled@ == sampled2@);
    assert(near@ == near2@);
    lemma_kept_one_way(
        kept,
        kept2,
        distance_bits_of(near@),
        kept_count(problem, near@.len()),
    );
    lemma_event_one_way(
        a,
        b,
        transform,
        rows_at(sampled@, kept),
        rows_at(rows_at(problem.target_pts@, matched_positions(near@)), kept),
        rows_at(rows_at(problem.target_normals@, matched_positions(near@)), kept),
        apply,
        nearest,
        equations,
        solve,
        decompose,
        product,
        compose,
        total,
    );
}

/// The event is what an iteration of the alignment of these points comes to.
pub open spec fn takes_step<
    T: Scalar,
    A: Fn(&Vec<[T; 4]>, &Transform<T>) -> Vec<[T; 3]>,
    N: Fn(&Vec<[T; 3]>) -> Vec<(usize, T)>,
    Q: Fn(&Vec<[T; 6]>, &Vec<T>) -> Equations<T>,
    D: Fn(&Equations<T>) -> Option<[T; 6]>,
    B: Fn(&Equations<T>) -> Result<Decomposition<T>, String>,
    W: Fn(&Factors<T>, &Equations<T>) -> [T; 6],
    C: Fn(&Transform<T>, &Transform<T>) -> Transform<T>,
    S: Fn(&Vec<T>) -> T,
>(
    event: IcpEvent<Transform<T>, T>,
    transform: Transform<T>,
    source_pts: Seq<[T; 3]>,
    target_pts: Seq<[T; 3]>,
    target_normals: Seq<[T; 3]>,
    sample_size: usize,
    trim_percentage: T,
    apply: A,
    nearest: N,
    equations: Q,
    solve: D,
    decompose: B,
    product: W,
    compose: C,
    total: S,
) -> bool {
    exists|problem: Problem<T>|
        {
            &&& #[trigger] is_problem_of(
                problem,
                source_pts,
                target_pts,
                target_normals,
                sample_size,
                trim_percentage,
            )
            &&& is_iteration(event, problem, transform, apply, nearest, equations, solve, decompose, product, compose, total)
        }
}

/// Each event is what an iteration comes to from where the events before it lead.
pub open spec fn iterates_through<
    T: Scalar,
    A: Fn(&Vec<[T; 4]>, &Transform<T>) -> Vec<[T; 3]>,
    N: Fn(&Vec<[T; 3]>) -> Vec<(usize, T)>,
    Q: Fn(&Vec<[T; 6]>, &Vec<T>) -> Equations<T>,
    D: Fn(&Equations<T>) -> Option<[T; 6]>,
    B: Fn(&Equations<T>) -> Result<Decomposition<T>, String>,
    W: Fn(&Factors<T>, &Equations<T>) -> [T; 6],
    C: Fn(&Transform<T>, &Transform<T>) -> Transform<T>,
    S: Fn(&Vec<T>) -> T,
>(
    initial: IcpState<Transform<T>, T>,
    events: Seq<IcpEvent<Transform<T>, T>>,
    max_iterations: usize,
    tolerance: T,
    source_pts: Seq<[T; 3]>,
    target_pts: Seq<[T; 3]>,
    target_normals: Seq<[T; 3]>,
    sample_size: usize,
    trim_percentage: T,
    apply: A,
    nearest: N,
    equations: Q,
    solve: D,
    decompose: B,
    product: W,
    compose: C,
    total: S,
) -> bool {
    forall|k: int|
        0 <= k < events.len() ==> {
            let reached = icp_run(initial, events.take(k), max_iterations, tolerance);
            &&& reached.status is Running
            &&& takes_step(
                #[trigger] events[k],
                reached.transform,
                source_pts,
                target_pts,
                target_normals,
                sample_size,
                trim_percentage,
                apply,
                nearest,
                equations,
                solve,
                decompose,
                product,
                compose,
                total,
            )
        }
}

/// `end` is where a run over events that are iterated through stands, and it has ended.
pub open spec fn ends_in<
    T: Scalar,
    A: Fn(&Vec<[T; 4]>, &Transform<T>) -> Vec<[T; 3]>,
    N: Fn(&Vec<[T; 3]>) -> Vec<(usize, T)>,
    Q: Fn(&Vec<[T; 6]>, &Vec<T>) -> Equations<T>,
    D: Fn(&Equations<T>) -> Option<[T; 6]>,
    B: Fn(&Equations<T>) -> Result<Decomposition<T>, String>,
    W: Fn(&Factors<T>, &Equations<T>) -> [T; 6],
    C: Fn(&Transform<T>, &Transform<T>) -> Transform<T>,
    S: Fn(&Vec<T>) -> T,
>(
    end: IcpState<Transform<T>, T>,
    events: Seq<IcpEvent<Transform<T>, T>>,
    initial_transform: Transform<T>,
    max_iterations: usize,
    tolerance: T,
    source_pts: Seq<[T; 3]>,
    target_pts: Seq<[T; 3]>,
    target_normals: Seq<[T; 3]>,
    sample_size: usize,
    trim_percentage: T,
    apply: A,
    nearest: N,
    equations: Q,
    solve: D,
    decompose: B,
    product: W,
    compose: C,
    total: S,
) -> bool {
    let initial = icp_initial(initial_transform, max_iterations);
    &&& !(end.status is Running)
    &&& end == icp_run(initial, events, max_iterations, tolerance)
    &&& iterates_through(
        initial,
        events,
        max_iterations,
        tolerance,
        source_pts,
        target_pts,
        target_normals,
        sample_size,
        trim_percentage,
        apply,
        nearest,
        equations,
        solve,
        decompose,
        product,
        compose,
        total,
    )
}

/// An alignment ends where the events of its iterations lead.
proof fn lemma_alignment_ends_in<
    T: Scalar,
    A: Fn(&Vec<[T; 4]>, &Transform<T>) -> Vec<[T; 3]>,
    N: Fn(&Vec<[T; 3]>) -> Vec<(usize, T)>,
    Q: Fn(&Vec<[T; 6]>, &Vec<T>) -> Equations<T>,
    D: Fn(&Equations<T>) -> Option<[T; 6]>,
    B: Fn(&Equations<T>) -> Result<Decomposition<T>, String>,
    W: Fn(&Factors<T>, &Equations<T>) -> [T; 6],
    C: Fn(&Transform<T>, &Transform<T>) -> Transform<T>,
    S: Fn(&Vec<T>) -> T,
    R: Fn(&IcpEvent<Transform<T>, T>, usize),
>(
    end: IcpState<Transform<T>, T>,
    initial_transform: Transform<T>,
    max_iterations: usize,
    tolerance: T,
    source_pts: Seq<[T; 3]>,
    target_pts: Seq<[T; 3]>,
    target_normals: Seq<[T; 3]>,
    sample_size: usize,
    trim_percentage: T,
    apply: A,
    nearest: N,
    equations: Q,
    solve: D,
    decompose: B,
    product: W,
    compose: C,
    total: S,
    report: R,
) -> (events: Seq<IcpEvent<Transform<T>, T>>)
    requires
        is_alignment(
            end,
            source_pts,
            target_pts,
            target_normals,
            initial_transform,
            max_iterations,
            tolerance,
            sample_size,
            trim_percentage,
            apply,
            nearest,
            equations,
            solve,
            decompose,
            product,
            compose,
            total,
            report,
        ),
    ensures
        ends_in(
            end,
            events,
            initial_transform,
            max_iterations,
            tolerance,
            source_pts,
            target_pts,
            target_normals,
            sample_size,
            trim_percentage,
            apply,
            nearest,
            equations,
            solve,
            decompose,
            product,
            compose,
            total,
        ),
{
    let initial = icp_initial::<Transform<T>, T>(initial_transform, max_iterations);
    let (problem, events) = choose|
        problem: Problem<T>,
        events: Seq<IcpEvent<Transform<T>, T>>,
    |
        {
            &&& is_problem_of(
                problem,
                source_pts,
                target_pts,
                target_normals,
                sample_size,
                trim_percentage,
            )
            &&& #[trigger] steps_through(
                problem,
                initial,
                events,
                max_iterations,
                tolerance,
                apply,
                nearest,
                equations,
                solve,
                decompose,
                product,
                compose,
                total,
                report,
            )
            &&& end == icp_run(initial, events, max_iterations, tolerance)
        };
    events
}

/// Two steps from the same transform, with every point taking part, are the same.
proof fn lemma_step_one_way<
    T: Scalar,
    A: Fn(&Vec<[T; 4]>, &Transform<T>) -> Vec<[T; 3]>,
    N: Fn(&Vec<[T; 3]>) -> Vec<(usize, T)>,
    Q: Fn(&Vec<[T; 6]>, &Vec<T>) -> Equations<T>,
    D: Fn(&Equations<T>) -> Option<[T; 6]>,
    B: Fn(&Equations<T>) -> Result<Decomposition<T>, String>,
    W: Fn(&Factors<T>, &Equations<T>) -> [T; 6],
    C: Fn(&Transform<T>, &Transform<T>) -> Transform<T>,
    S: Fn(&Vec<T>) -> T,
>(
    a: IcpEvent<Transform<T>, T>,
    b: IcpEvent<Transform<T>, T>,
    transform: Transform<T>,
    source_pts: Seq<[T; 3]>,
    target_pts: Seq<[T; 3]>,
    target_normals: Seq<[T; 3]>,
    sample_size: usize,
    trim_percentage: T,
    apply: A,
    nearest: N,
    equations: Q,
    solve: D,
    decompose: B,
    product: W,
    compose: C,
    total: S,
)
    requires
        determined(apply, nearest, equations, solve, decompose, product, compose, total),
        source_pts.len() <= sample_size,
        takes_step(
            a,
            transform,
            source_pts,
            target_pts,
            target_normals,
            sample_size,
            trim_percentage,
            apply,
            nearest,
            equations,
            solve,
            decompose,
            product,
            compose,
            total,
        ),
        takes_step(
            b,
            transform,
            source_pts,
            target_pts,
            target_normals,
            sample_size,
            trim_percentage,
            apply,
            nearest,
            equations,
            solve,
            decompose,
            product,
            compose,
            total,
        ),
    ensures
        same_step(a, b),
{
    let problem = choose|problem: Problem<T>|
        {
            &&& #[trigger] is_problem_of(
                problem,
                source_pts,
                target_pts,
                target_normals,
                sample_size,
                trim_percentage,
            )
            &&& is_iteration(a, problem, transform, apply, nearest, equations, solve, decompose, product, compose, total)
        };
    let other = choose|problem: Problem<T>|
        {
            &&& #[trigger] is_problem_of(
                problem,
                source_pts,
                target_pts,
                target_normals,
                sample_size,
                trim_percentage,
            )
            &&& is_iteration(b, problem, transform, apply, nearest, equations, solve, decompose, product, compose, total)
        };
    lemma_iteration_one_way(
        a,
        b,
        problem,
        other,
        transform,
        positions(source_pts.len()),
        apply,
        nearest,
        equations,
        solve,
        decompose,
        product,
        compose,
        total,
    );
}

/// Two lists of events that are iterated through lead to the same states.
proof fn lemma_runs_agree<
    T: Scalar,
    A: Fn(&Vec<[T; 4]>, &Transform<T>) -> Vec<[T; 3]>,
    N: Fn(&Vec<[T; 3]>) -> Vec<(usize, T)>,
    Q: Fn(&Vec<[T; 6]>, &Vec<T>) -> Equations<T>,
    D: Fn(&Equations<T>) -> Option<[T; 6]>,
    B: Fn(&Equations<T>) -> Result<Decomposition<T>, String>,
    W: Fn(&Factors<T>, &Equations<T>) -> [T; 6],
    C: Fn(&Transform<T>, &Transform<T>) -> Transform<T>,
    S: Fn(&Vec<T>) -> T,
>(
    initial: IcpState<Transform<T>, T>,
    a: Seq<IcpEvent<Transform<T>, T>>,
    b: Seq<IcpEvent<Transform<T>, T>>,
    n: int,
    max_iterations: usize,
    tolerance: T,
    source_pts: Seq<[T; 3]>,
    target_pts: Seq<[T; 3]>,
    target_normals: Seq<[T; 3]>,
    sample_size: usize,
    trim_percentage: T,
    apply: A,
    nearest: N,
    equations: Q,
    solve: D,
    decompose: B,
    product: W,
    compose: C,
    total: S,
)
    requires
        determined(apply, nearest, equations, solve, decompose, product, compose, total),
        source_pts.len() <= sample_size,
        0 <= n <= a.len(),
        n <= b.len(),
        iterates_through(
            initial,
            a,
            max_iterations,
            tolerance,
            source_pts,
            target_pts,
            target_normals,
            sample_size,
            trim_percentage,
            apply,
            nearest,
            equations,
            solve,
            decompose,
            product,
            compose,
            total,
        ),
        iterates_through(
            initial,
            b,
            max_iterations,
            tolerance,
            source_pts,
            target_pts,
            target_normals,
            sample_size,
            trim_percentage,
            apply,
            nearest,
            equations,
            solve,
            decompose,
            product,
            compose,
            total,
        ),
    ensures
        icp_run(initial, a.take(n), max_iterations, tolerance) == icp_run(
            initial,
            b.take(n),
            max_iterations,
            tolerance,
        ),
    decreases n,
{
    if n > 0 {
        let m = n - 1;
        lemma_runs_agree(
            initial,
            a,
            b,
            m,
            max_iterations,
            tolerance,
            source_pts,
            target_pts,
            target_normals,
            sample_size,
            trim_percentage,
            apply,
            nearest,
            equations,
            solve,
            decompose,
            product,
            compose,
            total,
        );
        let reached = icp_run(initial, a.take(m), max_iterations, tolerance);
        lemma_step_one_way(
            a[m],
            b[m],
            reached.transform,
            source_pts,
            target_pts,
            target_normals,
            sample_size,
            trim_percentage,
            apply,
            nearest,
            equations,
            solve,
            decompose,
            product,
            compose,
            total,
        );
        assert(a.take(n) =~= a.take(m).push(a[m]));
        assert(b.take(n) =~= b.take(m).push(b[m]));
        lemma_run_push(initial, a.take(m), a[m], max_iterations, tolerance);
        lemma_run_push(initial, b.take(m), b[m], max_iterations, tolerance);
    } else {
        assert(a.take(n) =~= b.take(n));
    }
}

/// Events that are iterated through end in one state.
proof fn lemma_one_end<
    T: Scalar,
    A: Fn(&Vec<[T; 4]>, &Transform<T>) -> Vec<[T; 3]>,
    N: Fn(&Vec<[T; 3]>) -> Vec<(usize, T)>,
    Q: Fn(&Vec<[T; 6]>, &Vec<T>) -> Equations<T>,
    D: Fn(&Equations<T>) -> Option<[T; 6]>,
    B: Fn(&Equations<T>) -> Result<Decomposition<T>, String>,
    W: Fn(&Factors<T>, &Equations<T>) -> [T; 6],
    C: Fn(&Transform<T>, &Transform<T>) -> Transform<T>,
    S: Fn(&Vec<T>) -> T,
>(
    a: IcpState<Transform<T>, T>,
    b: IcpState<Transform<T>, T>,
    first: Seq<IcpEvent<Transform<T>, T>>,
    second: Seq<IcpEvent<Transform<T>, T>>,
    initial_transform: Transform<T>,
    max_iterations: usize,
    tolerance: T,
    source_pts: Seq<[T; 3]>,
    target_pts: Seq<[T; 3]>,
    target_normals: Seq<[T; 3]>,
    sample_size: usize,
    trim_percentage: T,
    apply: A,
    nearest: N,
    equations: Q,
    solve: D,
    decompose: B,
    product: W,
    compose: C,
    total: S,
)
    requires
        determined(apply, nearest, equations, solve, decompose, product, compose, total),
        source_pts.len() <= sample_size,
        ends_in(
            a,
            first,
            initial_transform,
            max_iterations,
            tolerance,
            source_pts,
            target_pts,
            target_normals,
            sample_size,
            trim_percentage,
            apply,
            nearest,
            equations,
            solve,
            decompose,
            product,
            compose,
            total,
        ),
        ends_in(
            b,
            second,
            initial_transform,
            max_iterations,
            tolerance,
            source_pts,
            target_pts,
            target_normals,
            sample_size,
            trim_percentage,
            apply,
            nearest,
            equations,
            solve,
            decompose,
            product,
            compose,
            total,
        ),
    ensures
        a == b,
{
    let initial = icp_initial::<Transform<T>, T>(initial_transform, max_iterations);
    let n = if first.len() <= second.len() {
        first.len() as int
    } else {
        second.len() as int
    };
    lemma_runs_agree(
        initial,
        first,
        second,
        n,
        max_iterations,
        tolerance,
        source_pts,
        target_pts,
        target_normals,
        sample_size,
        trim_percentage,
        apply,
        nearest,
        equations,
        solve,
        decompose,
        product,
        compose,
        total,
    );
    assert(first.take(first.len() as int) =~= first);
    assert(second.take(second.len() as int) =~= second);
    if first.len() < second.len() {
        assert(takes_step(
            second[n],
            icp_run(initial, second.take(n), max_iterations, tolerance).transform,
            source_pts,
            target_pts,
            target_normals,
            sample_size,
            trim_percentage,
            apply,
            nearest,
            equations,
            solve,
            decompose,
            product,
            compose,
            total,
        ));
    } else if second.len() < first.len() {
        assert(takes_step(
            first[n],
            icp_run(initial, first.take(n), max_iterations, tolerance).transform,
            source_pts,
            target_pts,
            target_normals,
            sample_size,
            trim_percentage,
            apply,
            nearest,
            equations,
            solve,
            decompose,
            product,
            compose,
            total,
        ));
    }
}

/// An alignment with determined functions in which every point takes part has one result.
pub proof fn law_alignment_is_determined<
    T: Scalar,
    A: Fn(&Vec<[T; 4]>, &Transform<T>) -> Vec<[T; 3]>,
    N: Fn(&Vec<[T; 3]>) -> Vec<(usize, T)>,
    Q: Fn(&Vec<[T; 6]>, &Vec<T>) -> Equations<T>,
    D: Fn(&Equations<T>) -> Option<[T; 6]>,
    B: Fn(&Equations<T>) -> Result<Decomposition<T>, String>,
    W: Fn(&Factors<T>, &Equations<T>) -> [T; 6],
    C: Fn(&Transform<T>, &Transform<T>) -> Transform<T>,
    S: Fn(&Vec<T>) -> T,
    R: Fn(&IcpEvent<Transform<T>, T>, usize),
>(
    a: IcpState<Transform<T>, T>,
    b: IcpState<Transform<T>, T>,
    initial_transform: Transform<T>,
    max_iterations: usize,
    tolerance: T,
    source_pts: Seq<[T; 3]>,
    target_pts: Seq<[T; 3]>,
    target_normals: Seq<[T; 3]>,
    sample_size: usize,
    trim_percentage: T,
    apply: A,
    nearest: N,
    equations: Q,
    solve: D,
    decompose: B,
    product: W,
    compose: C,
    total: S,
    report: R,
)
    requires
        determined(apply, nearest, equations, solve, decompose, product, compose, total),
        source_pts.len() <= sample_size,
        is_alignment(
            a,
            source_pts,
            target_pts,
            target_normals,
            initial_transform,
            max_iterations,
            tolerance,
            sample_size,
            trim_percentage,
            apply,
            nearest,
            equations,
            solve,
            decompose,
            product,
            compose,
            total,
            report,
        ),
        is_alignment(
            b,
            source_pts,
            target_pts,
            target_normals,
            initial_transform,
            max_iterations,
            tolerance,
            sample_size,
            trim_percentage,
            apply,
            nearest,
            equations,
            solve,
            decompose,
            product,
            compose,
            total,
            report,
        ),
    ensures
        a == b,
{
    let first = lemma_alignment_ends_in(
        a,
        initial_transform,
        max_iterations,
        tolerance,
        source_pts,
        target_pts,
        target_normals,
        sample_size,
        trim_percentage,
        apply,
        nearest,
        equations,
        solve,
        decompose,
        product,
        compose,
        total,
        report,
    );
    let second = lemma_alignment_ends_in(
        b,
        initial_transform,
        max_iterations,
        tolerance,
        source_pts,
        target_pts,
        target_normals,
        sample_size,
        trim_percentage,
        apply,
        nearest,
        equations,
        solve,
        decompose,
        product,
        compose,
        total,
        report,
    );
    lemma_one_end(
        a,
        b,
        first,
        second,
        initial_transform,
        max_iterations,
        tolerance,
        source_pts,
        target_pts,
        target_normals,
        sample_size,
        trim_percentage,
        apply,
        nearest,
        equations,
        solve,
        decompose,
        product,
        compose,
        total,
    );
}

/// Events that do not use up their limit are iterated through under a larger one.
proof fn lemma_larger_limit_ends_in<
    T: Scalar,
    A: Fn(&Vec<[T; 4]>, &Transform<T>) -> Vec<[T; 3]>,
    N: Fn(&Vec<[T; 3]>) -> Vec<(usize, T)>,
    Q: Fn(&Vec<[T; 6]>, &Vec<T>) -> Equations<T>,
    D: Fn(&Equations<T>) -> Option<[T; 6]>,
    B: Fn(&Equations<T>) -> Result<Decomposition<T>, String>,
    W: Fn(&Factors<T>, &Equations<T>) -> [T; 6],
    C: Fn(&Transform<T>, &Transform<T>) -> Transform<T>,
    S: Fn(&Vec<T>) -> T,
>(
    end: IcpState<Transform<T>, T>,
    events: Seq<IcpEvent<Transform<T>, T>>,
    initial_transform: Transform<T>,
    small: usize,
    large: usize,
    tolerance: T,
    source_pts: Seq<[T; 3]>,
    target_pts: Seq<[T; 3]>,
    target_normals: Seq<[T; 3]>,
    sample_size: usize,
    trim_percentage: T,
    apply: A,
    nearest: N,
    equations: Q,
    solve: D,
    decompose: B,
    product: W,
    compose: C,
    total: S,
)
    requires
        small <= large,
        !(end.status is Exhausted),
        ends_in(
            end,
            events,
            initial_transform,
            small,
            tolerance,
            source_pts,
            target_pts,
            target_normals,
            sample_size,
            trim_percentage,
            apply,
            nearest,
            equations,
            solve,
            decompose,
            product,
            compose,
            total,
        ),
    ensures
        ends_in(
            end,
            events,
            initial_transform,
            large,
            tolerance,
            source_pts,
            target_pts,
            target_normals,
            sample_size,
            trim_percentage,
            apply,
            nearest,
            equations,
            solve,
            decompose,
            product,
            compose,
            total,
        ),
{
    let initial = icp_initial::<Transform<T>, T>(initial_transform, small);
    lemma_iterations_grow(initial, events, small, tolerance);
    assert(small > 0);
    lemma_larger_limit(initial, events, small, large, tolerance);
    assert forall|k: int| 0 <= k < events.len() implies {
        let reached = icp_run(initial, events.take(k), large, tolerance);
        &&& reached.status is Running
        &&& takes_step(
            #[trigger] events[k],
            reached.transform,
            source_pts,
            target_pts,
            target_normals,
            sample_size,
            trim_percentage,
            apply,
            nearest,
            equations,
            solve,
            decompose,
            product,
            compose,
            total,
        )
    } by {
        assert(takes_step(
            events[k],
            icp_run(initial, events.take(k), small, tolerance).transform,
            source_pts,
            target_pts,
            target_normals,
            sample_size,
            trim_percentage,
            apply,
            nearest,
            equations,
            solve,
            decompose,
            product,
            compose,
            total,
        ));
        lemma_larger_limit(initial, events.take(k), small, large, tolerance);
    }
}

/// An alignment that converged, or failed, under one limit comes to the same under any
/// larger one.
pub proof fn law_alignment_ends_the_same<
    T: Scalar,
    A: Fn(&Vec<[T; 4]>, &Transform<T>) -> Vec<[T; 3]>,
    N: Fn(&Vec<[T; 3]>) -> Vec<(usize, T)>,
    Q: Fn(&Vec<[T; 6]>, &Vec<T>) -> Equations<T>,
    D: Fn(&Equations<T>) -> Option<[T; 6]>,
    B: Fn(&Equations<T>) -> Result<Decomposition<T>, String>,
    W: Fn(&Factors<T>, &Equations<T>) -> [T; 6],
    C: Fn(&Transform<T>, &Transform<T>) -> Transform<T>,
    S: Fn(&Vec<T>) -> T,
    R: Fn(&IcpEvent<Transform<T>, T>, usize),
>(
    a: IcpState<Transform<T>, T>,
    b: IcpState<Transform<T>, T>,
    initial_transform: Transform<T>,
    small: usize,
    large: usize,
    tolerance: T,
    source_pts: Seq<[T; 3]>,
    target_pts: Seq<[T; 3]>,
    target_normals: Seq<[T; 3]>,
    sample_size: usize,
    trim_percentage: T,
    apply: A,
    nearest: N,
    equations: Q,
    solve: D,
    decompose: B,
    product: W,
    compose: C,
    total: S,
    report: R,
)
    requires
        determined(apply, nearest, equations, solve, decompose, product, compose, total),
        source_pts.len() <= sample_size,
        small <= large,
        !(a.status is Exhausted),
        is_alignment(
            a,
            source_pts,
            target_pts,
            target_normals,
            initial_transform,
            small,
            tolerance,
            sample_size,
            trim_percentage,
            apply,
            nearest,
            equations,
            solve,
            decompose,
            product,
            compose,
            total,
            report,
        ),
        is_alignment(
            b,
            source_pts,
            target_pts,
            target_normals,
            initial_transform,
            large,
            tolerance,
            sample_size,
            trim_percentage,
            apply,
            nearest,
            equations,
            solve,
            decompose,
            product,
            compose,
            total,
            report,
        ),
    ensures
        a == b,
{
    let first = lemma_alignment_ends_in(
        a,
        initial_transform,
        small,
        tolerance,
        source_pts,
        target_pts,
        target_normals,
        sample_size,
        trim_percentage,
        apply,
        nearest,
        equations,
        solve,
        decompose,
        product,
        compose,
        total,
        report,
    );
    let second = lemma_alignment_ends_in(
        b,
        initial_transform,
        large,
        tolerance,
        source_pts,
        target_pts,
        target_normals,
        sample_size,
        trim_percentage,
        apply,
        nearest,
        equations,
        solve,
        decompose,
        product,
        compose,
        total,
        report,
    );
    lemma_larger_limit_ends_in(
        a,
        first,
        initial_transform,
        small,
        large,
        tolerance,
        source_pts,
        target_pts,
        target_normals,
        sample_size,
        trim_percentage,
        apply,
        nearest,
        equations,
        solve,
        decompose,
        product,
        compose,
        total,
    );
    lemma_one_end(
        a,
        b,
        first,
        second,
        initial_transform,
        large,
        tolerance,
        source_pts,
        target_pts,
        target_normals,
        sample_size,
        trim_percentage,
        apply,
        nearest,
        equations,
        solve,
        decompose,
        product,
        compose,
        total,
    );
}

/// As long as events lead on, each makes one iteration.
proof fn lemma_iterations_made<
    T: Scalar,
    A: Fn(&Vec<[T; 4]>, &Transform<T>) -> Vec<[T; 3]>,
    N: Fn(&Vec<[T; 3]>) -> Vec<(usize, T)>,
    Q: Fn(&Vec<[T; 6]>, &Vec<T>) -> Equations<T>,
    D: Fn(&Equations<T>) -> Option<[T; 6]>,
    B: Fn(&Equations<T>) -> Result<Decomposition<T>, String>,
    W: Fn(&Factors<T>, &Equations<T>) -> [T; 6],
    C: Fn(&Transform<T>, &Transform<T>) -> Transform<T>,
    S: Fn(&Vec<T>) -> T,
>(
    events: Seq<IcpEvent<Transform<T>, T>>,
    n: int,
    initial_transform: Transform<T>,
    max_iterations: usize,
    tolerance: T,
    source_pts: Seq<[T; 3]>,
    target_pts: Seq<[T; 3]>,
    target_normals: Seq<[T; 3]>,
    sample_size: usize,
    trim_percentage: T,
    apply: A,
    nearest: N,
    equations: Q,
    solve: D,
    decompose: B,
    product: W,
    compose: C,
    total: S,
)
    requires
        0 <= n <= events.len(),
        iterates_through(
            icp_initial(initial_transform, max_iterations),
            events,
            max_iterations,
            tolerance,
            source_pts,
            target_pts,
            target_normals,
            sample_size,
            trim_percentage,
            apply,
            nearest,
            equations,
            solve,
            decompose,
            product,
            compose,
            total,
        ),
    ensures
        ({
            let reached = icp_run(
                icp_initial::<Transform<T>, T>(initial_transform, max_iterations),
                events.take(n),
                max_iterations,
                tolerance,
            );
            reached.status is Running || reached.status is Exhausted ==> reached.iteration == n
        }),
    decreases n,
{
    let initial = icp_initial::<Transform<T>, T>(initial_transform, max_iterations);
    if n > 0 {
        let m = n - 1;
        lemma_iterations_made(
            events,
            m,
            initial_transform,
            max_iterations,
            tolerance,
            source_pts,
            target_pts,
            target_normals,
            sample_size,
            trim_percentage,
            apply,
            nearest,
            equations,
            solve,
            decompose,
            product,
            compose,
            total,
        );
        let reached = icp_run(initial, events.take(m), max_iterations, tolerance);
        assert(takes_step(
            events[m],
            reached.transform,
            source_pts,
            target_pts,
            target_normals,
            sample_size,
            trim_percentage,
            apply,
            nearest,
            equations,
            solve,
            decompose,
            product,
            compose,
            total,
        ));
        lemma_iterations_grow(initial, events.take(m), max_iterations, tolerance);
        assert(events.take(n) =~= events.take(m).push(events[m]));
        lemma_run_push(initial, events.take(m), events[m], max_iterations, tolerance);
    }
}

/// The events of an alignment that used up its iterations and those of one from where it
/// stopped are, one after the other, those of an alignment with both limits.
proof fn lemma_events_compose<
    T: Scalar,
    A: Fn(&Vec<[T; 4]>, &Transform<T>) -> Vec<[T; 3]>,
    N: Fn(&Vec<[T; 3]>) -> Vec<(usize, T)>,
    Q: Fn(&Vec<[T; 6]>, &Vec<T>) -> Equations<T>,
    D: Fn(&Equations<T>) -> Option<[T; 6]>,
    B: Fn(&Equations<T>) -> Result<Decomposition<T>, String>,
    W: Fn(&Factors<T>, &Equations<T>) -> [T; 6],
    C: Fn(&Transform<T>, &Transform<T>) -> Transform<T>,
    S: Fn(&Vec<T>) -> T,
>(
    first: Seq<IcpEvent<Transform<T>, T>>,
    second: Seq<IcpEvent<Transform<T>, T>>,
    middle: IcpState<Transform<T>, T>,
    end: IcpState<Transform<T>, T>,
    initial_transform: Transform<T>,
    a: usize,
    b: usize,
    tolerance: T,
    source_pts: Seq<[T; 3]>,
    target_pts: Seq<[T; 3]>,
    target_normals: Seq<[T; 3]>,
    sample_size: usize,
    trim_percentage: T,
    apply: A,
    nearest: N,
    equations: Q,
    solve: D,
    decompose: B,
    product: W,
    compose: C,
    total: S,
)
    requires
        a + b <= usize::MAX,
        middle.status is Exhausted,
        ends_in(
            middle,
            first,
            initial_transform,
            a,
            tolerance,
            source_pts,
            target_pts,
            target_normals,
            sample_size,
            trim_percentage,
            apply,
            nearest,
            equations,
            solve,
            decompose,
            product,
            compose,
            total,
        ),
        ends_in(
            end,
            second,
            middle.transform,
            b,
            tolerance,
            source_pts,
            target_pts,
            target_normals,
            sample_size,
            trim_percentage,
            apply,
            nearest,
            equations,
            solve,
            decompose,
            product,
            compose,
            total,
        ),
    ensures
        ({
            let limit = (a + b) as usize;
            let whole = icp_run(
                icp_initial::<Transform<T>, T>(initial_transform, limit),
                first + second,
                limit,
                tolerance,
            );
            &&& is_shifted(whole, end, a, middle.last_error)
            &&& ends_in(
                whole,
                first + second,
                initial_transform,
                limit,
                tolerance,
                source_pts,
                target_pts,
                target_normals,
                sample_size,
                trim_percentage,
                apply,
                nearest,
                equations,
                solve,
                decompose,
                product,
                compose,
                total,
            )
        }),
{
    let limit = (a + b) as usize;
    let start = icp_initial::<Transform<T>, T>(initial_transform, a);
    let wider = icp_initial::<Transform<T>, T>(initial_transform, limit);
    let onward = icp_initial::<Transform<T>, T>(middle.transform, b);
    let events = first + second;
    assert(first.take(first.len() as int) =~= first);
    lemma_iterations_made(
        first,
        first.len() as int,
        initial_transform,
        a,
        tolerance,
        source_pts,
        target_pts,
        target_normals,
        sample_size,
        trim_percentage,
        apply,
        nearest,
        equations,
        solve,
        decompose,
        product,
        compose,
        total,
    );
    lemma_iterations_grow(start, first, a, tolerance);
    assert(first.len() == a);
    law_runs_compose(initial_transform, first, second, a, b, tolerance);
    assert forall|k: int| 0 <= k < events.len() implies {
        let reached = icp_run(wider, events.take(k), limit, tolerance);
        &&& reached.status is Running
        &&& takes_step(
            #[trigger] events[k],
            reached.transform,
            source_pts,
            target_pts,
            target_normals,
            sample_size,
            trim_percentage,
            apply,
            nearest,
            equations,
            solve,
            decompose,
            product,
            compose,
            total,
        )
    } by {
        if k < a {
            assert(events.take(k) =~= first.take(k));
            assert(takes_step(
                first[k],
                icp_run(start, first.take(k), a, tolerance).transform,
                source_pts,
                target_pts,
                target_normals,
                sample_size,
                trim_percentage,
                apply,
                nearest,
                equations,
                solve,
                decompose,
                product,
                compose,
                total,
            ));
            lemma_larger_limit(start, first.take(k), a, limit, tolerance);
        } else {
            assert(events.take(k) =~= first + second.take(k - a));
            assert(takes_step(
                second[k - a],
                icp_run(onward, second.take(k - a), b, tolerance).transform,
                source_pts,
                target_pts,
                target_normals,
                sample_size,
                trim_percentage,
                apply,
                nearest,
                equations,
                solve,
                decompose,
                product,
                compose,
                total,
            ));
            law_runs_compose(initial_transform, first, second.take(k - a), a, b, tolerance);
        }
    }
}

/// Where a system could not be solved, it cannot be solved from there either.
proof fn lemma_failure_repeats<
    T: Scalar,
    A: Fn(&Vec<[T; 4]>, &Transform<T>) -> Vec<[T; 3]>,
    N: Fn(&Vec<[T; 3]>) -> Vec<(usize, T)>,
    Q: Fn(&Vec<[T; 6]>, &Vec<T>) -> Equations<T>,
    D: Fn(&Equations<T>) -> Option<[T; 6]>,
    B: Fn(&Equations<T>) -> Result<Decomposition<T>, String>,
    W: Fn(&Factors<T>, &Equations<T>) -> [T; 6],
    C: Fn(&Transform<T>, &Transform<T>) -> Transform<T>,
    S: Fn(&Vec<T>) -> T,
>(
    first: Seq<IcpEvent<Transform<T>, T>>,
    second: Seq<IcpEvent<Transform<T>, T>>,
    middle: IcpState<Transform<T>, T>,
    end: IcpState<Transform<T>, T>,
    initial_transform: Transform<T>,
    a: usize,
    b: usize,
    tolerance: T,
    source_pts: Seq<[T; 3]>,
    target_pts: Seq<[T; 3]>,
    target_normals: Seq<[T; 3]>,
    sample_size: usize,
    trim_percentage: T,
    apply: A,
    nearest: N,
    equations: Q,
    solve: D,
    decompose: B,
    product: W,
    compose: C,
    total: S,
)
    requires
        determined(apply, nearest, equations, solve, decompose, product, compose, total),
        source_pts.len() <= sample_size,
        b > 0,
        middle.status is SolverFailed,
        ends_in(
            middle,
            first,
            initial_transform,
            a,
            tolerance,
            source_pts,
            target_pts,
            target_normals,
            sample_size,
            trim_percentage,
            apply,
            nearest,
            equations,
            solve,
            decompose,
            product,
            compose,
            total,
        ),
        ends_in(
            end,
            second,
            middle.transform,
            b,
            tolerance,
            source_pts,
            target_pts,
            target_normals,
            sample_size,
            trim_percentage,
            apply,
            nearest,
            equations,
            solve,
            decompose,
            product,
            compose,
            total,
        ),
    ensures
        end.transform == middle.transform,
        end.status is SolverFailed,
{
    let start = icp_initial::<Transform<T>, T>(initial_transform, a);
    let onward = icp_initial::<Transform<T>, T>(middle.transform, b);
    let m = first.len() - 1;
    assert(first.len() > 0);
    let reached = icp_run(start, first.take(m), a, tolerance);
    assert(takes_step(
        first[m],
        reached.transform,
        source_pts,
        target_pts,
        target_normals,
        sample_size,
        trim_percentage,
        apply,
        nearest,
        equations,
        solve,
        decompose,
        product,
        compose,
        total,
    ));
    assert(first =~= first.take(m).push(first[m]));
    lemma_run_push(start, first.take(m), first[m], a, tolerance);
    assert(middle == icp_next(reached, first[m], a, tolerance));
    assert(second.len() > 0);
    assert(second.take(0) =~= Seq::empty());
    assert(icp_run(onward, second.take(0), b, tolerance) == onward);
    assert(takes_step(
        second[0],
        onward.transform,
        source_pts,
        target_pts,
        target_normals,
        sample_size,
        trim_percentage,
        apply,
        nearest,
        equations,
        solve,
        decompose,
        product,
        compose,
        total,
    ));
    lemma_step_one_way(
        first[m],
        second[0],
        middle.transform,
        source_pts,
        target_pts,
        target_normals,
        sample_size,
        trim_percentage,
        apply,
        nearest,
        equations,
        solve,
        decompose,
        product,
        compose,
        total,
    );
    let next = icp_next(onward, second[0], b, tolerance);
    assert(icp_run(next, second.drop_first(), b, tolerance) == next);
}

/// An alignment of `a` iterations that did not converge, followed by one of `b` from where
/// it stopped, is an alignment of `a + b`: it comes to the same transform and ends in the
/// same way, and where no system was unsolvable, with the same error.
pub proof fn law_alignments_compose<
    T: Scalar,
    A: Fn(&Vec<[T; 4]>, &Transform<T>) -> Vec<[T; 3]>,
    N: Fn(&Vec<[T; 3]>) -> Vec<(usize, T)>,
    Q: Fn(&Vec<[T; 6]>, &Vec<T>) -> Equations<T>,
    D: Fn(&Equations<T>) -> Option<[T; 6]>,
    B: Fn(&Equations<T>) -> Result<Decomposition<T>, String>,
    W: Fn(&Factors<T>, &Equations<T>) -> [T; 6],
    C: Fn(&Transform<T>, &Transform<T>) -> Transform<T>,
    S: Fn(&Vec<T>) -> T,
    R: Fn(&IcpEvent<Transform<T>, T>, usize),
>(
    middle: IcpState<Transform<T>, T>,
    end: IcpState<Transform<T>, T>,
    whole: IcpState<Transform<T>, T>,
    initial_transform: Transform<T>,
    a: usize,
    b: usize,
    tolerance: T,
    source_pts: Seq<[T; 3]>,
    target_pts: Seq<[T; 3]>,
    target_normals: Seq<[T; 3]>,
    sample_size: usize,
    trim_percentage: T,
    apply: A,
    nearest: N,
    equations: Q,
    solve: D,
    decompose: B,
    product: W,
    compose: C,
    total: S,
    report: R,
)
    requires
        determined(apply, nearest, equations, solve, decompose, product, compose, total),
        source_pts.len() <= sample_size,
        b > 0,
        a + b <= usize::MAX,
        !(middle.status is Converged),
        is_alignment(
            middle,
            source_pts,
            target_pts,
            target_normals,
            initial_transform,
            a,
            tolerance,
            sample_size,
            trim_percentage,
            apply,
            nearest,
            equations,
            solve,
            decompose,
            product,
            compose,
            total,
            report,
        ),
        is_alignment(
            end,
            source_pts,
            target_pts,
            target_normals,
            middle.transform,
            b,
            tolerance,
            sample_size,
            trim_percentage,
            apply,
            nearest,
            equations,
            solve,
            decompose,
            product,
            compose,
            total,
            report,
        ),
        is_alignment(
            whole,
            source_pts,
            target_pts,
            target_normals,
            initial_transform,
            (a + b) as usize,
            tolerance,
            sample_size,
            trim_percentage,
            apply,
            nearest,
            equations,
            solve,
            decompose,
            product,
            compose,
            total,
            report,
        ),
    ensures
        whole.transform == end.transform,
        whole.status == end.status,
        !(whole.status is SolverFailed) ==> whole.last_error == end.last_error,
{
    let limit = (a + b) as usize;
    let first = lemma_alignment_ends_in(
        middle,
        initial_transform,
        a,
        tolerance,
        source_pts,
        target_pts,
        target_normals,
        sample_size,
        trim_percentage,
        apply,
        nearest,
        equations,
        solve,
        decompose,
        product,
        compose,
        total,
        report,
    );
    let second = lemma_alignment_ends_in(
        end,
        middle.transform,
        b,
        tolerance,
        source_pts,
        target_pts,
        target_normals,
        sample_size,
        trim_percentage,
        apply,
        nearest,
        equations,
        solve,
        decompose,
        product,
        compose,
        total,
        report,
    );
    let events = lemma_alignment_ends_in(
        whole,
        initial_transform,
        limit,
        tolerance,
        source_pts,
        target_pts,
        target_normals,
        sample_size,
        trim_percentage,
        apply,
        nearest,
        equations,
        solve,
        decompose,
        product,
        compose,
        total,
        report,
    );
    if middle.status is Exhausted {
        lemma_events_compose(
            first,
            second,
            middle,
            end,
            initial_transform,
            a,
            b,
            tolerance,
            source_pts,
            target_pts,
            target_normals,
            sample_size,
            trim_percentage,
            apply,
            nearest,
            equations,
            solve,
            decompose,
            product,
            compose,
            total,
        );
        lemma_one_end(
            whole,
            icp_run(
                icp_initial::<Transform<T>, T>(initial_transform, limit),
                first + second,
                limit,
                tolerance,
            ),
            events,
            first + second,
            initial_transform,
            limit,
            tolerance,
            source_pts,
            target_pts,
            target_normals,
            sample_size,
            trim_percentage,
            apply,
            nearest,
            equations,
            solve,
            decompose,
            product,
            compose,
            total,
        );
        lemma_iterations_grow(icp_initial(middle.transform, b), second, b, tolerance);
    } else {
        lemma_larger_limit_ends_in(
            middle,
            first,
            initial_transform,
            a,
            limit,
            tolerance,
            source_pts,
            target_pts,
            target_normals,
            sample_size,
            trim_percentage,
            apply,
            nearest,
            equations,
            solve,
            decompose,
            product,
            compose,
            total,
        );
        lemma_one_end(
            whole,
            middle,
            events,
            first,
            initial_transform,
            limit,
            tolerance,
            source_pts,
            target_pts,
            target_normals,
            sample_size,
            trim_percentage,
            apply,
            nearest,
            equations,
            solve,
            decompose,
            product,
            compose,
            total,
        );
        lemma_failure_repeats(
            first,
            second,
            middle,
            end,
            initial_transform,
            a,
            b,
            tolerance,
            source_pts,
            target_pts,
            target_normals,
            sample_size,
            trim_percentage,
            apply,
            nearest,
            equations,
            solve,
            decompose,
            product,
            compose,
            total,
        );
    }
}

} // verus!

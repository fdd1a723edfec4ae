//! An iteration in which only a sample of the source points takes part is an iteration on
//! the cloud of those points.
use crate::alignment::{homogeneous_of, Decomposition, Equations, Factors, Transform};
use crate::icp::{icp_initial, icp_next, icp_run, is_sample, IcpEvent, IcpState};
use crate::iteration::{
    is_alignment, is_fit, is_iteration, is_iteration_on, is_problem_of, is_selection,
    matched_positions, steps_through, Problem,
};
use crate::rows::{all_within, positions, rows_at};
use crate::scalar::Scalar;
use vstd::prelude::*;

verus! {

/// `apply` works row by row: where it gives `moved` for some rows, it gives the
/// corresponding points of `moved` for any choice of those rows.
pub open spec fn works_by_row<T: Scalar, A: Fn(&Vec<[T; 4]>, &Transform<T>) -> Vec<[T; 3]>>(
    apply: A,
) -> bool {
    forall|rows: &Vec<[T; 4]>, m: &Transform<T>, moved: Vec<[T; 3]>, indices: Seq<usize>|
        #![trigger call_ensures(apply, (rows, m), moved), rows_at(moved@, indices)]
        call_ensures(apply, (rows, m), moved) && all_within(indices, rows@.len() as int)
            && indices.no_duplicates() ==> exists|sub: Vec<[T; 4]>, sub_moved: Vec<[T; 3]>|
            {
                &&& sub@ == rows_at(rows@, indices)
                &&& sub_moved@ == rows_at(moved@, indices)
                &&& #[trigger] call_ensures(apply, (&sub, m), sub_moved)
            }
}

/// `sub` is the problem of those source points that stand at `indices`.
pub open spec fn is_part_of<T>(sub: Problem<T>, problem: Problem<T>, indices: Seq<usize>) -> bool {
    &&& sub.source_rows@ == rows_at(problem.source_rows@, indices)
    &&& sub.target_pts == problem.target_pts
    &&& sub.target_normals == problem.target_normals
    &&& sub.sample_size == problem.sample_size
    &&& sub.trim_percentage == problem.trim_percentage
}

/// Picking every position picks everything.
proof fn lemma_all_picked<X>(rows: Vec<X>)
    ensures
        rows_at(rows@, positions(rows@.len())) == rows@,
{
    assert(rows@.len() == rows.len());
    assert(rows_at(rows@, positions(rows@.len())) =~= rows@);
}

/// What an iteration on a sample comes to, an iteration in which every point of the
/// sampled cloud takes part comes to as well.
pub proof fn law_iteration_on_sample<
    T: Scalar,
    A: Fn(&Vec<[T; 4]>, &Transform<T>) -> Vec<[T; 3]>,
    N: Fn(&Vec<[T; 3]>) -> Vec<(usize, T)>,
    Q: Fn(&Vec<[T; 6]>, &Vec<T>) -> Equations<T>,
    D: Fn(&Equations<T>) -> Option<[T; 6]>,
    B: Fn(&Equations<T>) -> Result<Decomposition<T>, String>,
    W: Fn(&Factors<T>, &Equations<T>) -> [T; 6],
    C: Fn(&Transform<T>, &Transform<T>) -> Transform<T>,
    S: Fn(&Vec<T>) -> T,
>(
    event: IcpEvent<Transform<T>, T>,
    problem: Problem<T>,
    transform: Transform<T>,
    indices: Seq<usize>,
    apply: A,
    nearest: N,
    equations: Q,
    solve: D,
    decompose: B,
    product: W,
    compose: C,
    total: S,
)
    requires
        works_by_row(apply),
        all_within(indices, problem.source_rows@.len() as int),
        indices.no_duplicates(),
        is_iteration_on(event, problem, transform, indices, apply, nearest, equations, solve, decompose, product, compose, total),
    ensures
        exists|sub: Problem<T>|
            {
                &&& #[trigger] is_part_of(sub, problem, indices)
                &&& is_iteration_on(
                    event,
                    sub,
                    transform,
                    positions(indices.len()),
                    apply,
                    nearest,
                    equations,
                    solve,
                    decompose,
                    product,
                    compose,
                    total,
                )
            },
{
    let (moved, sampled, near, kept) = choose|
        moved: Vec<[T; 3]>,
        sampled: Vec<[T; 3]>,
        near: Vec<(usize, T)>,
        kept: Seq<usize>,
    |
        {
            &&& #[trigger] is_selection(
                problem,
                transform,
                indices,
                apply,
                nearest,
                moved,
                sampled,
                near,
                kept,
            )
            &&& is_fit(
                event,
                transform,
                rows_at(sampled@, kept),
                rows_at(rows_at(problem.target_pts@, matched_positions(near@)), kept),
                rows_at(rows_at(problem.target_normals@, matched_positions(near@)), kept),
                apply,
                equations,
                solve,
                decompose,
                product,
                compose,
                total,
            )
        };
    let (rows, sub_moved) = choose|rows: Vec<[T; 4]>, sub_moved: Vec<[T; 3]>|
        {
            &&& rows@ == rows_at(problem.source_rows@, indices)
            &&& sub_moved@ == rows_at(moved@, indices)
            &&& #[trigger] call_ensures(apply, (&rows, &transform), sub_moved)
        };
    let sub = Problem {
        source_rows: rows,
        target_pts: problem.target_pts,
        target_normals: problem.target_normals,
        sample_size: problem.sample_size,
        trim_percentage: problem.trim_percentage,
    };
    lemma_all_picked(sub_moved);
    assert(is_selection(
        sub,
        transform,
        positions(indices.len()),
        apply,
        nearest,
        sub_moved,
        sampled,
        near,
        kept,
    ));
    assert(is_part_of(sub, problem, indices));
}

/// An alignment of one iteration comes to what the alignment of some sample of the source
/// points comes to: `sample_size` of them, none twice, where there are more.
pub proof fn law_alignment_on_sample<
    T: Scalar,
    A: Fn(&Vec<[T; 4]>, &Transform<T>) -> Vec<[T; 3]>,
    N: Fn(&Vec<[T; 3]>) -> Vec<(usize, T)>,
    Q: Fn(&Vec<[T; 6]>, &Vec<T>) -> Equations<T>,
    D: Fn(&Equations<T>) -> Option<[T; 6]>,
    B: Fn(&Equations<T>) -> Result<Decomposition<T>, String>,
    W: Fn(&Factors<T>, &Equations<T>) -> [T; 6],
    C: Fn(&Transform<T>, &Transform<T>) -> Transform<T>,
    S: Fn(&Vec<T>) -> T,
    R: Fn(&IcpEvent<Transform<T>, T>, usize),
>(
    end: IcpState<Transform<T>, T>,
    initial_transform: Transform<T>,
    tolerance: T,
    source_pts: Seq<[T; 3]>,
    target_pts: Seq<[T; 3]>,
    target_normals: Seq<[T; 3]>,
    sample_size: usize,
    trim_percentage: T,
    apply: A,
    nearest: N,
    equations: Q,
    solve: D,
    decompose: B,
    product: W,
    compose: C,
    total: S,
    report: R,
)
    requires
        works_by_row(apply),
        is_alignment(
            end,
            source_pts,
            target_pts,
            target_normals,
            initial_transform,
            1,
            tolerance,
            sample_size,
            trim_percentage,
            apply,
            nearest,
            equations,
            solve,
            decompose,
            product,
            compose,
            total,
            report,
        ),
    ensures
        exists|indices: Seq<usize>|
            {
                &&& #[trigger] is_sample(indices, source_pts.len(), sample_size as nat)
                &&& is_alignment(
                    end,
                    rows_at(source_pts, indices),
                    target_pts,
                    target_normals,
                    initial_transform,
                    1,
                    tolerance,
                    sample_size,
                    trim_percentage,
                    apply,
                    nearest,
                    equations,
                    solve,
                    decompose,
                    product,
                    compose,
                    total,
                    report,
                )
            },
{
    let initial = icp_initial::<Transform<T>, T>(initial_transform, 1);
    let (problem, events) = choose|
        problem: Problem<T>,
        events: Seq<IcpEvent<Transform<T>, T>>,
    |
        {
            &&& is_problem_of(
                problem,
                source_pts,
                target_pts,
                target_normals,
                sample_size,
                trim_percentage,
            )
            &&& #[trigger] steps_through(
                problem,
                initial,
                events,
                1,
                tolerance,
                apply,
                nearest,
                equations,
                solve,
                decompose,
                product,
                compose,
                total,
                report,
            )
            &&& end == icp_run(initial, events, 1, tolerance)
        };
    assert(events.len() > 0);
    assert(events.take(0) =~= Seq::empty());
    assert(icp_run(initial, events.take(0), 1, tolerance) == initial);
    assert(is_iteration(events[0], problem, initial_transform, apply, nearest, equations, solve, decompose, product, compose, total));
    let indices = choose|indices: Seq<usize>|
        {
            &&& #[trigger] is_sample(
                indices,
                problem.source_rows@.len(),
                problem.sample_size as nat,
            )
            &&& is_iteration_on(events[0], problem, initial_transform, indices, apply, nearest, equations, solve, decompose, product, compose, total)
        };
    law_iteration_on_sample(
        events[0],
        problem,
        initial_transform,
        indices,
        apply,
        nearest,
        equations,
        solve,
        decompose,
        product,
        compose,
        total,
    );
    let sub = choose|sub: Problem<T>|
        {
            &&& #[trigger] is_part_of(sub, problem, indices)
            &&& is_iteration_on(
                events[0],
                sub,
                initial_transform,
                positions(indices.len()),
                apply,
                nearest,
                equations,
                solve,
                decompose,
                product,
                compose,
                total,
            )
        };
    assert(sub.source_rows@ =~= homogeneous_of(rows_at(source_pts, indices)));
    let whole = positions(indices.len());
    assert(indices.len() == sub.source_rows.len());
    assert(is_sample(whole, sub.source_rows@.len(), sample_size as nat));
    let one = seq![events[0]];
    let next = icp_next(initial, events[0], 1, tolerance);
    assert(icp_run(next, events.drop_first(), 1, tolerance) == next);
    assert(one.drop_first() =~= Seq::empty());
    assert(icp_run(next, one.drop_first(), 1, tolerance) == next);
    assert(icp_run(initial, one, 1, tolerance) == next);
    assert forall|k: int| 0 <= k < one.len() implies {
        let reached = icp_run(initial, one.take(k), 1, tolerance);
        &&& reached.status is Running
        &&& is_iteration(#[trigger] one[k], sub, reached.transform, apply, nearest, equations, solve, decompose, product, compose, total)
        &&& call_ensures(report, (&one[k], reached.iteration), ())
    } by {
        assert(one.take(0) =~= Seq::empty());
        assert(one[0] == events[0]);
    }
    assert(steps_through(
        sub,
        initial,
        one,
        1,
        tolerance,
        apply,
        nearest,
        equations,
        solve,
        decompose,
        product,
        compose,
        total,
        report,
    ));
}

} // verus!

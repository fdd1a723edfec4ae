//! How an alignment gets from one iteration to the next, and what it ends with.
use crate::alignment::{Decomposition, Equations, Factors, Transform};
use crate::exact::exact;
use crate::icp::{
    icp_initial, icp_next, icp_run, keep_count, keeps_closest, law_kept_are_closest,
    lemma_run_push, ranks_of, sample_indices, IcpEvent, IcpState,
};
use crate::iteration::{
    is_alignment, is_iteration, is_problem_of, kept_count, steps_through, Problem,
};
use crate::order::{bits_less, is_nan};
use crate::rotations::{lemma_dist, lemma_units};
use crate::scalar::{
    count_of, functional, largest_of, less_of, one_of, times_of, whole_of, Scalar,
};
use crate::sort::{comes_before, is_stable_order};
use crate::turning::lemma_product_sign;
use vstd::prelude::*;

verus! {

/// The iteration leaves something to do: it made a step, and its error is not below the
/// tolerance.
pub open spec fn goes_on<M, T: Scalar>(event: IcpEvent<M, T>, tolerance: T) -> bool {
    event is Stepped && !less_of(event->error, tolerance)
}

/// How many of the first `k` iterations made a step, where only the last may have failed.
pub open spec fn steps_among<M, T>(events: Seq<IcpEvent<M, T>>, k: int) -> int {
    if k > 0 && events[k - 1] is SolverFailed {
        k - 1
    } else {
        k
    }
}

/// The transform after `s` steps: that of the last one, or the one that the alignment started
/// from.
pub open spec fn transform_after<M, T>(start: M, events: Seq<IcpEvent<M, T>>, s: int) -> M {
    if s == 0 {
        start
    } else {
        events[s - 1]->transform
    }
}

/// The error after `s` steps: that of the last one, or the largest number.
pub open spec fn error_after<M, T: Scalar>(events: Seq<IcpEvent<M, T>>, s: int) -> T {
    if s == 0 {
        largest_of()
    } else {
        events[s - 1]->error
    }
}

/// The alignment made the first `k` iterations and stands at `state`: each but the last left
/// something to do, and the transform and the error are those of the last step.
pub open spec fn stands_after<M, T: Scalar>(
    state: IcpState<M, T>,
    start: M,
    events: Seq<IcpEvent<M, T>>,
    k: int,
    max_iterations: usize,
    tolerance: T,
) -> bool {
    let s = steps_among(events, k);
    &&& 0 <= k <= events.len()
    &&& k <= max_iterations
    &&& forall|j: int| 0 <= j < k - 1 ==> goes_on(#[trigger] events[j], tolerance)
    &&& state.transform == transform_after(start, events, s)
    &&& state.last_error == error_after::<M, T>(events, s)
    &&& if k > 0 && events[k - 1] is SolverFailed {
        state.status is SolverFailed && state.iteration == k - 1
    } else if k > 0 && less_of(events[k - 1]->error, tolerance) {
        state.status is Converged && state.iteration == k - 1
    } else if k == max_iterations {
        state.status is Exhausted && state.iteration == k
    } else {
        state.status is Running && state.iteration == k && k == events.len()
    }
}

/// A run makes iterations until one fails or falls below the tolerance or none is left, and
/// stands after those that it made.
proof fn lemma_run<M, T: Scalar>(
    start: M,
    events: Seq<IcpEvent<M, T>>,
    max_iterations: usize,
    tolerance: T,
) -> (k: int)
    ensures
        stands_after(
            icp_run(icp_initial(start, max_iterations), events, max_iterations, tolerance),
            start,
            events,
            k,
            max_iterations,
            tolerance,
        ),
    decreases events.len(),
{
    let initial = icp_initial::<M, T>(start, max_iterations);
    let state = icp_run(initial, events, max_iterations, tolerance);
    if events.len() == 0 {
        0
    } else {
        let (before, last) = (events.drop_last(), events.last());
        let k = lemma_run(start, before, max_iterations, tolerance);
        let earlier = icp_run(initial, before, max_iterations, tolerance);
        lemma_run_push(initial, before, last, max_iterations, tolerance);
        assert(before.push(last) =~= events);
        assert forall|j: int| 0 <= j < k implies #[trigger] events[j] == before[j] by {}
        if earlier.status is Running {
            assert(k == before.len());
            assert(k > 0 ==> goes_on(events[k - 1], tolerance));
            assert(state == icp_next(earlier, last, max_iterations, tolerance));
            k + 1
        } else {
            assert(state == earlier);
            k
        }
    }
}

/// A run over the outcomes of iterations stands after the first of them that fails, that
/// falls below the tolerance or that is the last allowed, with what the last step came to.
pub proof fn law_run_ends_with_last_step<M, T: Scalar>(
    start: M,
    events: Seq<IcpEvent<M, T>>,
    max_iterations: usize,
    tolerance: T,
)
    ensures
        exists|k: int| #[trigger]
            stands_after(
                icp_run(icp_initial(start, max_iterations), events, max_iterations, tolerance),
                start,
                events,
                k,
                max_iterations,
                tolerance,
            ),
{
    let k = lemma_run(start, events, max_iterations, tolerance);
}

/// While a run goes on, it stands after all iterations.
proof fn lemma_reached<M, T: Scalar>(
    start: M,
    events: Seq<IcpEvent<M, T>>,
    i: int,
    max_iterations: usize,
    tolerance: T,
)
    requires
        0 <= i <= events.len(),
        icp_run(
            icp_initial(start, max_iterations),
            events.take(i),
            max_iterations,
            tolerance,
        ).status is Running,
    ensures
        ({
            let reached = icp_run(
                icp_initial(start, max_iterations),
                events.take(i),
                max_iterations,
                tolerance,
            );
            &&& reached.transform == transform_after(start, events, i)
            &&& reached.iteration == i
            &&& i < max_iterations
            &&& i > 0 ==> goes_on(events[i - 1], tolerance)
        }),
{
    let first = events.take(i);
    let j = lemma_run(start, first, max_iterations, tolerance);
    assert(j == i);
    assert(i > 0 ==> first[i - 1] == events[i - 1]);
}

/// A run that went on before each of its iterations stands after all of them.
proof fn lemma_all_made<M, T: Scalar>(
    start: M,
    events: Seq<IcpEvent<M, T>>,
    max_iterations: usize,
    tolerance: T,
)
    requires
        forall|i: int|
            0 <= i < events.len() ==> icp_run(
                icp_initial(start, max_iterations),
                #[trigger] events.take(i),
                max_iterations,
                tolerance,
            ).status is Running,
    ensures
        stands_after(
            icp_run(icp_initial(start, max_iterations), events, max_iterations, tolerance),
            start,
            events,
            events.len() as int,
            max_iterations,
            tolerance,
        ),
{
    let k = lemma_run(start, events, max_iterations, tolerance);
    if k < events.len() {
        assert(events.take(k) == events.take(k));
        lemma_reached(start, events, k, max_iterations, tolerance);
    }
}

/// The problem is to align these source points, each with a one for its fourth coordinate, to
/// these target points with these normals.
pub open spec fn works_on<T: Scalar>(
    problem: Problem<T>,
    source_pts: Seq<[T; 3]>,
    target_pts: Seq<[T; 3]>,
    target_normals: Seq<[T; 3]>,
    sample_size: usize,
    trim_percentage: T,
) -> bool {
    &&& problem.source_rows@.len() == source_pts.len()
    &&& forall|i: int|
        0 <= i < source_pts.len() ==> #[trigger] problem.source_rows@[i] == [
            source_pts[i][0],
            source_pts[i][1],
            source_pts[i][2],
            one_of::<T>(),
        ]
    &&& problem.target_pts@ == target_pts
    &&& problem.target_normals@ == target_normals
    &&& problem.sample_size == sample_size
    &&& problem.trim_percentage == trim_percentage
}

/// Each event is what an iteration comes to from the transform of the event before it, the
/// first from `start`, and was reported with its number counted from zero.
pub open spec fn follows_on<
    T: Scalar,
    A: Fn(&Vec<[T; 4]>, &Transform<T>) -> Vec<[T; 3]>,
    N: Fn(&Vec<[T; 3]>) -> Vec<(usize, T)>,
    Q: Fn(&Vec<[T; 6]>, &Vec<T>) -> Equations<T>,
    D: Fn(&Equations<T>) -> Option<[T; 6]>,
    B: Fn(&Equations<T>) -> Result<Decomposition<T>, String>,
    W: Fn(&Factors<T>, &Equations<T>) -> [T; 6],
    C: Fn(&Transform<T>, &Transform<T>) -> Transform<T>,
    S: Fn(&Vec<T>) -> T,
    R: Fn(&IcpEvent<Transform<T>, T>, usize),
>(
    problem: Problem<T>,
    start: Transform<T>,
    events: Seq<IcpEvent<Transform<T>, T>>,
    apply: A,
    nearest: N,
    equations: Q,
    solve: D,
    decompose: B,
    product: W,
    compose: C,
    total: S,
    report: R,
) -> bool {
    forall|k: int|
        0 <= k < events.len() ==> {
            &&& is_iteration(
                #[trigger] events[k],
                problem,
                transform_after(start, events, k),
                apply,
                nearest,
                equations,
                solve,
                decompose,
                product,
                compose,
                total,
            )
            &&& call_ensures(report, (&events[k], k as usize), ())
        }
}

/// What the steps of an alignment say of one of them.
proof fn lemma_step<
    T: Scalar,
    A: Fn(&Vec<[T; 4]>, &Transform<T>) -> Vec<[T; 3]>,
    N: Fn(&Vec<[T; 3]>) -> Vec<(usize, T)>,
    Q: Fn(&Vec<[T; 6]>, &Vec<T>) -> Equations<T>,
    D: Fn(&Equations<T>) -> Option<[T; 6]>,
    B: Fn(&Equations<T>) -> Result<Decomposition<T>, String>,
    W: Fn(&Factors<T>, &Equations<T>) -> [T; 6],
    C: Fn(&Transform<T>, &Transform<T>) -> Transform<T>,
    S: Fn(&Vec<T>) -> T,
    R: Fn(&IcpEvent<Transform<T>, T>, usize),
>(
    problem: Problem<T>,
    start: Transform<T>,
    events: Seq<IcpEvent<Transform<T>, T>>,
    max_iterations: usize,
    tolerance: T,
    apply: A,
    nearest: N,
    equations: Q,
    solve: D,
    decompose: B,
    product: W,
    compose: C,
    total: S,
    report: R,
    k: int,
)
    requires
        steps_through(
            problem,
            icp_initial(start, max_iterations),
            events,
            max_iterations,
            tolerance,
            apply,
            nearest,
            equations,
            solve,
            decompose,
            product,
            compose,
            total,
            report,
        ),
        0 <= k < events.len(),
    ensures
        icp_run(
            icp_initial(start, max_iterations),
            events.take(k),
            max_iterations,
            tolerance,
        ).status is Running,
        is_iteration(
            events[k],
            problem,
            transform_after(start, events, k),
            apply,
            nearest,
            equations,
            solve,
            decompose,
            product,
            compose,
            total,
        ),
        call_ensures(report, (&events[k], k as usize), ()),
{
    let event = events[k];
    assert(icp_run(
        icp_initial(start, max_iterations),
        events.take(k),
        max_iterations,
        tolerance,
    ).status is Running);
    lemma_reached(start, events, k, max_iterations, tolerance);
}

/// The steps of an alignment follow on each other.
proof fn lemma_steps_follow_on<
    T: Scalar,
    A: Fn(&Vec<[T; 4]>, &Transform<T>) -> Vec<[T; 3]>,
    N: Fn(&Vec<[T; 3]>) -> Vec<(usize, T)>,
    Q: Fn(&Vec<[T; 6]>, &Vec<T>) -> Equations<T>,
    D: Fn(&Equations<T>) -> Option<[T; 6]>,
    B: Fn(&Equations<T>) -> Result<Decomposition<T>, String>,
    W: Fn(&Factors<T>, &Equations<T>) -> [T; 6],
    C: Fn(&Transform<T>, &Transform<T>) -> Transform<T>,
    S: Fn(&Vec<T>) -> T,
    R: Fn(&IcpEvent<Transform<T>, T>, usize),
>(
    problem: Problem<T>,
    initial_transform: Transform<T>,
    events: Seq<IcpEvent<Transform<T>, T>>,
    max_iterations: usize,
    tolerance: T,
    apply: A,
    nearest: N,
    equations: Q,
    solve: D,
    decompose: B,
    product: W,
    compose: C,
    total: S,
    report: R,
)
    requires
        steps_through(
            problem,
            icp_initial(initial_transform, max_iterations),
            events,
            max_iterations,
            tolerance,
            apply,
            nearest,
            equations,
            solve,
            decompose,
            product,
            compose,
            total,
            report,
        ),
    ensures
        stands_after(
            icp_run(
                icp_initial(initial_transform, max_iterations),
                events,
                max_iterations,
                tolerance,
            ),
            initial_transform,
            events,
            events.len() as int,
            max_iterations,
            tolerance,
        ),
        follows_on(
            problem,
            initial_transform,
            events,
            apply,
            nearest,
            equations,
            solve,
            decompose,
            product,
            compose,
            total,
            report,
        ),
{
    let initial = icp_initial::<Transform<T>, T>(initial_transform, max_iterations);
    assert forall|i: int| 0 <= i < events.len() implies icp_run(
        initial,
        #[trigger] events.take(i),
        max_iterations,
        tolerance,
    ).status is Running by {
        lemma_step(
            problem,
            initial_transform,
            events,
            max_iterations,
            tolerance,
            apply,
            nearest,
            equations,
            solve,
            decompose,
            product,
            compose,
            total,
            report,
            i,
        );
    }
    lemma_all_made(initial_transform, events, max_iterations, tolerance);
    assert(follows_on(
        problem,
        initial_transform,
        events,
        apply,
        nearest,
        equations,
        solve,
        decompose,
        product,
        compose,
        total,
        report,
    )) by {
        assert forall|i: int| 0 <= i < events.len() implies {
            &&& is_iteration(
                #[trigger] events[i],
                problem,
                transform_after(initial_transform, events, i),
                apply,
                nearest,
                equations,
                solve,
                decompose,
                product,
                compose,
                total,
            )
            &&& call_ensures(report, (&events[i], i as usize), ())
        } by {
            lemma_step(
                problem,
                initial_transform,
                events,
                max_iterations,
                tolerance,
                apply,
                nearest,
                equations,
                solve,
                decompose,
                product,
                compose,
                total,
                report,
                i,
            );
        }
    }
}

/// A problem that is posed by points works on them.
proof fn lemma_works_on<T: Scalar>(
    problem: Problem<T>,
    source_pts: Seq<[T; 3]>,
    target_pts: Seq<[T; 3]>,
    target_normals: Seq<[T; 3]>,
    sample_size: usize,
    trim_percentage: T,
)
    requires
        is_problem_of(
            problem,
            source_pts,
            target_pts,
            target_normals,
            sample_size,
            trim_percentage,
        ),
    ensures
        works_on(
            problem,
            source_pts,
            target_pts,
            target_normals,
            sample_size,
            trim_percentage,
        ),
{
}

/// An alignment goes from step to step: each iteration starts from the transform of the one
/// before it, the first from the transform given, and is reported with its number counted
/// from zero. It ends after the first iteration that fails, that falls below the tolerance or
/// that is the last allowed, with what the last step came to.
pub proof fn law_alignment_goes_step_by_step<
    T: Scalar,
    A: Fn(&Vec<[T; 4]>, &Transform<T>) -> Vec<[T; 3]>,
    N: Fn(&Vec<[T; 3]>) -> Vec<(usize, T)>,
    Q: Fn(&Vec<[T; 6]>, &Vec<T>) -> Equations<T>,
    D: Fn(&Equations<T>) -> Option<[T; 6]>,
    B: Fn(&Equations<T>) -> Result<Decomposition<T>, String>,
    W: Fn(&Factors<T>, &Equations<T>) -> [T; 6],
    C: Fn(&Transform<T>, &Transform<T>) -> Transform<T>,
    S: Fn(&Vec<T>) -> T,
    R: Fn(&IcpEvent<Transform<T>, T>, usize),
>(
    end: IcpState<Transform<T>, T>,
    source_pts: Seq<[T; 3]>,
    target_pts: Seq<[T; 3]>,
    target_normals: Seq<[T; 3]>,
    initial_transform: Transform<T>,
    max_iterations: usize,
    tolerance: T,
    sample_size: usize,
    trim_percentage: T,
    apply: A,
    nearest: N,
    equations: Q,
    solve: D,
    decompose: B,
    product: W,
    compose: C,
    total: S,
    report: R,
)
    requires
        is_alignment(
            end,
            source_pts,
            target_pts,
            target_normals,
            initial_transform,
            max_iterations,
            tolerance,
            sample_size,
            trim_percentage,
            apply,
            nearest,
            equations,
            solve,
            decompose,
            product,
            compose,
            total,
            report,
        ),
    ensures
        !(end.status is Running),
        exists|problem: Problem<T>, events: Seq<IcpEvent<Transform<T>, T>>|
            {
                &&& #[trigger] works_on(
                    problem,
                    source_pts,
                    target_pts,
                    target_normals,
                    sample_size,
                    trim_percentage,
                )
                &&& #[trigger] stands_after(
                    end,
                    initial_transform,
                    events,
                    events.len() as int,
                    max_iterations,
                    tolerance,
                )
                &&& follows_on(
                    problem,
                    initial_transform,
                    events,
                    apply,
                    nearest,
                    equations,
                    solve,
                    decompose,
                    product,
                    compose,
                    total,
                    report,
                )
            },
{
    let initial = icp_initial(initial_transform, max_iterations);
    let (problem, events) = choose|problem: Problem<T>, events: Seq<IcpEvent<Transform<T>, T>>|
        {
            &&& is_problem_of(
                problem,
                source_pts,
                target_pts,
                target_normals,
                sample_size,
                trim_percentage,
            )
            &&& #[trigger] steps_through(
                problem,
                initial,
                events,
                max_iterations,
                tolerance,
                apply,
                nearest,
                equations,
                solve,
                decompose,
                product,
                compose,
                total,
                report,
            )
            &&& end == icp_run(initial, events, max_iterations, tolerance)
        };
    lemma_works_on(
        problem,
        source_pts,
        target_pts,
        target_normals,
        sample_size,
        trim_percentage,
    );
    lemma_steps_follow_on(
        problem,
        initial_transform,
        events,
        max_iterations,
        tolerance,
        apply,
        nearest,
        equations,
        solve,
        decompose,
        product,
        compose,
        total,
        report,
    );
}

/// The whole part of a number that can be held is found exactly.
pub open spec fn counts_exactly<T: Scalar>(value: spec_fn(T) -> real) -> bool {
    forall|a: T|
        0 as real <= value(a) && value(a) <= usize::MAX as real ==> {
            &&& (#[trigger] whole_of(a)) as real <= value(a)
            &&& value(a) < whole_of(a) as real + 1 as real
        }
}

/// Of `n` pairs as many are kept as fit into the share of them: not more, and with one more it
/// would be.
pub proof fn law_share_is_kept<T: Scalar>(
    value: spec_fn(T) -> real,
    n: usize,
    share: T,
    r: usize,
    problem: Problem<T>,
)
    requires
        functional::<T>(),
        exact(value),
        counts_exactly(value),
        0 as real <= value(share) && value(share) <= 1 as real,
        call_ensures(keep_count::<T>, (n, share), r),
        problem.trim_percentage == share,
    ensures
        r as real <= n as real * value(share),
        n as real * value(share) < r as real + 1 as real,
        r <= n,
        kept_count(problem, n as nat) == r,
{
    let a = times_of(count_of(n), share);
    let (x, y) = (n as real, value(share));
    assert(value(a) == x * y);
    lemma_product_sign(x, y);
    lemma_dist(1 as real, y, x);
    lemma_product_sign(x, 1 as real - y);
    lemma_units(x);
    assert(x * y <= x);
    assert(r == whole_of(a));
}

/// The pairs that are kept are as many as asked for, or all; none is kept twice; they come by
/// rising distance; and none that is dropped is closer than one that is kept.
pub proof fn law_kept_come_first(kept: Seq<usize>, bits: Seq<u64>, n: nat)
    requires
        keeps_closest(kept, bits, n),
        forall|i: int| 0 <= i < bits.len() ==> !is_nan(#[trigger] bits[i]),
    ensures
        kept.len() == if n <= bits.len() {
            n
        } else {
            bits.len()
        },
        kept.no_duplicates(),
        forall|p: int| 0 <= p < kept.len() ==> (#[trigger] kept[p]) < bits.len(),
        forall|p: int, q: int|
            #![trigger kept[p], kept[q]]
            0 <= p < q < kept.len() ==> !bits_less(bits[kept[q] as int], bits[kept[p] as int]),
        forall|p: int, out: usize|
            #![trigger kept[p], bits[out as int]]
            0 <= p < kept.len() && out < bits.len() && !kept.contains(out) ==> !bits_less(
                bits[out as int],
                bits[kept[p] as int],
            ),
{
    let keys = ranks_of(bits);
    let order = choose|order: Seq<usize>| #[trigger]
        is_stable_order(keys, order) && kept == order.take(
            (if n <= bits.len() {
                n
            } else {
                bits.len()
            }) as int,
        );
    assert forall|p: int, q: int|
        #![trigger kept[p], kept[q]]
        0 <= p < q < kept.len() implies kept[p] != kept[q] && !bits_less(
        bits[kept[q] as int],
        bits[kept[p] as int],
    ) by {
        assert(order[p] == kept[p] && order[q] == kept[q]);
        assert(comes_before(keys, order[p], order[q]));
        assert(!is_nan(bits[kept[p] as int]) && !is_nan(bits[kept[q] as int]));
    }
    assert forall|p: int| 0 <= p < kept.len() implies (#[trigger] kept[p]) < bits.len() by {
        assert(order[p] == kept[p]);
    }
    assert forall|p: int, out: usize|
        #![trigger kept[p], bits[out as int]]
        0 <= p < kept.len() && out < bits.len() && !kept.contains(out) implies !bits_less(
        bits[out as int],
        bits[kept[p] as int],
    ) by {
        assert(kept.contains(kept[p]));
        law_kept_are_closest(kept, bits, n, kept[p], out);
    }
}

/// As many points take part in an iteration as may, or all; none takes part twice; and where
/// all do, they keep their order.
pub proof fn law_sample_is_as_large_as_allowed(
    n_points: usize,
    sample_size: usize,
    indices: Vec<usize>,
)
    requires
        call_ensures(sample_indices, (n_points, sample_size), indices),
    ensures
        indices@.len() == if n_points <= sample_size {
            n_points
        } else {
            sample_size
        },
        indices@.no_duplicates(),
        forall|i: int| 0 <= i < indices@.len() ==> (#[trigger] indices@[i]) < n_points,
        n_points <= sample_size ==> forall|i: int|
            0 <= i < indices@.len() ==> (#[trigger] indices@[i]) == i,
{
}

} // verus!

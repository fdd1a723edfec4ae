//! What every iteration of an alignment keeps, and what a fit comes to that has nothing
//! to do.
use crate::alignment::{
    angle_of, inverse_factors_of, is_small, is_solved, move_of, plane_distance_of, rigid_of,
    small_rotation_of, turn_of, Decomposition, Equations, Factors, SolveError, Transform,
};
use crate::candidates::identity_of;
use crate::icp::{icp_initial, icp_run, lemma_run_push, IcpEvent, IcpState};
use crate::iteration::{is_alignment, is_iteration, is_problem_of, steps_through, Problem};
use crate::registration::{is_solution_of, is_transformation_of};
use crate::scalar::{
    is_zero, less_of, negated_of, one_of, plus_of, ratio_of, same_rank, square_root_of, times_of,
    zero_of, Scalar,
};
use vstd::prelude::*;

verus! {

/// Every transform of a solution has the property.
pub open spec fn fits_have<
    T: Scalar,
    D: Fn(&Equations<T>) -> Option<[T; 6]>,
    B: Fn(&Equations<T>) -> Result<Decomposition<T>, String>,
    W: Fn(&Factors<T>, &Equations<T>) -> [T; 6],
>(property: spec_fn(Transform<T>) -> bool, solve: D, decompose: B, product: W) -> bool {
    forall|normal: Equations<T>, x: [T; 6], m: Transform<T>|
        #![trigger is_solution_of(Ok(x), normal, solve, decompose, product), is_solved(m, x)]
        is_solution_of(Ok(x), normal, solve, decompose, product) && is_solved(m, x) ==> property(m)
}

/// A product of two transforms that have the property has it.
pub open spec fn products_keep<T: Scalar, C: Fn(&Transform<T>, &Transform<T>) -> Transform<T>>(
    property: spec_fn(Transform<T>) -> bool,
    compose: C,
) -> bool {
    forall|a: &Transform<T>, b: &Transform<T>, m: Transform<T>| #[trigger]
        call_ensures(compose, (a, b), m) && property(*a) && property(*b) ==> property(m)
}

/// A step from a transform that has the property leads to one that has it.
proof fn lemma_step_keeps<
    T: Scalar,
    A: Fn(&Vec<[T; 4]>, &Transform<T>) -> Vec<[T; 3]>,
    N: Fn(&Vec<[T; 3]>) -> Vec<(usize, T)>,
    Q: Fn(&Vec<[T; 6]>, &Vec<T>) -> Equations<T>,
    D: Fn(&Equations<T>) -> Option<[T; 6]>,
    B: Fn(&Equations<T>) -> Result<Decomposition<T>, String>,
    W: Fn(&Factors<T>, &Equations<T>) -> [T; 6],
    C: Fn(&Transform<T>, &Transform<T>) -> Transform<T>,
    S: Fn(&Vec<T>) -> T,
>(
    property: spec_fn(Transform<T>) -> bool,
    event: IcpEvent<Transform<T>, T>,
    problem: Problem<T>,
    transform: Transform<T>,
    apply: A,
    nearest: N,
    equations: Q,
    solve: D,
    decompose: B,
    product: W,
    compose: C,
    total: S,
)
    requires
        property(transform),
        fits_have(property, solve, decompose, product),
        products_keep(property, compose),
        is_iteration(event, problem, transform, apply, nearest, equations, solve, decompose, product, compose, total),
    ensures
        event is Stepped ==> property(event->transform),
{
}

/// The states of an alignment keep the property.
proof fn lemma_run_keeps<
    T: Scalar,
    A: Fn(&Vec<[T; 4]>, &Transform<T>) -> Vec<[T; 3]>,
    N: Fn(&Vec<[T; 3]>) -> Vec<(usize, T)>,
    Q: Fn(&Vec<[T; 6]>, &Vec<T>) -> Equations<T>,
    D: Fn(&Equations<T>) -> Option<[T; 6]>,
    B: Fn(&Equations<T>) -> Result<Decomposition<T>, String>,
    W: Fn(&Factors<T>, &Equations<T>) -> [T; 6],
    C: Fn(&Transform<T>, &Transform<T>) -> Transform<T>,
    S: Fn(&Vec<T>) -> T,
    R: Fn(&IcpEvent<Transform<T>, T>, usize),
>(
    property: spec_fn(Transform<T>) -> bool,
    problem: Problem<T>,
    initial: IcpState<Transform<T>, T>,
    events: Seq<IcpEvent<Transform<T>, T>>,
    n: int,
    max_iterations: usize,
    tolerance: T,
    apply: A,
    nearest: N,
    equations: Q,
    solve: D,
    decompose: B,
    product: W,
    compose: C,
    total: S,
    report: R,
)
    requires
        0 <= n <= events.len(),
        property(initial.transform),
        fits_have(property, solve, decompose, product),
        products_keep(property, compose),
        steps_through(
            problem,
            initial,
            events,
            max_iterations,
            tolerance,
            apply,
            nearest,
            equations,
            solve,
            decompose,
            product,
            compose,
            total,
            report,
        ),
    ensures
        property(icp_run(initial, events.take(n), max_iterations, tolerance).transform),
    decreases n,
{
    if n > 0 {
        let m = n - 1;
        lemma_run_keeps(
            property,
            problem,
            initial,
            events,
            m,
            max_iterations,
            tolerance,
            apply,
            nearest,
            equations,
            solve,
            decompose,
            product,
            compose,
            total,
            report,
        );
        let reached = icp_run(initial, events.take(m), max_iterations, tolerance);
        assert(is_iteration(events[m], problem, reached.transform, apply, nearest, equations, solve, decompose, product, compose, total));
        lemma_step_keeps(
            property,
            events[m],
            problem,
            reached.transform,
            apply,
            nearest,
            equations,
            solve,
            decompose,
            product,
            compose,
            total,
        );
        assert(events.take(n) =~= events.take(m).push(events[m]));
        lemma_run_push(initial, events.take(m), events[m], max_iterations, tolerance);
    } else {
        assert(events.take(n) =~= Seq::empty());
    }
}

/// What the initial transform and the transform of every solution have, and what products
/// keep, the transform that an alignment ends in has, whatever the number of iterations.
pub proof fn law_alignment_keeps<
    T: Scalar,
    A: Fn(&Vec<[T; 4]>, &Transform<T>) -> Vec<[T; 3]>,
    N: Fn(&Vec<[T; 3]>) -> Vec<(usize, T)>,
    Q: Fn(&Vec<[T; 6]>, &Vec<T>) -> Equations<T>,
    D: Fn(&Equations<T>) -> Option<[T; 6]>,
    B: Fn(&Equations<T>) -> Result<Decomposition<T>, String>,
    W: Fn(&Factors<T>, &Equations<T>) -> [T; 6],
    C: Fn(&Transform<T>, &Transform<T>) -> Transform<T>,
    S: Fn(&Vec<T>) -> T,
    R: Fn(&IcpEvent<Transform<T>, T>, usize),
>(
    property: spec_fn(Transform<T>) -> bool,
    end: IcpState<Transform<T>, T>,
    source_pts: Seq<[T; 3]>,
    target_pts: Seq<[T; 3]>,
    target_normals: Seq<[T; 3]>,
    initial_transform: Transform<T>,
    max_iterations: usize,
    tolerance: T,
    sample_size: usize,
    trim_percentage: T,
    apply: A,
    nearest: N,
    equations: Q,
    solve: D,
    decompose: B,
    product: W,
    compose: C,
    total: S,
    report: R,
)
    requires
        property(initial_transform),
        fits_have(property, solve, decompose, product),
        products_keep(property, compose),
        is_alignment(
            end,
            source_pts,
            target_pts,
            target_normals,
            initial_transform,
            max_iterations,
            tolerance,
            sample_size,
            trim_percentage,
            apply,
            nearest,
            equations,
            solve,
            decompose,
            product,
            compose,
            total,
            report,
        ),
    ensures
        property(end.transform),
{
    let initial = icp_initial::<Transform<T>, T>(initial_transform, max_iterations);
    let (problem, events) = choose|
        problem: Problem<T>,
        events: Seq<IcpEvent<Transform<T>, T>>,
    |
        {
            &&& is_problem_of(
                problem,
                source_pts,
                target_pts,
                target_normals,
                sample_size,
                trim_percentage,
            )
            &&& #[trigger] steps_through(
                problem,
                initial,
                events,
                max_iterations,
                tolerance,
                apply,
                nearest,
                equations,
                solve,
                decompose,
                product,
                compose,
                total,
                report,
            )
            &&& end == icp_run(initial, events, max_iterations, tolerance)
        };
    assert(events.take(events.len() as int) =~= events);
    lemma_run_keeps(
        property,
        problem,
        initial,
        events,
        events.len() as int,
        max_iterations,
        tolerance,
        apply,
        nearest,
        equations,
        solve,
        decompose,
        product,
        compose,
        total,
        report,
    );
}

/// The last row of a rigid transform.
pub open spec fn rigid_row_of<T: Scalar>() -> [T; 4] {
    [zero_of(), zero_of(), zero_of(), one_of()]
}

/// An alignment that starts from a transform whose last row is that of a rigid one ends in
/// such a transform, where products of two of them have such a row.
pub proof fn law_last_row_stays<
    T: Scalar,
    A: Fn(&Vec<[T; 4]>, &Transform<T>) -> Vec<[T; 3]>,
    N: Fn(&Vec<[T; 3]>) -> Vec<(usize, T)>,
    Q: Fn(&Vec<[T; 6]>, &Vec<T>) -> Equations<T>,
    D: Fn(&Equations<T>) -> Option<[T; 6]>,
    B: Fn(&Equations<T>) -> Result<Decomposition<T>, String>,
    W: Fn(&Factors<T>, &Equations<T>) -> [T; 6],
    C: Fn(&Transform<T>, &Transform<T>) -> Transform<T>,
    S: Fn(&Vec<T>) -> T,
    R: Fn(&IcpEvent<Transform<T>, T>, usize),
>(
    end: IcpState<Transform<T>, T>,
    source_pts: Seq<[T; 3]>,
    target_pts: Seq<[T; 3]>,
    target_normals: Seq<[T; 3]>,
    initial_transform: Transform<T>,
    max_iterations: usize,
    tolerance: T,
    sample_size: usize,
    trim_percentage: T,
    apply: A,
    nearest: N,
    equations: Q,
    solve: D,
    decompose: B,
    product: W,
    compose: C,
    total: S,
    report: R,
)
    requires
        initial_transform[3] == rigid_row_of::<T>(),
        products_keep(|m: Transform<T>| m[3] == rigid_row_of::<T>(), compose),
        is_alignment(
            end,
            source_pts,
            target_pts,
            target_normals,
            initial_transform,
            max_iterations,
            tolerance,
            sample_size,
            trim_percentage,
            apply,
            nearest,
            equations,
            solve,
            decompose,
            product,
            compose,
            total,
            report,
        ),
    ensures
        end.transform[3] == rigid_row_of::<T>(),
{
    let property = |m: Transform<T>| m[3] == rigid_row_of::<T>();
    law_alignment_keeps(
        property,
        end,
        source_pts,
        target_pts,
        target_normals,
        initial_transform,
        max_iterations,
        tolerance,
        sample_size,
        trim_percentage,
        apply,
        nearest,
        equations,
        solve,
        decompose,
        product,
        compose,
        total,
        report,
    );
}

/// Zeros behave: of either sign, a zero times itself is zero, and its negation is a zero;
/// zeros add up to zero, whose root is zero and lies below a billionth.
pub open spec fn zeros_behave<T: Scalar>() -> bool {
    &&& forall|a: T| #[trigger]
        is_zero(a) ==> times_of(a, a) == zero_of::<T>() && is_zero(negated_of(a))
    &&& plus_of(zero_of::<T>(), zero_of()) == zero_of::<T>()
    &&& square_root_of(zero_of::<T>()) == zero_of::<T>()
    &&& less_of(zero_of::<T>(), ratio_of(1, 1_000_000_000))
}

/// All six numbers are zeros.
pub open spec fn all_zero<T: Scalar>(x: [T; 6]) -> bool {
    forall|i: int| 0 <= i < 6 ==> is_zero(#[trigger] x[i])
}

/// A right-hand side of zeros is solved by zeros: `equations` keeps it, `solve` finds
/// nothing else, `decompose` finds both factors and `product` gives nothing else.
pub open spec fn solves_zeros<
    T: Scalar,
    Q: Fn(&Vec<[T; 6]>, &Vec<T>) -> Equations<T>,
    D: Fn(&Equations<T>) -> Option<[T; 6]>,
    B: Fn(&Equations<T>) -> Result<Decomposition<T>, String>,
    W: Fn(&Factors<T>, &Equations<T>) -> [T; 6],
>(equations: Q, solve: D, decompose: B, product: W) -> bool {
    &&& forall|rows: &Vec<[T; 6]>, rhs: &Vec<T>, normal: Equations<T>| #[trigger]
        call_ensures(equations, (rows, rhs), normal) && (forall|i: int|
            0 <= i < rhs@.len() ==> is_zero(#[trigger] rhs@[i])) ==> all_zero(normal.rhs)
    &&& forall|normal: &Equations<T>, x: [T; 6]| #[trigger]
        call_ensures(solve, (normal,), Some(x)) && all_zero(normal.rhs) ==> all_zero(x)
    &&& forall|normal: &Equations<T>, d: Result<Decomposition<T>, String>| #[trigger]
        call_ensures(decompose, (normal,), d) && all_zero(normal.rhs) ==> inverse_factors_of(d) is Ok
    &&& forall|factors: &Factors<T>, normal: &Equations<T>, x: [T; 6]| #[trigger]
        call_ensures(product, (factors, normal), x) && all_zero(normal.rhs) ==> all_zero(x)
}

/// `m` is the transform that leaves everything where it is, up to the signs of its zeros.
pub open spec fn leaves_in_place<T: Scalar>(m: Transform<T>) -> bool {
    forall|i: int, j: int|
        0 <= i < 4 && 0 <= j < 4 ==> same_rank(#[trigger] m[i][j], identity_of::<T>()[i][j])
}

/// A solution of zeros stands for the transform that leaves everything where it is.
proof fn lemma_zeros_leave_in_place<T: Scalar>(m: Transform<T>, x: [T; 6])
    requires
        zeros_behave::<T>(),
        all_zero(x),
        is_solved(m, x),
    ensures
        leaves_in_place(m),
{
    let w = turn_of(x);
    assert(is_zero(x[0]) && is_zero(x[1]) && is_zero(x[2]));
    assert(is_zero(x[3]) && is_zero(x[4]) && is_zero(x[5]));
    assert(is_zero(w[0]) && is_zero(w[1]) && is_zero(w[2]));
    assert(angle_of(w) == zero_of::<T>());
    assert(is_small(w));
    assert(m == rigid_of(small_rotation_of(w), move_of(x)));
    let e = identity_of::<T>();
    assert(is_zero(negated_of(w[0])) && is_zero(negated_of(w[1])) && is_zero(negated_of(w[2])));
    assert forall|i: int, j: int| 0 <= i < 4 && 0 <= j < 4 implies same_rank(
        #[trigger] m[i][j],
        e[i][j],
    ) by {
        assert(i == 0 || i == 1 || i == 2 || i == 3);
        assert(j == 0 || j == 1 || j == 2 || j == 3);
    }
}

/// Pairs that lie on their planes already, and no pairs at all, give the transform that
/// leaves everything where it is, and no error.
pub proof fn law_nothing_to_fit<
    T: Scalar,
    Q: Fn(&Vec<[T; 6]>, &Vec<T>) -> Equations<T>,
    D: Fn(&Equations<T>) -> Option<[T; 6]>,
    B: Fn(&Equations<T>) -> Result<Decomposition<T>, String>,
    W: Fn(&Factors<T>, &Equations<T>) -> [T; 6],
>(
    r: Result<Transform<T>, SolveError>,
    sources: Seq<[T; 3]>,
    targets: Seq<[T; 3]>,
    normals: Seq<[T; 3]>,
    equations: Q,
    solve: D,
    decompose: B,
    product: W,
)
    requires
        zeros_behave::<T>(),
        solves_zeros(equations, solve, decompose, product),
        forall|i: int|
            0 <= i < sources.len() ==> is_zero(
                #[trigger] plane_distance_of(sources[i], targets[i], normals[i]),
            ),
        is_transformation_of(
            r,
            sources,
            targets,
            normals,
            equations,
            solve,
            decompose,
            product,
        ),
    ensures
        r matches Ok(m) && leaves_in_place(m),
{
    assert forall|x: [T; 6], m: Transform<T>| all_zero(x) && #[trigger] is_solved(
        m,
        x,
    ) implies leaves_in_place(m) by {
        lemma_zeros_leave_in_place(m, x);
    }
}

} // verus!

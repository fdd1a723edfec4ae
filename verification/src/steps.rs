//! What an iteration of an alignment does to points, where arithmetic is exact.
use crate::alignment::{Decomposition, Equations, Factors, SolveError, Transform};
use crate::exact::{exact, multiplies_exactly, roots_exactly, value3};
use crate::facing::points_at;
use crate::fits::{
    is_root_mean_square, law_error_is_root_mean_square, lemma_applied, squares_after,
    totals_exactly,
};
use crate::icp::{keeps_closest, ranks_of, IcpEvent};
use crate::invariants::rigid_row_of;
use crate::iteration::{
    distance_bits_of, is_fit, is_iteration_on, is_selection, kept_count, matched_positions,
    Problem,
};
use crate::order::is_nan;
use crate::progress::{counts_exactly, law_kept_come_first};
use crate::registration::{is_error_of, is_transformation_of};
use crate::rigidity::composes_exactly;
use crate::rotations::{dot, lemma_assoc, lemma_dist, lemma_units, row_times, Real3};
use crate::rows::{all_within, rows_at};
use crate::scalar::{bits_of, count_of, less_of, one_of, times_of, Scalar};
use crate::sort::is_stable_order;
use crate::turning::placed;
use vstd::prelude::*;

verus! {

/// One coordinate of a point that a product of two matrices turns.
proof fn lemma_row_of_product(a: Real3, b0: Real3, b1: Real3, b2: Real3, p: Real3)
    ensures
        dot(row_times(a, b0, b1, b2), p) == dot(a, (dot(b0, p), dot(b1, p), dot(b2, p))),
{
    lemma_dist(a.0 * b0.0, a.1 * b1.0, p.0);
    lemma_dist(a.0 * b0.0 + a.1 * b1.0, a.2 * b2.0, p.0);
    lemma_dist(a.0 * b0.1, a.1 * b1.1, p.1);
    lemma_dist(a.0 * b0.1 + a.1 * b1.1, a.2 * b2.1, p.1);
    lemma_dist(a.0 * b0.2, a.1 * b1.2, p.2);
    lemma_dist(a.0 * b0.2 + a.1 * b1.2, a.2 * b2.2, p.2);
    lemma_drawn_in(a.0, b0, p);
    lemma_drawn_in(a.1, b1, p);
    lemma_drawn_in(a.2, b2, p);
}

/// A factor drawn into an inner product.
proof fn lemma_drawn_in(x: real, b: Real3, p: Real3)
    ensures
        x * dot(b, p) == (x * b.0) * p.0 + (x * b.1) * p.1 + (x * b.2) * p.2,
{
    lemma_dist(b.0 * p.0, b.1 * p.1, x);
    lemma_dist(b.0 * p.0 + b.1 * p.1, b.2 * p.2, x);
    lemma_assoc(x, b.0, p.0);
    lemma_assoc(x, b.1, p.1);
    lemma_assoc(x, b.2, p.2);
}

/// The values of a row's first three entries.
spec fn turn_part<T: Scalar>(value: spec_fn(T) -> real, m: Transform<T>, i: int) -> Real3 {
    (value(m[i][0]), value(m[i][1]), value(m[i][2]))
}

/// One coordinate of where a product of transforms takes a point.
proof fn lemma_composed_coordinate<
    T: Scalar,
    C: Fn(&Transform<T>, &Transform<T>) -> Transform<T>,
>(
    value: spec_fn(T) -> real,
    a: Transform<T>,
    b: Transform<T>,
    m: Transform<T>,
    compose: C,
    p: Real3,
    i: int,
)
    requires
        exact(value),
        composes_exactly(value, compose),
        call_ensures(compose, (&a, &b), m),
        b[3] == rigid_row_of::<T>(),
        0 <= i < 3,
    ensures
        dot(turn_part(value, m, i), p) + value(m[i][3]) == dot(
            turn_part(value, a, i),
            placed(value, b, p),
        ) + value(a[i][3]),
{
    let (b0, b1, b2) = (turn_part(value, b, 0), turn_part(value, b, 1), turn_part(value, b, 2));
    let at = turn_part(value, a, i);
    let t = (value(b[0][3]), value(b[1][3]), value(b[2][3]));
    assert(value(b[3][0]) == 0 as real && value(b[3][1]) == 0 as real && value(b[3][2])
        == 0 as real && value(b[3][3]) == 1 as real);
    lemma_units(value(a[i][3]));
    assert(value(m[i][0]) == value(a[i][0]) * value(b[0][0]) + value(a[i][1]) * value(b[1][0])
        + value(a[i][2]) * value(b[2][0]) + value(a[i][3]) * value(b[3][0]));
    assert(value(m[i][1]) == value(a[i][0]) * value(b[0][1]) + value(a[i][1]) * value(b[1][1])
        + value(a[i][2]) * value(b[2][1]) + value(a[i][3]) * value(b[3][1]));
    assert(value(m[i][2]) == value(a[i][0]) * value(b[0][2]) + value(a[i][1]) * value(b[1][2])
        + value(a[i][2]) * value(b[2][2]) + value(a[i][3]) * value(b[3][2]));
    assert(value(m[i][3]) == value(a[i][0]) * value(b[0][3]) + value(a[i][1]) * value(b[1][3])
        + value(a[i][2]) * value(b[2][3]) + value(a[i][3]) * value(b[3][3]));
    assert(turn_part(value, m, i) == row_times(at, b0, b1, b2));
    lemma_row_of_product(at, b0, b1, b2, p);
    lemma_dist(dot(b0, p), t.0, at.0);
    lemma_dist(dot(b1, p), t.1, at.1);
    lemma_dist(dot(b2, p), t.2, at.2);
}

/// Where a product of transforms takes a point.
pub(crate) proof fn lemma_composed<
    T: Scalar,
    C: Fn(&Transform<T>, &Transform<T>) -> Transform<T>,
>(
    value: spec_fn(T) -> real,
    a: Transform<T>,
    b: Transform<T>,
    m: Transform<T>,
    compose: C,
    p: Real3,
)
    requires
        exact(value),
        composes_exactly(value, compose),
        call_ensures(compose, (&a, &b), m),
        b[3] == rigid_row_of::<T>(),
    ensures
        placed(value, m, p) == placed(value, a, placed(value, b, p)),
{
    lemma_composed_coordinate(value, a, b, m, compose, p, 0);
    lemma_composed_coordinate(value, a, b, m, compose, p, 1);
    lemma_composed_coordinate(value, a, b, m, compose, p, 2);
}

/// The target points that the kept pairs were matched to.
pub open spec fn matched<T, S>(
    points: Seq<[T; 3]>,
    near: Seq<(usize, S)>,
    kept: Seq<usize>,
) -> Seq<[T; 3]> {
    Seq::new(kept.len(), |k: int| points[near[kept[k] as int].0 as int])
}

/// The source points of the kept pairs, before any transform.
pub open spec fn origins<T>(
    rows: Seq<[T; 4]>,
    indices: Seq<usize>,
    kept: Seq<usize>,
) -> Seq<[T; 3]> {
    Seq::new(
        kept.len(),
        |k: int|
            {
                let row = rows[indices[kept[k] as int] as int];
                [row[0], row[1], row[2]]
            },
    )
}

/// The points that take part are the source points where the transform takes them.
pub open spec fn takes_part<T: Scalar>(
    value: spec_fn(T) -> real,
    sampled: Seq<[T; 3]>,
    rows: Seq<[T; 4]>,
    transform: Transform<T>,
    indices: Seq<usize>,
) -> bool {
    &&& sampled.len() == indices.len()
    &&& forall|i: int|
        0 <= i < indices.len() ==> value3(value, #[trigger] sampled[i]) == placed(
            value,
            transform,
            (
                value(rows[indices[i] as int][0]),
                value(rows[indices[i] as int][1]),
                value(rows[indices[i] as int][2]),
            ),
        )
}

/// `after` takes every point where `delta` takes it from where `before` takes it.
pub open spec fn first_then<T: Scalar>(
    value: spec_fn(T) -> real,
    before: Transform<T>,
    delta: Transform<T>,
    after: Transform<T>,
) -> bool {
    forall|p: Real3| #[trigger]
        placed(value, after, p) == placed(value, delta, placed(value, before, p))
}

/// Two transforms that place the points alike leave the same squares.
proof fn lemma_same_squares<T: Scalar>(
    value: spec_fn(T) -> real,
    a: Transform<T>,
    sources: Seq<[T; 3]>,
    b: Transform<T>,
    others: Seq<[T; 3]>,
    targets: Seq<[T; 3]>,
    normals: Seq<[T; 3]>,
    n: int,
)
    requires
        0 <= n <= sources.len(),
        forall|i: int|
            0 <= i < sources.len() ==> placed(value, a, value3(value, #[trigger] sources[i]))
                == placed(value, b, value3(value, others[i])),
    ensures
        squares_after(value, a, sources, targets, normals, n) == squares_after(
            value,
            b,
            others,
            targets,
            normals,
            n,
        ),
    decreases n,
{
    if n > 0 {
        lemma_same_squares(value, a, sources, b, others, targets, normals, n - 1);
        let i = n - 1;
        assert(placed(value, a, value3(value, sources[i])) == placed(
            value,
            b,
            value3(value, others[i]),
        ));
    }
}

/// The positions that are kept are those of pairs.
proof fn lemma_kept_within(kept: Seq<usize>, bits: Seq<u64>, n: nat)
    requires
        keeps_closest(kept, bits, n),
    ensures
        all_within(kept, bits.len() as int),
        kept.len() <= bits.len(),
{
    let order = choose|order: Seq<usize>| #[trigger]
        is_stable_order(ranks_of(bits), order) && kept == order.take(
            (if n <= bits.len() {
                n
            } else {
                bits.len()
            }) as int,
        );
    assert forall|i: int| 0 <= i < kept.len() implies (#[trigger] kept[i]) < bits.len() by {
        assert(order[i] == kept[i]);
    }
}

/// The pairs that are kept are different ones of those found, by rising distance; none that is
/// dropped lies closer together than one that is kept; and there are as many as the share
/// allows, or all.
pub open spec fn keeps_nearest<T: Scalar>(
    value: spec_fn(T) -> real,
    kept: Seq<usize>,
    near: Seq<(usize, T)>,
    share: T,
) -> bool {
    let allowed = near.len() as real * value(share);
    &&& kept.no_duplicates()
    &&& forall|p: int| 0 <= p < kept.len() ==> (#[trigger] kept[p]) < near.len()
    &&& forall|p: int, q: int|
        #![trigger kept[p], kept[q]]
        0 <= p < q < kept.len() ==> !less_of(near[kept[q] as int].1, near[kept[p] as int].1)
    &&& forall|p: int, out: usize|
        #![trigger kept[p], near[out as int]]
        0 <= p < kept.len() && out < near.len() && !kept.contains(out) ==> !less_of(
            near[out as int].1,
            near[kept[p] as int].1,
        )
    &&& 0 as real <= allowed && allowed <= usize::MAX as real ==> {
        &&& kept.len() as real <= allowed
        &&& kept.len() == near.len() || allowed < kept.len() as real + 1 as real
    }
}

/// The pairs that an iteration keeps are the nearest.
proof fn lemma_keeps_nearest<T: Scalar>(
    value: spec_fn(T) -> real,
    kept: Seq<usize>,
    near: Seq<(usize, T)>,
    problem: Problem<T>,
)
    requires
        exact(value),
        counts_exactly(value),
        near.len() <= usize::MAX,
        forall|i: int| 0 <= i < near.len() ==> !is_nan(bits_of((#[trigger] near[i]).1)),
        keeps_closest(kept, distance_bits_of(near), kept_count(problem, near.len())),
    ensures
        keeps_nearest(value, kept, near, problem.trim_percentage),
{
    let bits = distance_bits_of(near);
    assert forall|i: int| 0 <= i < bits.len() implies !is_nan(#[trigger] bits[i]) by {
        assert(!is_nan(bits_of(near[i].1)));
    }
    law_kept_come_first(kept, bits, kept_count(problem, near.len()));
    let share = problem.trim_percentage;
    let all = times_of(count_of(near.len() as usize), share);
    assert(value(all) == near.len() as real * value(share));
    assert forall|p: int, q: int|
        #![trigger kept[p], kept[q]]
        0 <= p < q < kept.len() implies !less_of(
        near[kept[q] as int].1,
        near[kept[p] as int].1,
    ) by {
        assert(bits[kept[p] as int] == bits_of(near[kept[p] as int].1));
        assert(bits[kept[q] as int] == bits_of(near[kept[q] as int].1));
    }
    assert forall|p: int, out: usize|
        #![trigger kept[p], near[out as int]]
        0 <= p < kept.len() && out < near.len() && !kept.contains(out) implies !less_of(
        near[out as int].1,
        near[kept[p] as int].1,
    ) by {
        assert(bits[kept[p] as int] == bits_of(near[kept[p] as int].1));
        assert(bits[out as int] == bits_of(near[out as int].1));
    }
}

/// `after` and `error` are what an iteration from `transform` comes to. The points that take
/// part are the source points where `transform` takes them; the pairs that are kept of them and
/// their nearest target points are fitted by `delta`; `after` takes every point where `delta`
/// takes it from where `transform` takes it; and the error is that of `after` on the source
/// points of the kept pairs.
pub open spec fn is_step<
    T: Scalar,
    N: Fn(&Vec<[T; 3]>) -> Vec<(usize, T)>,
    Q: Fn(&Vec<[T; 6]>, &Vec<T>) -> Equations<T>,
    D: Fn(&Equations<T>) -> Option<[T; 6]>,
    B: Fn(&Equations<T>) -> Result<Decomposition<T>, String>,
    W: Fn(&Factors<T>, &Equations<T>) -> [T; 6],
>(
    value: spec_fn(T) -> real,
    after: Transform<T>,
    error: T,
    problem: Problem<T>,
    transform: Transform<T>,
    indices: Seq<usize>,
    nearest: N,
    equations: Q,
    solve: D,
    decompose: B,
    product: W,
) -> bool {
    exists|
        sampled: Vec<[T; 3]>,
        near: Vec<(usize, T)>,
        kept: Seq<usize>,
        delta: Transform<T>,
    |
        {
            &&& takes_part(value, sampled@, problem.source_rows@, transform, indices)
            &&& #[trigger] call_ensures(nearest, (&sampled,), near)
            &&& keeps_nearest(value, kept, near@, problem.trim_percentage)
            &&& #[trigger] is_transformation_of(
                Ok(delta),
                points_at(sampled@, kept),
                matched(problem.target_pts@, near@, kept),
                matched(problem.target_normals@, near@, kept),
                equations,
                solve,
                decompose,
                product,
            )
            &&& first_then(value, transform, delta, after)
            &&& kept.len() > 0 ==> is_root_mean_square(
                value,
                error,
                after,
                origins(problem.source_rows@, indices, kept),
                matched(problem.target_pts@, near@, kept),
                matched(problem.target_normals@, near@, kept),
            )
        }
}

/// An iteration moves the source points by the transform found so far, matches those that
/// take part, fits the pairs that it keeps, and returns the transform that takes every point
/// where the fit takes it from where the transform found so far takes it. The error is that
/// of the returned transform on the source points of the kept pairs.
pub proof fn law_step_follows_the_transform<
    T: Scalar,
    A: Fn(&Vec<[T; 4]>, &Transform<T>) -> Vec<[T; 3]>,
    N: Fn(&Vec<[T; 3]>) -> Vec<(usize, T)>,
    Q: Fn(&Vec<[T; 6]>, &Vec<T>) -> Equations<T>,
    D: Fn(&Equations<T>) -> Option<[T; 6]>,
    B: Fn(&Equations<T>) -> Result<Decomposition<T>, String>,
    W: Fn(&Factors<T>, &Equations<T>) -> [T; 6],
    C: Fn(&Transform<T>, &Transform<T>) -> Transform<T>,
    S: Fn(&Vec<T>) -> T,
>(
    value: spec_fn(T) -> real,
    event: IcpEvent<Transform<T>, T>,
    problem: Problem<T>,
    transform: Transform<T>,
    indices: Seq<usize>,
    apply: A,
    nearest: N,
    equations: Q,
    solve: D,
    decompose: B,
    product: W,
    compose: C,
    total: S,
)
    requires
        exact(value),
        roots_exactly(value),
        counts_exactly(value),
        multiplies_exactly(value, apply),
        composes_exactly(value, compose),
        totals_exactly(value, total),
        transform[3] == rigid_row_of::<T>(),
        forall|i: int|
            0 <= i < problem.source_rows@.len() ==> (#[trigger] problem.source_rows@[i])[3]
                == one_of::<T>(),
        all_within(indices, problem.source_rows@.len() as int),
        indices.len() <= usize::MAX,
        forall|points: &Vec<[T; 3]>, near: Vec<(usize, T)>| #[trigger]
            call_ensures(nearest, (points,), near) ==> near@.len() == points@.len(),
        forall|points: &Vec<[T; 3]>, near: Vec<(usize, T)>, i: int|
            #![trigger call_ensures(nearest, (points,), near), near@[i]]
            call_ensures(nearest, (points,), near) && 0 <= i < near@.len() ==> !is_nan(
                bits_of(near@[i].1),
            ),
        is_iteration_on(
            event,
            problem,
            transform,
            indices,
            apply,
            nearest,
            equations,
            solve,
            decompose,
            product,
            compose,
            total,
        ),
        event is Stepped,
    ensures
        is_step(
            value,
            event->transform,
            event->error,
            problem,
            transform,
            indices,
            nearest,
            equations,
            solve,
            decompose,
            product,
        ),
{
    let (moved, sampled, near, kept) = choose|
        moved: Vec<[T; 3]>,
        sampled: Vec<[T; 3]>,
        near: Vec<(usize, T)>,
        kept: Seq<usize>,
    |
        {
            &&& #[trigger] is_selection(
                problem,
                transform,
                indices,
                apply,
                nearest,
                moved,
                sampled,
                near,
                kept,
            )
            &&& is_fit(
                event,
                transform,
                rows_at(sampled@, kept),
                rows_at(rows_at(problem.target_pts@, matched_positions(near@)), kept),
                rows_at(rows_at(problem.target_normals@, matched_positions(near@)), kept),
                apply,
                equations,
                solve,
                decompose,
                product,
                compose,
                total,
            )
        };
    let rows = problem.source_rows@;
    lemma_kept_within(kept, distance_bits_of(near@), kept_count(problem, near@.len()));
    lemma_keeps_nearest(value, kept, near@, problem);
    let sources = points_at(sampled@, kept);
    let targets = matched(problem.target_pts@, near@, kept);
    let normals = matched(problem.target_normals@, near@, kept);
    assert(sources =~= rows_at(sampled@, kept));
    assert(targets =~= rows_at(rows_at(problem.target_pts@, matched_positions(near@)), kept));
    assert(normals =~= rows_at(rows_at(problem.target_normals@, matched_positions(near@)), kept));
    assert forall|i: int| 0 <= i < indices.len() implies value3(value, #[trigger] sampled@[i])
        == placed(
        value,
        transform,
        (
            value(rows[indices[i] as int][0]),
            value(rows[indices[i] as int][1]),
            value(rows[indices[i] as int][2]),
        ),
    ) by {
        let at = indices[i] as int;
        assert(rows[at][3] == one_of::<T>());
        lemma_applied(value, problem.source_rows, transform, moved, apply, at);
        assert(sampled@[i] == moved@[at]);
    }
    let fit = choose|fit: Result<Transform<T>, SolveError>|
        {
            &&& #[trigger] is_transformation_of(
                fit,
                sources,
                targets,
                normals,
                equations,
                solve,
                decompose,
                product,
            )
            &&& match fit {
                Err(reason) => event == IcpEvent::<Transform<T>, T>::SolverFailed { reason },
                Ok(delta) => {
                    &&& event is Stepped
                    &&& call_ensures(compose, (&delta, &transform), event->transform)
                    &&& is_error_of(
                        event->error,
                        sources,
                        targets,
                        normals,
                        delta,
                        apply,
                        total,
                    )
                },
            }
        };
    assert(fit is Ok);
    let delta = fit->Ok_0;
    assert(fit == Ok::<Transform<T>, SolveError>(delta));
    assert forall|p: Real3| #[trigger] placed(value, event->transform, p) == placed(
        value,
        delta,
        placed(value, transform, p),
    ) by {
        lemma_composed(value, delta, transform, event->transform, compose, p);
    }
    assert(first_then(value, transform, delta, event->transform));
    if kept.len() > 0 {
        law_error_is_root_mean_square(
            value,
            event->error,
            sources,
            targets,
            normals,
            delta,
            apply,
            total,
        );
        let starts = origins(rows, indices, kept);
        assert forall|k: int| 0 <= k < sources.len() implies placed(
            value,
            delta,
            value3(value, #[trigger] sources[k]),
        ) == placed(value, event->transform, value3(value, starts[k])) by {
            assert(sources[k] == sampled@[kept[k] as int]);
            assert(kept[k] < distance_bits_of(near@).len());
        }
        lemma_same_squares(
            value,
            delta,
            sources,
            event->transform,
            starts,
            targets,
            normals,
            kept.len() as int,
        );
    }
    assert(call_ensures(nearest, (&sampled,), near));
    assert(takes_part(value, sampled@, rows, transform, indices));
}

/// An iteration fails only where the fit of its pairs does, and says why the fit failed.
pub proof fn law_only_a_failed_fit_fails<
    T: Scalar,
    A: Fn(&Vec<[T; 4]>, &Transform<T>) -> Vec<[T; 3]>,
    N: Fn(&Vec<[T; 3]>) -> Vec<(usize, T)>,
    Q: Fn(&Vec<[T; 6]>, &Vec<T>) -> Equations<T>,
    D: Fn(&Equations<T>) -> Option<[T; 6]>,
    B: Fn(&Equations<T>) -> Result<Decomposition<T>, String>,
    W: Fn(&Factors<T>, &Equations<T>) -> [T; 6],
    C: Fn(&Transform<T>, &Transform<T>) -> Transform<T>,
    S: Fn(&Vec<T>) -> T,
>(
    event: IcpEvent<Transform<T>, T>,
    problem: Problem<T>,
    transform: Transform<T>,
    indices: Seq<usize>,
    apply: A,
    nearest: N,
    equations: Q,
    solve: D,
    decompose: B,
    product: W,
    compose: C,
    total: S,
)
    requires
        is_iteration_on(
            event,
            problem,
            transform,
            indices,
            apply,
            nearest,
            equations,
            solve,
            decompose,
            product,
            compose,
            total,
        ),
        event is SolverFailed,
    ensures
        exists|sampled: Vec<[T; 3]>, near: Vec<(usize, T)>, kept: Seq<usize>|
            {
                &&& #[trigger] call_ensures(nearest, (&sampled,), near)
                &&& #[trigger] is_transformation_of(
                    Err(event->reason),
                    points_at(sampled@, kept),
                    matched(problem.target_pts@, near@, kept),
                    matched(problem.target_normals@, near@, kept),
                    equations,
                    solve,
                    decompose,
                    product,
                )
            },
{
    let (moved, sampled, near, kept) = choose|
        moved: Vec<[T; 3]>,
        sampled: Vec<[T; 3]>,
        near: Vec<(usize, T)>,
        kept: Seq<usize>,
    |
        {
            &&& #[trigger] is_selection(
                problem,
                transform,
                indices,
                apply,
                nearest,
                moved,
                sampled,
                near,
                kept,
            )
            &&& is_fit(
                event,
                transform,
                rows_at(sampled@, kept),
                rows_at(rows_at(problem.target_pts@, matched_positions(near@)), kept),
                rows_at(rows_at(problem.target_normals@, matched_positions(near@)), kept),
                apply,
                equations,
                solve,
                decompose,
                product,
                compose,
                total,
            )
        };
    lemma_kept_within(kept, distance_bits_of(near@), kept_count(problem, near@.len()));
    assert(points_at(sampled@, kept) =~= rows_at(sampled@, kept));
    assert(matched(problem.target_pts@, near@, kept) =~= rows_at(
        rows_at(problem.target_pts@, matched_positions(near@)),
        kept,
    ));
    assert(matched(problem.target_normals@, near@, kept) =~= rows_at(
        rows_at(problem.target_normals@, matched_positions(near@)),
        kept,
    ));
    assert(call_ensures(nearest, (&sampled,), near));
}

} // verus!

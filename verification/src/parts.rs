//! What the parts of a fit give, where arithmetic is exact.
use crate::alignment::{
    centering_transform, homogeneous, inverse_factors_of, invert_singular_values, inverted_of,
    no_rotation_of,
    plane_distance_of, relative_to, rigid_of, rigid_transform, root_mean_square,
    squared_residuals, Decomposition, Equations, Factors, SolveError, Transform,
};
use crate::calls::all_exact;
use crate::candidates::identity;
use crate::exact::{millionth, value3};
use crate::facing::{difference, seen_from};
use crate::fits::{law_inverse_undoes_values, lemma_distance_value, measures_exactly, off_plane};
use crate::icp::closest_indices;
use crate::means::lemma_quotient_times;
use crate::order::{bits_less, is_nan};
use crate::progress::law_kept_come_first;
use crate::registration::{is_solution_of, solve_equations};
use crate::rotations::{lemma_units, Real3};
use crate::scalar::{
    count_of, functional, minus3_of, one_of, over_of, ratio_of, square_root_of, times_of, Scalar,
};
use crate::trials::{law_identity_stays, stays};
use crate::turning::{lemma_opposite_factor, lemma_positive_product, placed, sum, turned};
use vstd::prelude::*;

verus! {

/// A rotation and a translation together turn a point and then move it.
pub proof fn law_rigid_transform_turns_then_moves<T: Scalar>(
    value: spec_fn(T) -> real,
    r: [[T; 3]; 3],
    t: [T; 3],
    m: Transform<T>,
    p: Real3,
)
    requires
        all_exact(value),
        call_ensures(rigid_transform::<T>, (r, t), m),
    ensures
        placed(value, m, p) == sum(turned(value, r, p), value3(value, t)),
        m[3] == [ratio_of::<T>(0, 1), ratio_of::<T>(0, 1), ratio_of::<T>(0, 1), one_of::<T>()],
{
    assert(m == rigid_of(r, t));
}

/// The centering transform moves every point by what takes the one centroid to the other.
pub proof fn law_centering_transform_moves<T: Scalar>(
    value: spec_fn(T) -> real,
    source_centroid: [T; 3],
    target_centroid: [T; 3],
    m: Transform<T>,
    p: Real3,
)
    requires
        all_exact(value),
        call_ensures(centering_transform::<T>, (source_centroid, target_centroid), m),
    ensures
        placed(value, m, p) == sum(
            p,
            difference(value3(value, target_centroid), value3(value, source_centroid)),
        ),
        placed(value, m, value3(value, source_centroid)) == value3(value, target_centroid),
{
    let t = minus3_of(target_centroid, source_centroid);
    assert(m == rigid_of(no_rotation_of(), t));
    lemma_no_turn(p);
    lemma_no_turn(value3(value, source_centroid));
}

/// What zero and one make of a point's coordinates.
proof fn lemma_no_turn(p: Real3)
    ensures
        (1 as real) * p.0 + (0 as real) * p.1 + (0 as real) * p.2 == p.0,
        (0 as real) * p.0 + (1 as real) * p.1 + (0 as real) * p.2 == p.1,
        (0 as real) * p.0 + (0 as real) * p.1 + (1 as real) * p.2 == p.2,
{
    lemma_units(p.0);
    lemma_units(p.1);
    lemma_units(p.2);
}

/// The identity leaves every point where it is.
pub proof fn law_identity_moves_nothing<T: Scalar>(
    value: spec_fn(T) -> real,
    m: Transform<T>,
)
    requires
        all_exact(value),
        call_ensures(identity::<T>, (), m),
    ensures
        stays(value, m),
{
    law_identity_stays::<T>(value);
}

/// Homogeneous coordinates are the three coordinates, in their order, and a one.
pub proof fn law_homogeneous_rows_end_in_one<T: Scalar>(
    points: Vec<[T; 3]>,
    rows: Vec<[T; 4]>,
    i: int,
)
    requires
        functional::<T>(),
        call_ensures(homogeneous::<T>, (&points,), rows),
        0 <= i < points@.len(),
    ensures
        rows@.len() == points@.len(),
        rows@[i][0] == points@[i][0],
        rows@[i][1] == points@[i][1],
        rows@[i][2] == points@[i][2],
        rows@[i][3] == one_of::<T>(),
{
}

/// The points relative to an origin are the points as seen from there.
pub proof fn law_relative_points_are_seen_from_origin<T: Scalar>(
    value: spec_fn(T) -> real,
    points: Vec<[T; 3]>,
    origin: [T; 3],
    r: Vec<[T; 3]>,
)
    requires
        all_exact(value),
        call_ensures(relative_to::<T>, (&points, origin), r),
    ensures
        seen_from(value, r@, points@, value3(value, origin)),
{
    assert forall|i: int| 0 <= i < points@.len() implies value3(value, #[trigger] r@[i])
        == difference(value3(value, points@[i]), value3(value, origin)) by {
        assert(r@[i] == minus3_of(points@[i], origin));
    }
}

/// The squared residual of a pair is the square of the distance of its point from the plane of
/// its target. It is zero exactly on the plane.
pub proof fn law_residuals_are_squared_distances<T: Scalar>(
    value: spec_fn(T) -> real,
    moved: Vec<[T; 3]>,
    targets: Vec<[T; 3]>,
    normals: Vec<[T; 3]>,
    r: Vec<T>,
    i: int,
)
    requires
        all_exact(value),
        call_ensures(squared_residuals::<T>, (&moved, &targets, &normals), r),
        0 <= i < moved@.len(),
    ensures
        r@.len() == moved@.len(),
        ({
            let off = off_plane(
                value3(value, moved@[i]),
                value3(value, targets@[i]),
                value3(value, normals@[i]),
            );
            &&& value(r@[i]) == off * off
            &&& value(r@[i]) == 0 as real <==> off == 0 as real
        }),
{
    let d = plane_distance_of(moved@[i], targets@[i], normals@[i]);
    lemma_distance_value(value, moved@[i], targets@[i], normals@[i]);
    assert(r@[i] == times_of(d, d));
    let off = value(d);
    assert(value(times_of(d, d)) == off * off);
    lemma_units(off);
    if off > 0 as real {
        lemma_positive_product(off, off);
    } else if off < 0 as real {
        lemma_positive_product(-off, -off);
        lemma_opposite_factor(off, -off);
        lemma_opposite_factor(off, off);
    }
}

/// The root mean square, squared and times the number of squares, is their sum.
pub proof fn law_root_mean_square_undone<T: Scalar>(
    value: spec_fn(T) -> real,
    all: T,
    n: usize,
    r: T,
)
    requires
        all_exact(value),
        n > 0,
        value(all) >= 0 as real,
        call_ensures(root_mean_square::<T>, (all, n), r),
    ensures
        value(r) >= 0 as real,
        (value(r) * value(r)) * n as real == value(all),
{
    let mean = over_of(all, count_of(n));
    assert(value(mean) == value(all) / n as real);
    lemma_quotient_times(value(all), n as real);
    if value(mean) < 0 as real {
        lemma_positive_product(-value(mean), n as real);
        lemma_opposite_factor(value(mean), n as real);
    }
    assert(r == square_root_of(mean));
}

/// An inverted singular value undoes the one that it comes from, where that is above a
/// millionth in magnitude, and is zero otherwise.
pub proof fn law_inverted_values_undo<T: Scalar>(
    value: spec_fn(T) -> real,
    values: [T; 6],
    r: [T; 6],
    i: int,
)
    requires
        all_exact(value),
        measures_exactly(value),
        call_ensures(invert_singular_values::<T>, (&values,), r),
        0 <= i < 6,
    ensures
        if value(values[i]) > millionth() || value(values[i]) < -millionth() {
            value(r[i]) * value(values[i]) == 1 as real
        } else {
            value(r[i]) == 0 as real
        },
{
    let v = values[i];
    assert(i == 0 || i == 1 || i == 2 || i == 3 || i == 4 || i == 5);
    assert(r[i] == inverted_of(v));
    assert(value(ratio_of::<T>(1, 1_000_000)) == millionth());
    if value(v) != 0 as real {
        lemma_quotient_times(1 as real, value(v));
        assert(value(over_of(one_of::<T>(), v)) == 1 as real / value(v));
    }
}

/// The factors are those of the decomposition with its singular values undone.
pub open spec fn undoes<T: Scalar>(
    value: spec_fn(T) -> real,
    factors: Factors<T>,
    parts: Decomposition<T>,
) -> bool {
    &&& parts.left == Some(factors.left)
    &&& parts.right == Some(factors.right)
    &&& forall|i: int|
        0 <= i < 6 ==> {
            let (before, after) = (value(parts.values[i]), value(#[trigger] factors.values[i]));
            if before > millionth() || before < -millionth() {
                after * before == 1 as real
            } else {
                after == 0 as real
            }
        }
}

/// The equations are solved directly where that can be done, and otherwise by undoing their
/// decomposition. An error says that the decomposition failed or which factor it lacks, the
/// left one first.
pub proof fn law_equations_are_solved_or_undone<
    T: Scalar,
    D: Fn(&Equations<T>) -> Option<[T; 6]>,
    B: Fn(&Equations<T>) -> Result<Decomposition<T>, String>,
    W: Fn(&Factors<T>, &Equations<T>) -> [T; 6],
>(
    value: spec_fn(T) -> real,
    equations: Equations<T>,
    solve: D,
    decompose: B,
    product: W,
    x: Result<[T; 6], SolveError>,
)
    requires
        all_exact(value),
        measures_exactly(value),
        call_ensures(solve_equations::<T, D, B, W>, (&equations, solve, decompose, product), x),
    ensures
        is_solved_or_undone(value, x, equations, solve, decompose, product),
{
    let direct = choose|direct: Option<[T; 6]>|
        {
            &&& #[trigger] call_ensures(solve, (&equations,), direct)
            &&& match direct {
                Some(solution) => x == Ok::<[T; 6], SolveError>(solution),
                None => exists|decomposition: Result<Decomposition<T>, String>|
                    {
                        &&& #[trigger] call_ensures(decompose, (&equations,), decomposition)
                        &&& match inverse_factors_of(decomposition) {
                            Err(error) => x == Err::<[T; 6], SolveError>(error),
                            Ok(factors) => x is Ok && call_ensures(
                                product,
                                (&factors, &equations),
                                x->Ok_0,
                            ),
                        }
                    },
            }
        };
    assert(is_solution_of(x, equations, solve, decompose, product));
    if direct is None {
        let decomposition = choose|decomposition: Result<Decomposition<T>, String>|
            {
                &&& #[trigger] call_ensures(decompose, (&equations,), decomposition)
                &&& match inverse_factors_of(decomposition) {
                    Err(error) => x == Err::<[T; 6], SolveError>(error),
                    Ok(factors) => x is Ok && call_ensures(
                        product,
                        (&factors, &equations),
                        x->Ok_0,
                    ),
                }
            };
        if decomposition is Ok && x is Ok {
            let parts = decomposition->Ok_0;
            let factors = inverse_factors_of(decomposition)->Ok_0;
            assert(decomposition == Ok::<Decomposition<T>, String>(parts));
            assert forall|i: int| 0 <= i < 6 implies {
                let (before, after) = (
                    value(parts.values[i]),
                    value(#[trigger] factors.values[i]),
                );
                if before > millionth() || before < -millionth() {
                    after * before == 1 as real
                } else {
                    after == 0 as real
                }
            } by {
                law_inverse_undoes_values(value, parts, factors, i);
            }
            assert(undoes(value, factors, parts));
            assert(call_ensures(product, (&factors, &equations), x->Ok_0));
        }
        assert(call_ensures(decompose, (&equations,), decomposition));
    }
    assert(call_ensures(solve, (&equations,), direct));
}

/// `x` is the solution that was found directly or, where none was, the product of the undone
/// decomposition with the equations; or the reason why there is neither.
pub open spec fn is_solved_or_undone<
    T: Scalar,
    D: Fn(&Equations<T>) -> Option<[T; 6]>,
    B: Fn(&Equations<T>) -> Result<Decomposition<T>, String>,
    W: Fn(&Factors<T>, &Equations<T>) -> [T; 6],
>(
    value: spec_fn(T) -> real,
    x: Result<[T; 6], SolveError>,
    equations: Equations<T>,
    solve: D,
    decompose: B,
    product: W,
) -> bool {
    exists|direct: Option<[T; 6]>|
        {
            &&& #[trigger] call_ensures(solve, (&equations,), direct)
            &&& direct matches Some(solution) ==> x == Ok::<[T; 6], SolveError>(solution)
            &&& direct is None ==> exists|decomposition: Result<Decomposition<T>, String>|
                {
                    &&& #[trigger] call_ensures(decompose, (&equations,), decomposition)
                    &&& match decomposition {
                        Err(detail) => x == Err::<[T; 6], SolveError>(
                            SolveError::Decomposition { detail },
                        ),
                        Ok(parts) => if parts.left is None {
                            x == Err::<[T; 6], SolveError>(SolveError::MissingLeft)
                        } else if parts.right is None {
                            x == Err::<[T; 6], SolveError>(SolveError::MissingRight)
                        } else {
                            x is Ok && exists|factors: Factors<T>| #[trigger]
                                undoes(value, factors, parts) && call_ensures(
                                    product,
                                    (&factors, &equations),
                                    x->Ok_0,
                                )
                        },
                    }
                }
        }
}

/// The pairs that are kept are as many as asked for, or all; none is kept twice; they come by
/// rising distance; and none that is dropped is closer than one that is kept.
pub proof fn law_closest_come_first(bits: Vec<u64>, n: usize, kept: Vec<usize>)
    requires
        call_ensures(closest_indices, (&bits, n), kept),
        forall|i: int| 0 <= i < bits@.len() ==> !is_nan(#[trigger] bits@[i]),
    ensures
        kept@.len() == if n <= bits@.len() {
            n as nat
        } else {
            bits@.len()
        },
        kept@.no_duplicates(),
        forall|p: int, q: int|
            #![trigger kept@[p], kept@[q]]
            0 <= p < q < kept@.len() ==> !bits_less(bits@[kept@[q] as int], bits@[kept@[p] as int]),
        forall|p: int, out: usize|
            #![trigger kept@[p], bits@[out as int]]
            0 <= p < kept@.len() && out < bits@.len() && !kept@.contains(out) ==> !bits_less(
                bits@[out as int],
                bits@[kept@[p] as int],
            ),
{
    law_kept_come_first(kept@, bits@, n as nat);
}

} // verus!

//! What becomes of a cloud that is tried, where arithmetic is exact.
use crate::alignment::{centroid_of, homogeneous_of, Decomposition, Equations, Factors, Transform};
use crate::candidates::{
    best_result, error_bits_of, first_alignment, identity_of, is_aligned, is_moved, is_tried,
    matrix_in, Candidate,
};
use crate::exact::{
    compares_exactly, exact, law_centering_meets_target, multiplies_exactly, reads_ratios,
    roots_exactly, value3,
};
use crate::facing::{
    difference, faces, is_mean, law_normal_comes_from_neighbours, lemma_centroid_is_mean, opposite,
    points_at, seen_from,
};
use crate::fits::lemma_applied;
use crate::hypotheses::{Hypothesis, Matrix4};
use crate::icp::{IcpEvent, IcpState};
use crate::invariants::rigid_row_of;
use crate::iteration::is_alignment;
use crate::order::bits_less;
use crate::registration::centering_of;
use crate::report::{eligible, is_best};
use crate::rotations::{dot, lemma_dist, lemma_units, Real3};
use crate::scalar::{bits_of, functional, less_of, minus3_of, one_of, ratio_of, zero_of, Scalar};
use crate::turning::{lemma_positive_product, placed};
use vstd::prelude::*;

verus! {

/// What a matrix with whole-number entries makes of a vector.
pub open spec fn matrix_times(m: Matrix4, d: Real3) -> Real3 {
    (
        dot((m[0][0] as real, m[0][1] as real, m[0][2] as real), d),
        dot((m[1][0] as real, m[1][1] as real, m[1][2] as real), d),
        dot((m[2][0] as real, m[2][1] as real, m[2][2] as real), d),
    )
}

/// The points are where the transform takes the others, one by one.
pub open spec fn are_placed<T: Scalar>(
    value: spec_fn(T) -> real,
    moved: Seq<[T; 3]>,
    points: Seq<[T; 3]>,
    m: Transform<T>,
) -> bool {
    &&& moved.len() == points.len()
    &&& forall|i: int|
        0 <= i < points.len() ==> value3(value, #[trigger] moved[i]) == placed(
            value,
            m,
            value3(value, points[i]),
        )
}

/// Moved points are where the transform takes them.
pub proof fn law_moved_points_are_placed<
    T: Scalar,
    A: Fn(&Vec<[T; 4]>, &Transform<T>) -> Vec<[T; 3]>,
>(
    value: spec_fn(T) -> real,
    moved: Vec<[T; 3]>,
    points: Seq<[T; 3]>,
    m: Transform<T>,
    apply: A,
)
    requires
        exact(value),
        multiplies_exactly(value, apply),
        is_moved(moved, points, m, apply),
    ensures
        are_placed(value, moved@, points, m),
{
    let rows = choose|rows: Vec<[T; 4]>|
        rows@ == homogeneous_of(points) && #[trigger] call_ensures(apply, (&rows, &m), moved);
    assert forall|i: int| 0 <= i < points.len() implies value3(value, #[trigger] moved@[i])
        == placed(value, m, value3(value, points[i])) by {
        let p = points[i];
        assert(rows@[i] == [p[0], p[1], p[2], one_of::<T>()]);
        lemma_applied(value, rows, m, moved, apply, i);
    }
}

/// The cloud was turned by the matrix and then centered: every two points differ by what the
/// matrix makes of the difference of their origins, and the mean is that of the target.
pub open spec fn is_turned_and_centered<T: Scalar>(
    value: spec_fn(T) -> real,
    centered: Seq<[T; 3]>,
    source: Seq<[T; 3]>,
    target: Seq<[T; 3]>,
    m: Matrix4,
) -> bool {
    &&& centered.len() == source.len()
    &&& forall|i: int, j: int|
        0 <= i < source.len() && 0 <= j < source.len() ==> difference(
            value3(value, #[trigger] centered[i]),
            value3(value, #[trigger] centered[j]),
        ) == matrix_times(m, difference(value3(value, source[i]), value3(value, source[j])))
    &&& forall|at: Real3| #[trigger]
        is_mean(value, target, at) ==> is_mean(value, centered, at)
}

/// The transform leaves every point where it is.
pub open spec fn stays<T: Scalar>(value: spec_fn(T) -> real, m: Transform<T>) -> bool {
    &&& m[3] == rigid_row_of::<T>()
    &&& forall|p: Real3| #[trigger] placed(value, m, p) == p
}

/// The identity leaves every point where it is.
pub proof fn law_identity_stays<T: Scalar>(value: spec_fn(T) -> real)
    requires
        exact(value),
    ensures
        stays(value, identity_of::<T>()),
{
    let m = identity_of::<T>();
    assert(m[3]@ =~= rigid_row_of::<T>()@);
    assert forall|p: Real3| #[trigger] placed(value, m, p) == p by {
        lemma_units(p.0);
        lemma_units(p.1);
        lemma_units(p.2);
    }
}

/// What a row makes of two vectors differs by what it makes of their difference.
proof fn lemma_row_of_difference(row: Real3, t: real, p: Real3, q: Real3)
    ensures
        (dot(row, p) + t) - (dot(row, q) + t) == dot(row, difference(p, q)),
{
    lemma_dist(p.0, q.0, row.0);
    lemma_dist(p.1, q.1, row.1);
    lemma_dist(p.2, q.2, row.2);
}

/// Two points that a matrix turns differ by what it makes of their difference.
proof fn lemma_turned_difference<T: Scalar>(
    value: spec_fn(T) -> real,
    m: Matrix4,
    p: Real3,
    q: Real3,
)
    requires
        reads_ratios(value),
    ensures
        difference(
            placed(value, matrix_in(m), p),
            placed(value, matrix_in(m), q),
        ) == matrix_times(m, difference(p, q)),
{
    let a = matrix_in::<T>(m);
    assert forall|r: int, c: int| 0 <= r < 3 && 0 <= c < 3 implies value(#[trigger] a[r][c])
        == m[r][c] as real by {
        assert(r == 0 || r == 1 || r == 2);
        assert(c == 0 || c == 1 || c == 2);
        assert(a[r][c] == ratio_of::<T>(m[r][c], 1));
        let x = m[r][c] as real;
        assert(value(ratio_of::<T>(m[r][c], 1)) == x / 1 as real);
        assert(x / 1 as real == x) by (nonlinear_arith);
    }
    lemma_row_of_difference(
        (value(a[0][0]), value(a[0][1]), value(a[0][2])),
        value(a[0][3]),
        p,
        q,
    );
    lemma_row_of_difference(
        (value(a[1][0]), value(a[1][1]), value(a[1][2])),
        value(a[1][3]),
        p,
        q,
    );
    lemma_row_of_difference(
        (value(a[2][0]), value(a[2][1]), value(a[2][2])),
        value(a[2][3]),
        p,
        q,
    );
}

/// There is one quotient.
proof fn lemma_one_quotient(a: real, b: real, n: real)
    requires
        n > 0 as real,
        a * n == b * n,
    ensures
        a == b,
{
    lemma_dist(a, b, n);
    lemma_dist(b, a, n);
    if a < b {
        lemma_positive_product(b - a, n);
    } else if b < a {
        lemma_positive_product(a - b, n);
    }
}

/// There is one mean: the centroid.
pub(crate) proof fn lemma_one_mean<T: Scalar>(
    value: spec_fn(T) -> real,
    points: Seq<[T; 3]>,
    at: Real3,
)
    requires
        exact(value),
        0 < points.len() <= usize::MAX,
        is_mean(value, points, at),
    ensures
        at == value3(value, centroid_of(points)),
{
    lemma_centroid_is_mean(value, points);
    let c = value3(value, centroid_of(points));
    let n = points.len() as real;
    lemma_one_quotient(at.0, c.0, n);
    lemma_one_quotient(at.1, c.1, n);
    lemma_one_quotient(at.2, c.2, n);
}

/// Turning a cloud by a matrix and centering it on the target.
proof fn lemma_turned_and_centered<
    T: Scalar,
    A: Fn(&Vec<[T; 4]>, &Transform<T>) -> Vec<[T; 3]>,
>(
    value: spec_fn(T) -> real,
    turned: Vec<[T; 3]>,
    centered: Vec<[T; 3]>,
    source: Seq<[T; 3]>,
    target: Seq<[T; 3]>,
    m: Matrix4,
    apply: A,
)
    requires
        exact(value),
        reads_ratios(value),
        multiplies_exactly(value, apply),
        0 < source.len() <= usize::MAX,
        0 < target.len() <= usize::MAX,
        is_moved(turned, source, matrix_in(m), apply),
        is_moved(centered, turned@, centering_of(turned@, target), apply),
    ensures
        is_turned_and_centered(value, centered@, source, target, m),
{
    law_moved_points_are_placed(value, turned, source, matrix_in(m), apply);
    law_centering_meets_target(value, centered, turned@, target, apply);
    assert forall|i: int, j: int|
        0 <= i < source.len() && 0 <= j < source.len() implies difference(
        value3(value, #[trigger] centered@[i]),
        value3(value, #[trigger] centered@[j]),
    ) == matrix_times(m, difference(value3(value, source[i]), value3(value, source[j]))) by {
        let (a, b) = (
            minus3_of(centered@[i], centered@[j]),
            minus3_of(turned@[i], turned@[j]),
        );
        assert(a == b);
        assert(value3(value, a) == difference(
            value3(value, centered@[i]),
            value3(value, centered@[j]),
        ));
        assert(value3(value, b) == difference(value3(value, turned@[i]), value3(value, turned@[j])));
        assert(value3(value, turned@[i]) == placed(value, matrix_in(m), value3(value, source[i])));
        assert(value3(value, turned@[j]) == placed(value, matrix_in(m), value3(value, source[j])));
        lemma_turned_difference(value, m, value3(value, source[i]), value3(value, source[j]));
    }
    assert forall|at: Real3| #[trigger] is_mean(value, target, at) implies is_mean(
        value,
        centered@,
        at,
    ) by {
        lemma_one_mean(value, target, at);
        lemma_centroid_is_mean(value, centered@);
    }
}

/// The candidate is the cloud `points`, aligned to the target from where it is in at most
/// `max_iterations` iterations of at most 7200 points, until the error is below fifteen
/// thousandths: its points are where its transform takes them.
pub open spec fn is_outcome<
    T: Scalar,
    A: Fn(&Vec<[T; 4]>, &Transform<T>) -> Vec<[T; 3]>,
    N: Fn(&Vec<[T; 3]>) -> Vec<(usize, T)>,
    Q: Fn(&Vec<[T; 6]>, &Vec<T>) -> Equations<T>,
    D: Fn(&Equations<T>) -> Option<[T; 6]>,
    B: Fn(&Equations<T>) -> Result<Decomposition<T>, String>,
    W: Fn(&Factors<T>, &Equations<T>) -> [T; 6],
    C: Fn(&Transform<T>, &Transform<T>) -> Transform<T>,
    S: Fn(&Vec<T>) -> T,
    R: Fn(&IcpEvent<Transform<T>, T>, usize),
>(
    value: spec_fn(T) -> real,
    candidate: Candidate<T>,
    points: Seq<[T; 3]>,
    target_pts: Seq<[T; 3]>,
    target_normals: Seq<[T; 3]>,
    max_iterations: usize,
    apply: A,
    nearest: N,
    equations: Q,
    solve: D,
    decompose: B,
    product: W,
    compose: C,
    total: S,
    report: R,
) -> bool {
    &&& are_placed(value, candidate.points@, points, candidate.transform)
    &&& exists|start: Transform<T>, end: IcpState<Transform<T>, T>|
        {
            &&& stays(value, start)
            &&& candidate.transform == end.transform
            &&& candidate.rmse == end.last_error
            &&& #[trigger] is_alignment(
                end,
                points,
                target_pts,
                target_normals,
                start,
                max_iterations,
                ratio_of(15, 1000),
                7200,
                one_of(),
                apply,
                nearest,
                equations,
                solve,
                decompose,
                product,
                compose,
                total,
                report,
            )
        }
}

/// An aligned cloud is where its alignment takes it.
pub proof fn law_aligned_cloud_is_outcome<
    T: Scalar,
    A: Fn(&Vec<[T; 4]>, &Transform<T>) -> Vec<[T; 3]>,
    N: Fn(&Vec<[T; 3]>) -> Vec<(usize, T)>,
    Q: Fn(&Vec<[T; 6]>, &Vec<T>) -> Equations<T>,
    D: Fn(&Equations<T>) -> Option<[T; 6]>,
    B: Fn(&Equations<T>) -> Result<Decomposition<T>, String>,
    W: Fn(&Factors<T>, &Equations<T>) -> [T; 6],
    C: Fn(&Transform<T>, &Transform<T>) -> Transform<T>,
    S: Fn(&Vec<T>) -> T,
    R: Fn(&IcpEvent<Transform<T>, T>, usize),
>(
    value: spec_fn(T) -> real,
    candidate: Candidate<T>,
    label: Seq<char>,
    points: Seq<[T; 3]>,
    target_pts: Seq<[T; 3]>,
    target_normals: Seq<[T; 3]>,
    max_iterations: usize,
    apply: A,
    nearest: N,
    equations: Q,
    solve: D,
    decompose: B,
    product: W,
    compose: C,
    total: S,
    report: R,
)
    requires
        exact(value),
        multiplies_exactly(value, apply),
        is_aligned(
            candidate,
            label,
            points,
            target_pts,
            target_normals,
            max_iterations,
            apply,
            nearest,
            equations,
            solve,
            decompose,
            product,
            compose,
            total,
            report,
        ),
    ensures
        candidate.label@ == label,
        is_outcome(
            value,
            candidate,
            points,
            target_pts,
            target_normals,
            max_iterations,
            apply,
            nearest,
            equations,
            solve,
            decompose,
            product,
            compose,
            total,
            report,
        ),
{
    law_moved_points_are_placed(value, candidate.points, points, candidate.transform, apply);
    law_identity_stays::<T>(value);
}

/// A hypothesis is tried on the source cloud by turning the cloud with its matrix, moving it
/// so that its mean is that of the target, and aligning it from there in at most forty
/// iterations.
pub proof fn law_hypothesis_turns_then_centers<
    T: Scalar,
    A: Fn(&Vec<[T; 4]>, &Transform<T>) -> Vec<[T; 3]>,
    N: Fn(&Vec<[T; 3]>) -> Vec<(usize, T)>,
    Q: Fn(&Vec<[T; 6]>, &Vec<T>) -> Equations<T>,
    D: Fn(&Equations<T>) -> Option<[T; 6]>,
    B: Fn(&Equations<T>) -> Result<Decomposition<T>, String>,
    W: Fn(&Factors<T>, &Equations<T>) -> [T; 6],
    C: Fn(&Transform<T>, &Transform<T>) -> Transform<T>,
    S: Fn(&Vec<T>) -> T,
    R: Fn(&IcpEvent<Transform<T>, T>, usize),
>(
    value: spec_fn(T) -> real,
    candidate: Candidate<T>,
    hypothesis: Hypothesis,
    source_pts: Seq<[T; 3]>,
    target_pts: Seq<[T; 3]>,
    target_normals: Seq<[T; 3]>,
    apply: A,
    nearest: N,
    equations: Q,
    solve: D,
    decompose: B,
    product: W,
    compose: C,
    total: S,
    report: R,
)
    requires
        exact(value),
        reads_ratios(value),
        multiplies_exactly(value, apply),
        0 < source_pts.len() <= usize::MAX,
        0 < target_pts.len() <= usize::MAX,
        is_tried(
            candidate,
            hypothesis,
            source_pts,
            target_pts,
            target_normals,
            apply,
            nearest,
            equations,
            solve,
            decompose,
            product,
            compose,
            total,
            report,
        ),
    ensures
        candidate.label@ == hypothesis.label@,
        exists|centered: Seq<[T; 3]>|
            {
                &&& #[trigger] is_turned_and_centered(
                    value,
                    centered,
                    source_pts,
                    target_pts,
                    hypothesis.matrix,
                )
                &&& is_outcome(
                    value,
                    candidate,
                    centered,
                    target_pts,
                    target_normals,
                    40,
                    apply,
                    nearest,
                    equations,
                    solve,
                    decompose,
                    product,
                    compose,
                    total,
                    report,
                )
            },
{
    let (turned, centered) = choose|turned: Vec<[T; 3]>, centered: Vec<[T; 3]>|
        {
            &&& #[trigger] is_moved(turned, source_pts, matrix_in(hypothesis.matrix), apply)
            &&& #[trigger] is_moved(
                centered,
                turned@,
                centering_of(turned@, target_pts),
                apply,
            )
            &&& is_aligned(
                candidate,
                hypothesis.label@,
                centered@,
                target_pts,
                target_normals,
                40,
                apply,
                nearest,
                equations,
                solve,
                decompose,
                product,
                compose,
                total,
                report,
            )
        };
    lemma_turned_and_centered(
        value,
        turned,
        centered,
        source_pts,
        target_pts,
        hypothesis.matrix,
        apply,
    );
    law_aligned_cloud_is_outcome(
        value,
        candidate,
        hypothesis.label@,
        centered@,
        target_pts,
        target_normals,
        40,
        apply,
        nearest,
        equations,
        solve,
        decompose,
        product,
        compose,
        total,
        report,
    );
    assert(is_turned_and_centered(
        value,
        centered@,
        source_pts,
        target_pts,
        hypothesis.matrix,
    ));
}

/// The cloud was only moved, to where its mean is that of the target.
pub open spec fn is_centered<T: Scalar>(
    value: spec_fn(T) -> real,
    centered: Seq<[T; 3]>,
    source: Seq<[T; 3]>,
    target: Seq<[T; 3]>,
) -> bool {
    &&& centered.len() == source.len()
    &&& forall|i: int, j: int|
        0 <= i < source.len() && 0 <= j < source.len() ==> difference(
            value3(value, #[trigger] centered[i]),
            value3(value, #[trigger] centered[j]),
        ) == difference(value3(value, source[i]), value3(value, source[j]))
    &&& forall|at: Real3| #[trigger]
        is_mean(value, target, at) ==> is_mean(value, centered, at)
}

/// Centering moves a cloud to where its mean is that of the target.
pub proof fn law_centering_only_moves<
    T: Scalar,
    A: Fn(&Vec<[T; 4]>, &Transform<T>) -> Vec<[T; 3]>,
>(
    value: spec_fn(T) -> real,
    centered: Vec<[T; 3]>,
    source: Seq<[T; 3]>,
    target: Seq<[T; 3]>,
    apply: A,
)
    requires
        exact(value),
        multiplies_exactly(value, apply),
        0 < source.len() <= usize::MAX,
        0 < target.len() <= usize::MAX,
        is_moved(centered, source, centering_of(source, target), apply),
    ensures
        is_centered(value, centered@, source, target),
{
    law_centering_meets_target(value, centered, source, target, apply);
    assert forall|i: int, j: int|
        0 <= i < source.len() && 0 <= j < source.len() implies difference(
        value3(value, #[trigger] centered@[i]),
        value3(value, #[trigger] centered@[j]),
    ) == difference(value3(value, source[i]), value3(value, source[j])) by {
        let (a, b) = (minus3_of(centered@[i], centered@[j]), minus3_of(source[i], source[j]));
        assert(a == b);
        assert(value3(value, a) == difference(
            value3(value, centered@[i]),
            value3(value, centered@[j]),
        ));
        assert(value3(value, b) == difference(value3(value, source[i]), value3(value, source[j])));
    }
    assert forall|at: Real3| #[trigger] is_mean(value, target, at) implies is_mean(
        value,
        centered@,
        at,
    ) by {
        lemma_one_mean(value, target, at);
        lemma_centroid_is_mean(value, centered@);
    }
}

/// The first alignment moves the source so that its mean is that of the target, gives every
/// target point the normal of its neighbourhood that faces the origin, and aligns the moved
/// source from where it is in at most twenty iterations.
pub proof fn law_first_alignment_centers_and_faces_origin<
    T: Scalar,
    A: Fn(&Vec<[T; 4]>, &Transform<T>) -> Vec<[T; 3]> + Copy,
    N: Fn(&Vec<[T; 3]>) -> Vec<(usize, T)> + Copy,
    Q: Fn(&Vec<[T; 6]>, &Vec<T>) -> Equations<T> + Copy,
    D: Fn(&Equations<T>) -> Option<[T; 6]> + Copy,
    B: Fn(&Equations<T>) -> Result<Decomposition<T>, String> + Copy,
    W: Fn(&Factors<T>, &Equations<T>) -> [T; 6] + Copy,
    C: Fn(&Transform<T>, &Transform<T>) -> Transform<T> + Copy,
    S: Fn(&Vec<T>) -> T + Copy,
    R: Fn(&IcpEvent<Transform<T>, T>, usize) + Copy,
    H: Fn(&[T; 3], usize) -> Vec<usize>,
    L: Fn(&Vec<[T; 3]>) -> [T; 3],
    Y: Fn(&Vec<[T; 3]>, &Vec<[T; 3]>),
>(
    value: spec_fn(T) -> real,
    source_pts: Vec<[T; 3]>,
    target_pts: Vec<[T; 3]>,
    search: H,
    least_spread: L,
    apply: A,
    nearest: N,
    equations: Q,
    solve: D,
    decompose: B,
    product: W,
    compose: C,
    total: S,
    report: R,
    prepared: Y,
    r: (Vec<[T; 3]>, Vec<[T; 3]>, Candidate<T>),
    i: int,
)
    requires
        functional::<T>(),
        exact(value),
        compares_exactly(value),
        reads_ratios(value),
        roots_exactly(value),
        multiplies_exactly(value, apply),
        0 < source_pts@.len() <= usize::MAX,
        0 < target_pts@.len() <= usize::MAX,
        0 <= i < target_pts@.len(),
        forall|found: Vec<usize>| #[trigger]
            call_ensures(search, (&target_pts@[i], 15usize), found) ==> 0 < found@.len()
                <= usize::MAX,
        call_ensures(
            first_alignment::<T, A, N, Q, D, B, W, C, S, R, H, L, Y>,
            (
                &source_pts,
                &target_pts,
                search,
                least_spread,
                apply,
                nearest,
                equations,
                solve,
                decompose,
                product,
                compose,
                total,
                report,
                prepared,
            ),
            r,
        ),
    ensures
        is_centered(value, r.0@, source_pts@, target_pts@),
        r.1@.len() == target_pts@.len(),
        faces_origin(value, r.1@[i], target_pts@[i], target_pts@, search, least_spread),
        r.2.label@ == "Original"@,
        is_outcome(
            value,
            r.2,
            r.0@,
            target_pts@,
            r.1@,
            20,
            apply,
            nearest,
            equations,
            solve,
            decompose,
            product,
            compose,
            total,
            report,
        ),
{
    law_centering_only_moves(value, r.0, source_pts@, target_pts@, apply);
    law_normal_comes_from_neighbours(
        value,
        r.1@[i],
        target_pts@[i],
        target_pts@,
        search,
        least_spread,
        [zero_of(), zero_of(), zero_of()],
    );
    law_aligned_cloud_is_outcome(
        value,
        r.2,
        "Original"@,
        r.0@,
        target_pts@,
        r.1@,
        20,
        apply,
        nearest,
        equations,
        solve,
        decompose,
        product,
        compose,
        total,
        report,
    );
}

/// The normal at the point comes from its fifteen nearest neighbours and faces the origin: it
/// is the unit vector along the direction in which they spread least about their mean, on the
/// side of the origin as seen from there.
pub open spec fn faces_origin<
    T: Scalar,
    H: Fn(&[T; 3], usize) -> Vec<usize>,
    L: Fn(&Vec<[T; 3]>) -> [T; 3],
>(
    value: spec_fn(T) -> real,
    normal: [T; 3],
    point: [T; 3],
    target_pts: Seq<[T; 3]>,
    search: H,
    least_spread: L,
) -> bool {
    exists|found: Vec<usize>, around: Vec<[T; 3]>, direction: [T; 3], at: Real3|
        {
            &&& #[trigger] call_ensures(search, (&point, 15usize), found)
            &&& is_mean(value, points_at(target_pts, found@), at)
            &&& #[trigger] seen_from(value, around@, points_at(target_pts, found@), at)
            &&& #[trigger] call_ensures(least_spread, (&around,), direction)
            &&& faces(value3(value, normal), value3(value, direction), opposite(at))
        }
}

/// The best candidate has the least error: none that has an error below the largest number has
/// a smaller one, and none before it has the same. Without any such candidate it is the one
/// that stands for none.
pub proof fn law_best_has_least_error<T: Scalar>(
    candidates: Vec<Candidate<T>>,
    none: Candidate<T>,
    best: Candidate<T>,
)
    requires
        functional::<T>(),
        call_ensures(best_result::<T>, (&candidates, &none), &best),
    ensures
        (exists|i: int|
            0 <= i < candidates@.len() && bits_less(
                bits_of((#[trigger] candidates@[i]).rmse),
                0x7fef_ffff_ffff_ffff,
            )) ==> exists|b: int|
            {
                &&& 0 <= b < candidates@.len()
                &&& best == #[trigger] candidates@[b]
                &&& forall|i: int|
                    0 <= i < candidates@.len() ==> {
                        &&& !less_of((#[trigger] candidates@[i]).rmse, best.rmse)
                        &&& i < b ==> less_of(best.rmse, candidates@[i].rmse) || !bits_less(
                            bits_of(candidates@[i].rmse),
                            0x7fef_ffff_ffff_ffff,
                        )
                    }
            },
        (forall|i: int|
            0 <= i < candidates@.len() ==> !bits_less(
                bits_of((#[trigger] candidates@[i]).rmse),
                0x7fef_ffff_ffff_ffff,
            )) ==> best == none,
{
    let bits = error_bits_of(candidates@);
    let choice = choose|choice: Option<usize>| #[trigger]
        is_best(choice, bits) && best == (match choice {
            Some(b) => candidates@[b as int],
            None => none,
        });
    match choice {
        Some(b) => {
            assert(eligible(bits, b as int));
            assert(bits[b as int] == bits_of(candidates@[b as int].rmse));
            assert forall|i: int| 0 <= i < candidates@.len() implies {
                &&& !less_of((#[trigger] candidates@[i]).rmse, best.rmse)
                &&& i < b ==> less_of(best.rmse, candidates@[i].rmse) || !bits_less(
                    bits_of(candidates@[i].rmse),
                    0x7fef_ffff_ffff_ffff,
                )
            } by {
                assert(bits[i] == bits_of(candidates@[i].rmse));
                assert(eligible(bits, i) <==> bits_less(bits[i], 0x7fef_ffff_ffff_ffff));
            }
            assert(best == candidates@[b as int]);
        },
        None => {
            assert forall|i: int| 0 <= i < candidates@.len() implies !bits_less(
                bits_of((#[trigger] candidates@[i]).rmse),
                0x7fef_ffff_ffff_ffff,
            ) by {
                assert(!eligible(bits, i));
                assert(bits[i] == bits_of(candidates@[i].rmse));
            }
        },
    }
}

} // verus!

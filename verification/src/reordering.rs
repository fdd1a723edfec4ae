//! Downsampling does not depend on the order of the points.
use crate::extremes::{law_extremes_bound_all, smallest_of};
use crate::rows::{
    is_reordering, law_reordering_is_complete, law_reordering_keeps_rows, rows_at,
};
use crate::scalar::{
    floor_of, infinity_of, less_of, minus_of, one_of, over_of, plus_of, same_rank, times_of,
    zero_of, Scalar,
};
use crate::voxelization::{
    cell_key, cell_keys, chunk_count, chunk_end, chunked_sum, column, group_count, group_sum,
    is_downsampled, law_downsampling_shrinks, lemma_group_sum_empty, lists_cells, lower_corner_of,
    voxel_mean, CHUNK_SIZE,
};
use vstd::prelude::*;

verus! {

/// Corners that compare as equal are the same to the grid: a coordinate lies in the same
/// cell, counted from either. Floating-point numbers meet this: the only numbers that
/// differ and compare as equal are the two zeros.
pub open spec fn equal_corners_agree<T: Scalar>(inverse: T) -> bool {
    forall|x: T, a: T, b: T|
        #![trigger minus_of(x, a), minus_of(x, b)]
        same_rank(a, b) ==> floor_of(times_of(minus_of(x, a), inverse)) == floor_of(
            times_of(minus_of(x, b), inverse),
        )
}

/// Addition does not round: the order of the summands does not matter, and zero adds
/// nothing.
pub open spec fn adds_exactly<T: Scalar>() -> bool {
    &&& forall|a: T, b: T| #[trigger] plus_of(a, b) == plus_of(b, a)
    &&& forall|a: T, b: T, c: T| #[trigger]
        plus_of(plus_of(a, b), c) == plus_of(a, plus_of(b, c))
    &&& forall|a: T| #[trigger] plus_of(zero_of(), a) == a
}

/// The smallest number is infinite or below infinity.
proof fn lemma_smallest_is_below<T: Scalar>(values: Seq<T>, n: int)
    requires
        0 <= n <= values.len(),
    ensures
        smallest_of(values, n) == infinity_of::<T>() || less_of(
            smallest_of(values, n),
            infinity_of::<T>(),
        ),
    decreases n,
{
    if n > 0 {
        lemma_smallest_is_below(values, n - 1);
    }
}

/// The smallest number compares as equal in any order.
proof fn lemma_smallest_reordered<T: Scalar>(values: Seq<T>, order: Seq<usize>)
    requires
        values.len() <= usize::MAX,
        is_reordering(order, values.len()),
    ensures
        same_rank(
            smallest_of(values, values.len() as int),
            smallest_of(rows_at(values, order), values.len() as int),
        ),
{
    let n = values.len() as int;
    let other = rows_at(values, order);
    let (a, b) = (smallest_of(values, n), smallest_of(other, n));
    law_extremes_bound_all(values, n);
    law_extremes_bound_all(other, n);
    lemma_smallest_is_below(values, n);
    lemma_smallest_is_below(other, n);
    if a != infinity_of::<T>() {
        let i = choose|i: int| 0 <= i < n && #[trigger] values[i] == a;
        law_reordering_is_complete(order, values.len(), i as usize);
        let j = choose|j: int| 0 <= j < order.len() && order[j] == i as usize;
        assert(other[j] == a);
    }
    if b != infinity_of::<T>() {
        let j = choose|j: int| 0 <= j < n && #[trigger] other[j] == b;
        assert(values[order[j] as int] == b);
    }
}

/// The cells of the points are the same in any order.
proof fn lemma_keys_reordered<T: Scalar>(points: Seq<[T; 3]>, order: Seq<usize>, voxel_size: T)
    requires
        points.len() <= usize::MAX,
        is_reordering(order, points.len()),
        equal_corners_agree(over_of(one_of::<T>(), voxel_size)),
    ensures
        cell_keys(rows_at(points, order), voxel_size) == rows_at(
            cell_keys(points, voxel_size),
            order,
        ),
{
    let other = rows_at(points, order);
    let inverse = over_of(one_of::<T>(), voxel_size);
    let (a, b) = (lower_corner_of(points), lower_corner_of(other));
    assert forall|axis: int| 0 <= axis < 3 implies same_rank(#[trigger] a[axis], b[axis]) by {
        assert(column(other, axis) =~= rows_at(column(points, axis), order));
        lemma_smallest_reordered(column(points, axis), order);
    }
    assert forall|p: [T; 3]| #[trigger] cell_key(p, a, inverse) == cell_key(p, b, inverse) by {
        assert(same_rank(a[0], b[0]) && same_rank(a[1], b[1]) && same_rank(a[2], b[2]));
        assert(floor_of(times_of(minus_of(p[0], a[0]), inverse)) == floor_of(
            times_of(minus_of(p[0], b[0]), inverse),
        ));
        assert(floor_of(times_of(minus_of(p[1], a[1]), inverse)) == floor_of(
            times_of(minus_of(p[1], b[1]), inverse),
        ));
        assert(floor_of(times_of(minus_of(p[2], a[2]), inverse)) == floor_of(
            times_of(minus_of(p[2], b[2]), inverse),
        ));
    }
    assert(cell_keys(other, voxel_size) =~= rows_at(cell_keys(points, voxel_size), order));
}

/// Another order of the points gives the same cells.
pub proof fn law_order_changes_no_cell<T: Scalar>(
    points: Seq<[T; 3]>,
    order: Seq<usize>,
    voxel_size: T,
    cells: Seq<u64>,
)
    requires
        points.len() <= usize::MAX,
        is_reordering(order, points.len()),
        equal_corners_agree(over_of(one_of::<T>(), voxel_size)),
    ensures
        lists_cells(cells, cell_keys(rows_at(points, order), voxel_size)) <==> lists_cells(
            cells,
            cell_keys(points, voxel_size),
        ),
{
    lemma_keys_reordered(points, order, voxel_size);
    let keys = cell_keys(points, voxel_size);
    let other = rows_at(keys, order);
    assert forall|key: u64| keys.contains(key) <==> other.contains(key) by {
        if keys.contains(key) {
            let i = choose|i: int| 0 <= i < keys.len() && keys[i] == key;
            law_reordering_is_complete(order, keys.len(), i as usize);
            let j = choose|j: int| 0 <= j < order.len() && order[j] == i as usize;
            assert(other[j] == key);
        }
        if other.contains(key) {
            let j = choose|j: int| 0 <= j < other.len() && other[j] == key;
            assert(keys[order[j] as int] == key);
        }
    }
}

/// The points with their keys.
spec fn keyed<T>(points: Seq<[T; 3]>, keys: Seq<u64>) -> Seq<([T; 3], u64)> {
    Seq::new(keys.len(), |i: int| (points[i], keys[i]))
}

/// Adds a point's coordinate along `axis`, where its key is `key`.
spec fn adding<T: Scalar>(key: u64, axis: int) -> spec_fn(T, ([T; 3], u64)) -> T {
    |sum: T, p: ([T; 3], u64)|
        if p.1 == key {
            plus_of(sum, p.0[axis])
        } else {
            sum
        }
}

/// Counts a point whose key is `key`.
spec fn counting<T>(key: u64) -> spec_fn(nat, ([T; 3], u64)) -> nat {
    |count: nat, p: ([T; 3], u64)|
        if p.1 == key {
            count + 1
        } else {
            count
        }
}

/// Sums and counts are folds over the points.
proof fn lemma_groups_fold<T: Scalar>(
    points: Seq<[T; 3]>,
    keys: Seq<u64>,
    n: int,
    key: u64,
    axis: int,
)
    requires
        0 <= n <= keys.len(),
    ensures
        group_sum(points, keys, 0, n, key, axis) == keyed(points, keys).take(n).fold_left(
            zero_of::<T>(),
            adding(key, axis),
        ),
        group_count(keys, 0, n, key) == keyed(points, keys).take(n).fold_left(
            0nat,
            counting(key),
        ),
    decreases n,
{
    if n > 0 {
        lemma_groups_fold(points, keys, n - 1, key, axis);
        let taken = keyed(points, keys).take(n);
        assert(taken.drop_last() =~= keyed(points, keys).take(n - 1));
        assert(taken.last() == (points[n - 1], keys[n - 1]));
    }
}

/// The count and, where addition is exact, the sum of a cell are the same in any order.
proof fn lemma_groups_reordered<T: Scalar>(
    points: Seq<[T; 3]>,
    keys: Seq<u64>,
    order: Seq<usize>,
    key: u64,
    axis: int,
)
    requires
        keys.len() == points.len() <= usize::MAX,
        is_reordering(order, points.len()),
    ensures
        group_count(rows_at(keys, order), 0, keys.len() as int, key) == group_count(
            keys,
            0,
            keys.len() as int,
            key,
        ),
        adds_exactly::<T>() ==> group_sum(
            rows_at(points, order),
            rows_at(keys, order),
            0,
            keys.len() as int,
            key,
            axis,
        ) == group_sum(points, keys, 0, keys.len() as int, key, axis),
{
    let n = keys.len() as int;
    let (points2, keys2) = (rows_at(points, order), rows_at(keys, order));
    let (all, other) = (keyed(points, keys), keyed(points2, keys2));
    lemma_groups_fold(points, keys, n, key, axis);
    lemma_groups_fold(points2, keys2, n, key, axis);
    assert(all.take(n) =~= all);
    assert(other.take(n) =~= other);
    assert(other =~= rows_at(all, order));
    law_reordering_keeps_rows(all, order);
    vstd::seq_lib::lemma_fold_left_permutation(all, other, counting::<T>(key), 0nat);
    if adds_exactly::<T>() {
        assert forall|x: ([T; 3], u64), y: ([T; 3], u64), v: T| #[trigger]
            adding(key, axis)(adding(key, axis)(v, x), y) == adding(key, axis)(
                adding(key, axis)(v, y),
                x,
            ) by {
            let (a, b) = (x.0[axis], y.0[axis]);
            assert(plus_of(plus_of(v, a), b) == plus_of(v, plus_of(a, b)));
            assert(plus_of(plus_of(v, b), a) == plus_of(v, plus_of(b, a)));
            assert(plus_of(a, b) == plus_of(b, a));
        }
        vstd::seq_lib::lemma_fold_left_permutation(all, other, adding(key, axis), zero_of::<T>());
    }
}

/// Where addition is exact, sums over neighbouring ranges add up.
proof fn lemma_sum_splits<T: Scalar>(
    points: Seq<[T; 3]>,
    keys: Seq<u64>,
    lo: int,
    mid: int,
    hi: int,
    key: u64,
    axis: int,
)
    requires
        adds_exactly::<T>(),
        lo <= mid <= hi,
    ensures
        group_sum(points, keys, lo, hi, key, axis) == plus_of(
            group_sum(points, keys, lo, mid, key, axis),
            group_sum(points, keys, mid, hi, key, axis),
        ),
    decreases hi - mid,
{
    let left = group_sum(points, keys, lo, mid, key, axis);
    if mid < hi {
        lemma_sum_splits(points, keys, lo, mid, hi - 1, key, axis);
        let right = group_sum(points, keys, mid, hi - 1, key, axis);
        let last = points[hi - 1][axis];
        assert(plus_of(plus_of(left, right), last) == plus_of(left, plus_of(right, last)));
    } else {
        assert(plus_of(left, zero_of()) == plus_of(zero_of(), left));
    }
}

/// Where addition is exact, adding chunk by chunk is adding all at once.
proof fn lemma_chunks_add_up<T: Scalar>(
    points: Seq<[T; 3]>,
    keys: Seq<u64>,
    c: int,
    key: u64,
    axis: int,
)
    requires
        adds_exactly::<T>(),
        0 <= c <= chunk_count(keys.len() as int),
    ensures
        chunked_sum(points, keys, c, key, axis) == group_sum(
            points,
            keys,
            0,
            chunk_end(c - 1, keys.len() as int),
            key,
            axis,
        ),
    decreases c,
{
    if c > 0 {
        lemma_chunks_add_up(points, keys, c - 1, key, axis);
        let lo = (c - 1) * CHUNK_SIZE;
        let hi = chunk_end(c - 1, keys.len() as int);
        assert(chunk_end(c - 2, keys.len() as int) == lo);
        lemma_sum_splits(points, keys, 0, lo, hi, key, axis);
        if group_count(keys, lo, hi, key) == 0 {
            lemma_group_sum_empty(points, keys, lo, hi, key, axis);
            let before = group_sum(points, keys, 0, lo, key, axis);
            assert(plus_of(before, zero_of()) == plus_of(zero_of(), before));
        }
    }
}

/// Where addition is exact, the mean of a cell is the same in any order.
proof fn lemma_mean_reordered<T: Scalar>(
    points: Seq<[T; 3]>,
    keys: Seq<u64>,
    order: Seq<usize>,
    key: u64,
)
    requires
        adds_exactly::<T>(),
        keys.len() == points.len() <= usize::MAX,
        is_reordering(order, points.len()),
    ensures
        voxel_mean(rows_at(points, order), rows_at(keys, order), key) == voxel_mean(
            points,
            keys,
            key,
        ),
{
    let n = keys.len() as int;
    let (points2, keys2) = (rows_at(points, order), rows_at(keys, order));
    let c = chunk_count(n);
    assert(chunk_end(c - 1, n) == n);
    assert forall|axis: int| 0 <= axis < 3 implies #[trigger] chunked_sum(
        points2,
        keys2,
        c,
        key,
        axis,
    ) == chunked_sum(points, keys, c, key, axis) by {
        lemma_chunks_add_up(points, keys, c, key, axis);
        lemma_chunks_add_up(points2, keys2, c, key, axis);
        lemma_groups_reordered(points, keys, order, key, axis);
    }
    lemma_groups_reordered(points, keys, order, key, 0);
}

/// Two lists of the same cells are reorderings of each other.
proof fn lemma_cells_reordered(a: Seq<u64>, b: Seq<u64>, keys: Seq<u64>) -> (order: Seq<usize>)
    requires
        lists_cells(a, keys),
        lists_cells(b, keys),
        a.len() <= usize::MAX,
    ensures
        a.len() == b.len(),
        is_reordering(order, a.len()),
        b == rows_at(a, order),
{
    a.unique_seq_to_set();
    b.unique_seq_to_set();
    assert(a.to_set() =~= b.to_set()) by {
        assert forall|key: u64| a.to_set().contains(key) <==> b.to_set().contains(key) by {
            assert(a.contains(key) <==> keys.contains(key));
            assert(b.contains(key) <==> keys.contains(key));
        }
    }
    let order = Seq::new(b.len(), |i: int| a.index_of(b[i]) as usize);
    assert forall|i: int| 0 <= i < b.len() implies (#[trigger] order[i]) < a.len()
        && a[order[i] as int] == b[i] by {
        assert(b.contains(b[i]));
        assert(a.contains(b[i]));
    }
    assert forall|p: int, q: int| 0 <= p < q < order.len() implies order[p] != order[q] by {
        assert(a[order[p] as int] == b[p] && a[order[q] as int] == b[q]);
        assert(b[p] != b[q]);
    }
    assert(b =~= rows_at(a, order));
    order
}

/// Points in another order are downsampled to as many points and, where addition is
/// exact, to the same points.
pub proof fn law_order_changes_no_downsampling<T: Scalar>(
    points: Seq<[T; 3]>,
    order: Seq<usize>,
    voxel_size: T,
    rows: Seq<[T; 3]>,
    other: Seq<[T; 3]>,
)
    requires
        points.len() <= usize::MAX,
        is_reordering(order, points.len()),
        equal_corners_agree(over_of(one_of::<T>(), voxel_size)),
        is_downsampled(rows, points, voxel_size),
        is_downsampled(other, rows_at(points, order), voxel_size),
    ensures
        other.len() == rows.len(),
        adds_exactly::<T>() ==> other.to_multiset() == rows.to_multiset(),
{
    let (points2, keys) = (rows_at(points, order), cell_keys(points, voxel_size));
    let keys2 = cell_keys(points2, voxel_size);
    lemma_keys_reordered(points, order, voxel_size);
    let cells = choose|cells: Seq<u64>| #[trigger]
        lists_cells(cells, keys) && cells.len() == rows.len() && (forall|i: int|
            0 <= i < rows.len() ==> #[trigger] rows[i] == voxel_mean(points, keys, cells[i]));
    let cells2 = choose|cells: Seq<u64>| #[trigger]
        lists_cells(cells, keys2) && cells.len() == other.len() && (forall|i: int|
            0 <= i < other.len() ==> #[trigger] other[i] == voxel_mean(points2, keys2, cells[i]));
    law_order_changes_no_cell(points, order, voxel_size, cells2);
    law_downsampling_shrinks(keys, cells);
    let moves = lemma_cells_reordered(cells, cells2, keys);
    if adds_exactly::<T>() {
        assert forall|i: int| 0 <= i < other.len() implies #[trigger] other[i]
            == rows[moves[i] as int] by {
            lemma_mean_reordered(points, keys, order, cells2[i]);
            assert(cells2[i] == cells[moves[i] as int]);
        }
        assert(other =~= rows_at(rows, moves));
        law_reordering_keeps_rows(rows, moves);
    }
}

} // verus!

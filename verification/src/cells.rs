//! Which points share a voxel, and what stands for them, where arithmetic is exact.
use crate::exact::{are_ordered, exact};
use crate::extremes::smallest_of;
use crate::facing::lemma_sign_of_factor;
use crate::means::lemma_quotient_times;
use crate::morton::{law_key_names_cell, law_key_range, morton_key};
use crate::picture::lemma_extremes;
use crate::rotations::{lemma_assoc, lemma_comm, lemma_dist, lemma_units};
use crate::scalar::{count_of, floor_of, minus_of, one_of, over_of, plus_of, times_of, Scalar};
use crate::turning::lemma_product_sign;
use crate::voxelization::{
    cell_index, cell_key, cell_keys, chunk_count, chunk_end, chunked_sum, column, group_count,
    group_sum, is_downsampled, lists_cells, lower_corner_of, voxel_mean, CHUNK_SIZE,
};
use vstd::prelude::*;

verus! {

/// The whole part of a number from zero up to the greatest that can be held is found exactly.
pub open spec fn floors_exactly<T: Scalar>(value: spec_fn(T) -> real) -> bool {
    forall|a: T|
        0 as real <= value(a) && value(a) < 0x1_0000_0000 as real ==> {
            &&& (#[trigger] floor_of(a)) as real <= value(a)
            &&& value(a) < floor_of(a) as real + 1 as real
        }
}

/// Along each axis the points' coordinates lie between negative and positive infinity, and
/// compare with each other as their values do.
pub open spec fn are_comparable<T: Scalar>(
    value: spec_fn(T) -> real,
    points: Seq<[T; 3]>,
) -> bool {
    &&& are_ordered(value, Seq::new(points.len(), |i: int| points[i][0]))
    &&& are_ordered(value, Seq::new(points.len(), |i: int| points[i][1]))
    &&& are_ordered(value, Seq::new(points.len(), |i: int| points[i][2]))
}

/// `low` is the smallest of the points' coordinates along `axis`.
pub open spec fn is_lowest<T: Scalar>(
    value: spec_fn(T) -> real,
    points: Seq<[T; 3]>,
    axis: int,
    low: real,
) -> bool {
    &&& forall|i: int| 0 <= i < points.len() ==> low <= value(#[trigger] points[i][axis])
    &&& exists|i: int| 0 <= i < points.len() && value(#[trigger] points[i][axis]) == low
}

/// Counted from `low` in steps of `size`, the number `x` lies in step `n`.
pub open spec fn lies_in(x: real, low: real, size: real, n: int) -> bool {
    &&& n as real * size <= x - low
    &&& x - low < (n as real + 1 as real) * size
}

/// The lower corner of the points.
proof fn lemma_corner<T: Scalar>(
    value: spec_fn(T) -> real,
    points: Seq<[T; 3]>,
    axis: int,
    low: real,
)
    requires
        exact(value),
        are_comparable(value, points),
        0 <= axis < 3,
        is_lowest(value, points, axis, low),
    ensures
        value(lower_corner_of(points)[axis]) == low,
{
    let xs = column(points, axis);
    assert(axis == 0 || axis == 1 || axis == 2);
    assert(xs =~= Seq::new(points.len(), |i: int| points[i][axis]));
    lemma_extremes(value, xs);
    let least = smallest_of(xs, xs.len() as int);
    assert(lower_corner_of(points)[axis] == least);
    let i = choose|i: int| 0 <= i < points.len() && value(#[trigger] points[i][axis]) == low;
    assert(xs[i] == points[i][axis]);
    let j = choose|j: int| 0 <= j < xs.len() && xs[j] == least;
    assert(xs[j] == points[j][axis]);
    assert(low <= value(points[j][axis]));
}

/// How many steps of `size` a distance takes.
proof fn lemma_steps(d: real, size: real, n: real)
    requires
        size > 0 as real,
    ensures
        (n * size <= d && d < (n + 1 as real) * size) <==> (n <= d * (1 as real / size) && d * (
        1 as real / size) < n + 1 as real),
{
    let inverse = 1 as real / size;
    let v = d * inverse;
    lemma_quotient_times(1 as real, size);
    lemma_assoc(d, inverse, size);
    lemma_units(d);
    assert(v * size == d);
    let m = n + 1 as real;
    lemma_dist(v, n, size);
    lemma_dist(m, v, size);
    lemma_dist(v, m, size);
    lemma_dist(n, v, size);
    lemma_comm(size, v - n);
    lemma_comm(size, m - v);
    lemma_comm(size, v - m);
    lemma_comm(size, n - v);
    if n * size <= d {
        lemma_sign_of_factor(size, v - n);
    }
    if d < m * size && m <= v {
        lemma_product_sign(v - m, size);
    }
    if n <= v {
        lemma_product_sign(v - n, size);
    }
    if v < m && m * size <= d {
        lemma_sign_of_factor(size, v - m);
    }
}

/// The index of a cell counts the steps of the voxels' size from the lowest point.
proof fn lemma_cell_index<T: Scalar>(
    value: spec_fn(T) -> real,
    points: Seq<[T; 3]>,
    voxel_size: T,
    low: real,
    i: int,
    axis: int,
)
    requires
        exact(value),
        floors_exactly(value),
        value(voxel_size) > 0 as real,
        are_comparable(value, points),
        0 <= i < points.len(),
        0 <= axis < 3,
        is_lowest(value, points, axis, low),
    ensures
        ({
            let index = cell_index(
                points[i],
                lower_corner_of(points),
                over_of(one_of(), voxel_size),
                axis,
            );
            forall|n: int|
                0 <= n < 0x1_0000_0000 ==> (#[trigger] lies_in(
                    value(points[i][axis]),
                    low,
                    value(voxel_size),
                    n,
                ) <==> n == index && value(points[i][axis]) - low < 0x1_0000_0000 as real * value(
                    voxel_size,
                ))
        }),
{
    lemma_corner(value, points, axis, low);
    let corner = lower_corner_of(points);
    let inverse = over_of(one_of(), voxel_size);
    let size = value(voxel_size);
    assert(value(inverse) == 1 as real / size);
    let d = value(points[i][axis]) - low;
    assert(low <= value(points[i][axis]));
    let scaled = times_of(minus_of(points[i][axis], corner[axis]), inverse);
    assert(value(minus_of(points[i][axis], corner[axis])) == d);
    assert(value(scaled) == d * (1 as real / size));
    let index = cell_index(points[i], corner, inverse, axis);
    assert(index == floor_of(scaled));
    // The number of steps is not negative.
    lemma_steps(d, size, 0 as real);
    lemma_units(size);
    let v = d * (1 as real / size);
    assert(v >= 0 as real) by {
        lemma_quotient_times(1 as real, size);
        lemma_assoc(d, 1 as real / size, size);
        lemma_units(d);
        lemma_comm(size, v);
        lemma_sign_of_factor(size, v);
    }
    let all = 0x1_0000_0000 as real;
    assert(d < all * size <==> v < all) by {
        lemma_quotient_times(1 as real, size);
        lemma_assoc(d, 1 as real / size, size);
        lemma_units(d);
        assert(v * size == d);
        lemma_dist(v, all, size);
        lemma_comm(size, v - all);
        if v >= all {
            lemma_product_sign(v - all, size);
        }
        if d >= all * size {
            lemma_sign_of_factor(size, v - all);
        }
    }
    assert forall|n: int| 0 <= n < 0x1_0000_0000 implies (#[trigger] lies_in(
        value(points[i][axis]),
        low,
        size,
        n,
    ) <==> n == index && d < all * size) by {
        lemma_steps(d, size, n as real);
        assert(n as real + 1 as real <= all);
    }
}

/// Two points get the same key exactly when along each of the three axes the numbers of their
/// cells agree in their low 21 bits. Cells are counted from the lowest coordinate along an
/// axis in steps of the voxels' size.
pub proof fn law_key_names_voxel<T: Scalar>(
    value: spec_fn(T) -> real,
    points: Seq<[T; 3]>,
    voxel_size: T,
    low: (real, real, real),
    i: int,
    j: int,
    a: (int, int, int),
    b: (int, int, int),
)
    requires
        exact(value),
        floors_exactly(value),
        value(voxel_size) > 0 as real,
        are_comparable(value, points),
        0 <= i < points.len(),
        0 <= j < points.len(),
        is_lowest(value, points, 0, low.0),
        is_lowest(value, points, 1, low.1),
        is_lowest(value, points, 2, low.2),
        0 <= a.0 < 0x1_0000_0000 && 0 <= a.1 < 0x1_0000_0000 && 0 <= a.2 < 0x1_0000_0000,
        0 <= b.0 < 0x1_0000_0000 && 0 <= b.1 < 0x1_0000_0000 && 0 <= b.2 < 0x1_0000_0000,
        lies_in(value(points[i][0]), low.0, value(voxel_size), a.0),
        lies_in(value(points[i][1]), low.1, value(voxel_size), a.1),
        lies_in(value(points[i][2]), low.2, value(voxel_size), a.2),
        lies_in(value(points[j][0]), low.0, value(voxel_size), b.0),
        lies_in(value(points[j][1]), low.1, value(voxel_size), b.1),
        lies_in(value(points[j][2]), low.2, value(voxel_size), b.2),
    ensures
        cell_keys(points, voxel_size)[i] == cell_keys(points, voxel_size)[j] <==> {
            &&& a.0 % 0x200000 == b.0 % 0x200000
            &&& a.1 % 0x200000 == b.1 % 0x200000
            &&& a.2 % 0x200000 == b.2 % 0x200000
        },
{
    lemma_cell_index(value, points, voxel_size, low.0, i, 0);
    lemma_cell_index(value, points, voxel_size, low.1, i, 1);
    lemma_cell_index(value, points, voxel_size, low.2, i, 2);
    lemma_cell_index(value, points, voxel_size, low.0, j, 0);
    lemma_cell_index(value, points, voxel_size, low.1, j, 1);
    lemma_cell_index(value, points, voxel_size, low.2, j, 2);
    let corner = lower_corner_of(points);
    let inverse = over_of(one_of(), voxel_size);
    let (p, q) = (
        (
            cell_index(points[i], corner, inverse, 0),
            cell_index(points[i], corner, inverse, 1),
            cell_index(points[i], corner, inverse, 2),
        ),
        (
            cell_index(points[j], corner, inverse, 0),
            cell_index(points[j], corner, inverse, 1),
            cell_index(points[j], corner, inverse, 2),
        ),
    );
    assert(a.0 == p.0 && a.1 == p.1 && a.2 == p.2);
    assert(b.0 == q.0 && b.1 == q.1 && b.2 == q.2);
    law_key_names_cell(p, q);
    law_key_range(p.0, p.1, p.2);
    law_key_range(q.0, q.1, q.2);
    assert(cell_keys(points, voxel_size)[i] == cell_key(points[i], corner, inverse));
    assert(cell_keys(points, voxel_size)[j] == cell_key(points[j], corner, inverse));
    assert(cell_key(points[i], corner, inverse) == morton_key(p.0, p.1, p.2));
    assert(cell_key(points[j], corner, inverse) == morton_key(q.0, q.1, q.2));
}

/// Points that get the same key are close: where no coordinate is as far as `2^21` voxels above
/// the lowest, they differ by less than the voxels' size along every axis.
pub proof fn law_voxels_are_small<T: Scalar>(
    value: spec_fn(T) -> real,
    points: Seq<[T; 3]>,
    voxel_size: T,
    low: (real, real, real),
    i: int,
    j: int,
)
    requires
        exact(value),
        floors_exactly(value),
        value(voxel_size) > 0 as real,
        are_comparable(value, points),
        0 <= i < points.len(),
        0 <= j < points.len(),
        is_lowest(value, points, 0, low.0),
        is_lowest(value, points, 1, low.1),
        is_lowest(value, points, 2, low.2),
        forall|k: int|
            0 <= k < points.len() ==> {
                let far = 0x200000 as real * value(voxel_size);
                &&& value((#[trigger] points[k])[0]) - low.0 < far
                &&& value(points[k][1]) - low.1 < far
                &&& value(points[k][2]) - low.2 < far
            },
        cell_keys(points, voxel_size)[i] == cell_keys(points, voxel_size)[j],
    ensures
        forall|axis: int|
            0 <= axis < 3 ==> {
                &&& value(#[trigger] points[i][axis]) - value(points[j][axis]) < value(voxel_size)
                &&& value(points[j][axis]) - value(points[i][axis]) < value(voxel_size)
            },
{
    let size = value(voxel_size);
    let a = (
        lemma_finds_cell(value, points, voxel_size, low.0, i, 0),
        lemma_finds_cell(value, points, voxel_size, low.1, i, 1),
        lemma_finds_cell(value, points, voxel_size, low.2, i, 2),
    );
    let b = (
        lemma_finds_cell(value, points, voxel_size, low.0, j, 0),
        lemma_finds_cell(value, points, voxel_size, low.1, j, 1),
        lemma_finds_cell(value, points, voxel_size, low.2, j, 2),
    );
    law_key_names_voxel(value, points, voxel_size, low, i, j, a, b);
    assert(a == b);
    lemma_dist(a.0 as real, 1 as real, size);
    lemma_dist(a.1 as real, 1 as real, size);
    lemma_dist(a.2 as real, 1 as real, size);
    lemma_units(size);
    assert forall|axis: int| 0 <= axis < 3 implies {
        &&& value(#[trigger] points[i][axis]) - value(points[j][axis]) < size
        &&& value(points[j][axis]) - value(points[i][axis]) < size
    } by {
        assert(axis == 0 || axis == 1 || axis == 2);
    }
}

/// Every coordinate within `2^21` voxels of the lowest lies in a cell.
proof fn lemma_finds_cell<T: Scalar>(
    value: spec_fn(T) -> real,
    points: Seq<[T; 3]>,
    voxel_size: T,
    low: real,
    i: int,
    axis: int,
) -> (n: int)
    requires
        exact(value),
        floors_exactly(value),
        value(voxel_size) > 0 as real,
        are_comparable(value, points),
        0 <= i < points.len(),
        0 <= axis < 3,
        is_lowest(value, points, axis, low),
        value(points[i][axis]) - low < 0x200000 as real * value(voxel_size),
    ensures
        0 <= n < 0x200000,
        lies_in(value(points[i][axis]), low, value(voxel_size), n),
{
    let size = value(voxel_size);
    let n = cell_index(
        points[i],
        lower_corner_of(points),
        over_of(one_of(), voxel_size),
        axis,
    ) as int;
    lemma_cell_index(value, points, voxel_size, low, i, axis);
    let (near, far) = (0x200000 as real, 0x1_0000_0000 as real);
    let d = value(points[i][axis]) - low;
    lemma_dist(far, near, size);
    lemma_product_sign(far - near, size);
    assert(d < far * size);
    assert(lies_in(value(points[i][axis]), low, size, n));
    if n >= 0x200000 {
        lemma_dist(n as real, near, size);
        lemma_product_sign(n as real - near, size);
    }
    n
}

/// How many of the first `n` points have the key.
pub open spec fn member_count(keys: Seq<u64>, n: int, key: u64) -> int
    decreases n,
{
    if n <= 0 {
        0
    } else {
        member_count(keys, n - 1, key) + if keys[n - 1] == key {
            1int
        } else {
            0int
        }
    }
}

/// The values along `axis` of those of the first `n` points that have the key, added up.
pub open spec fn member_sum<T: Scalar>(
    value: spec_fn(T) -> real,
    points: Seq<[T; 3]>,
    keys: Seq<u64>,
    n: int,
    key: u64,
    axis: int,
) -> real
    decreases n,
{
    if n <= 0 {
        0 as real
    } else {
        member_sum(value, points, keys, n - 1, key, axis) + if keys[n - 1] == key {
            value(points[n - 1][axis])
        } else {
            0 as real
        }
    }
}

/// The sum and the number of the points of a range that have the key.
proof fn lemma_group<T: Scalar>(
    value: spec_fn(T) -> real,
    points: Seq<[T; 3]>,
    keys: Seq<u64>,
    lo: int,
    hi: int,
    key: u64,
    axis: int,
)
    requires
        exact(value),
        0 <= lo <= hi,
    ensures
        value(group_sum(points, keys, lo, hi, key, axis)) == member_sum(
            value,
            points,
            keys,
            hi,
            key,
            axis,
        ) - member_sum(value, points, keys, lo, key, axis),
        group_count(keys, lo, hi, key) == member_count(keys, hi, key) - member_count(keys, lo, key),
        group_count(keys, lo, hi, key) <= hi - lo,
        group_count(keys, lo, hi, key) == 0 ==> member_sum(value, points, keys, hi, key, axis)
            == member_sum(value, points, keys, lo, key, axis),
    decreases hi - lo,
{
    if lo < hi {
        lemma_group(value, points, keys, lo, hi - 1, key, axis);
        let before = group_sum(points, keys, lo, hi - 1, key, axis);
        assert(value(plus_of(before, points[hi - 1][axis])) == value(before) + value(
            points[hi - 1][axis],
        ));
    }
}

/// The sum over chunks is the sum over all points that have the key.
proof fn lemma_chunks<T: Scalar>(
    value: spec_fn(T) -> real,
    points: Seq<[T; 3]>,
    keys: Seq<u64>,
    c: int,
    key: u64,
    axis: int,
)
    requires
        exact(value),
        0 <= c <= chunk_count(keys.len() as int),
    ensures
        value(chunked_sum(points, keys, c, key, axis)) == member_sum(
            value,
            points,
            keys,
            if c * CHUNK_SIZE <= keys.len() {
                c * CHUNK_SIZE
            } else {
                keys.len() as int
            },
            key,
            axis,
        ),
    decreases c,
{
    let n = keys.len() as int;
    if c > 0 {
        lemma_chunks(value, points, keys, c - 1, key, axis);
        let lo = (c - 1) * CHUNK_SIZE;
        let hi = chunk_end(c - 1, n);
        assert((c - 1) * CHUNK_SIZE + CHUNK_SIZE == c * CHUNK_SIZE) by (nonlinear_arith);
        assert((c - 1) * CHUNK_SIZE >= 0) by (nonlinear_arith)
            requires
                c > 0,
        ;
        assert(lo < n);
        lemma_group(value, points, keys, lo, hi, key, axis);
        let before = chunked_sum(points, keys, c - 1, key, axis);
        let more = group_sum(points, keys, lo, hi, key, axis);
        assert(value(plus_of(before, more)) == value(before) + value(more));
    }
}

/// A key that occurs has a point.
proof fn lemma_member(keys: Seq<u64>, n: int, key: u64, i: int)
    requires
        0 <= i < n <= keys.len(),
        keys[i] == key,
    ensures
        member_count(keys, n, key) > 0,
    decreases n,
{
    if i < n - 1 {
        lemma_member(keys, n - 1, key, i);
    } else {
        lemma_member_count_sign(keys, n - 1, key);
    }
}

/// A number of points is not negative.
proof fn lemma_member_count_sign(keys: Seq<u64>, n: int, key: u64)
    ensures
        member_count(keys, n, key) >= 0,
    decreases n,
{
    if n > 0 {
        lemma_member_count_sign(keys, n - 1, key);
    }
}

/// Each row is the mean of the points that share a key, and each key has one row: along every
/// axis the row times the number of its points is the sum of their coordinates.
pub open spec fn lists_means<T: Scalar>(
    value: spec_fn(T) -> real,
    rows: Seq<[T; 3]>,
    cells: Seq<u64>,
    points: Seq<[T; 3]>,
    keys: Seq<u64>,
) -> bool {
    let n = keys.len() as int;
    &&& cells.len() == rows.len()
    &&& cells.no_duplicates()
    &&& forall|i: int| 0 <= i < n ==> cells.contains(#[trigger] keys[i])
    &&& forall|r: int| 0 <= r < cells.len() ==> member_count(keys, n, #[trigger] cells[r]) > 0
    &&& forall|r: int, axis: int|
        0 <= r < rows.len() && 0 <= axis < 3 ==> value(#[trigger] rows[r][axis]) * member_count(
            keys,
            n,
            cells[r],
        ) as real == member_sum(value, points, keys, n, cells[r], axis)
}

/// Downsampling gives the mean of the points of every voxel that holds any.
pub proof fn law_rows_are_means<T: Scalar>(
    value: spec_fn(T) -> real,
    rows: Seq<[T; 3]>,
    points: Seq<[T; 3]>,
    voxel_size: T,
)
    requires
        exact(value),
        points.len() <= usize::MAX,
        is_downsampled(rows, points, voxel_size),
    ensures
        exists|cells: Seq<u64>| #[trigger]
            lists_means(value, rows, cells, points, cell_keys(points, voxel_size)),
{
    let keys = cell_keys(points, voxel_size);
    let n = keys.len() as int;
    let cells = choose|cells: Seq<u64>| #[trigger]
        lists_cells(cells, keys) && cells.len() == rows.len() && (forall|i: int|
            0 <= i < rows.len() ==> #[trigger] rows[i] == voxel_mean(points, keys, cells[i]));
    assert forall|i: int| 0 <= i < n implies cells.contains(#[trigger] keys[i]) by {
        assert(keys.contains(keys[i]));
    }
    assert forall|r: int| 0 <= r < cells.len() implies member_count(keys, n, #[trigger] cells[r])
        > 0 by {
        let key = cells[r];
        assert(cells.contains(key));
        assert(keys.contains(key));
        let i = choose|i: int| 0 <= i < keys.len() && keys[i] == key;
        lemma_member(keys, n, key, i);
    }
    assert forall|r: int, axis: int| 0 <= r < rows.len() && 0 <= axis < 3 implies value(
        #[trigger] rows[r][axis],
    ) * member_count(keys, n, cells[r]) as real == member_sum(
        value,
        points,
        keys,
        n,
        cells[r],
        axis,
    ) by {
        let key = cells[r];
        assert(member_count(keys, n, key) > 0);
        lemma_group(value, points, keys, 0, n, key, axis);
        lemma_chunks(value, points, keys, chunk_count(n), key, axis);
        assert(chunk_count(n) * CHUNK_SIZE >= n);
        let count = count_of::<T>(group_count(keys, 0, n, key) as usize);
        let sum = chunked_sum(points, keys, chunk_count(n), key, axis);
        assert(value(count) == member_count(keys, n, key) as real);
        assert(axis == 0 || axis == 1 || axis == 2);
        assert(rows[r] == voxel_mean(points, keys, key));
        assert(rows[r][axis] == over_of(sum, count));
        lemma_quotient_times(value(sum), value(count));
        assert(value(sum) == member_sum(value, points, keys, n, key, axis));
    }
    assert(lists_means(value, rows, cells, points, keys));
}

} // verus!

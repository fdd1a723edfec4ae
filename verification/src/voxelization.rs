//! Voxel-grid downsampling: the points of each cell are replaced by their mean.
use crate::extremes::smallest_of;
use crate::morton::{morton3d, morton_key};
use crate::scalar::{
    count_of, floor_of, functional, less, minus_of, one_of, over_of, plus_of, times_of, zero_of,
    Scalar,
};
use nohash_hasher::NoHashHasher;
use std::collections::HashMap;
use std::hash::BuildHasherDefault;
use vstd::prelude::*;

verus! {

/// The hasher of the `nohash_hasher` crate that hands an integer back as its hash.
#[verifier::external_type_specification]
#[verifier::external_body]
#[verifier::reject_recursive_types(T)]
pub struct ExNoHashHasher<T>(NoHashHasher<T>);

/// The standard library's builder of hashers by their default value.
#[verifier::external_type_specification]
#[verifier::external_body]
#[verifier::reject_recursive_types(H)]
pub struct ExBuildHasherDefault<H>(BuildHasherDefault<H>);

/// A map from cell keys that uses a key as its own hash.
pub type FastMap<V> = HashMap<u64, V, BuildHasherDefault<NoHashHasher<u64>>>;

/// Calls `HashMap::get` on a map hashed by `nohash_hasher`: the value of a key that
/// the map holds, and `None` for any other.
#[verifier::external_body]
fn map_get<V: Copy>(map: &FastMap<V>, key: u64) -> (r: Option<V>)
    ensures
        r == (if map@.contains_key(key) {
            Some(map@[key])
        } else {
            None
        }),
{
    map.get(&key).copied()
}

/// Calls `HashMap::insert` on a map hashed by `nohash_hasher`: afterwards the key has
/// the value given, and every other key what it had.
#[verifier::external_body]
fn map_insert<V>(map: &mut FastMap<V>, key: u64, value: V)
    ensures
        final(map)@ == old(map)@.insert(key, value),
{
    map.insert(key, value);
}

/// Walks a map hashed by `nohash_hasher` with `HashMap::iter`: every entry comes out
/// once. Nothing is said of the order.
#[verifier::external_body]
fn map_entries<V: Copy>(map: &FastMap<V>) -> (entries: Vec<(u64, V)>)
    ensures
        lists_map(entries@, map@),
{
    map.iter().map(|(key, value)| (*key, *value)).collect()
}

/// `entries` holds every entry of `map` once.
pub open spec fn lists_map<V>(entries: Seq<(u64, V)>, map: Map<u64, V>) -> bool {
    &&& forall|i: int, j: int|
        #![trigger entries[i], entries[j]]
        0 <= i < j < entries.len() ==> entries[i].0 != entries[j].0
    &&& forall|i: int|
        0 <= i < entries.len() ==> map.contains_key((#[trigger] entries[i]).0)
            && map[entries[i].0] == entries[i].1
    &&& forall|key: u64| #[trigger]
        map.contains_key(key) ==> exists|i: int|
            0 <= i < entries.len() && (#[trigger] entries[i]).0 == key
}

/// What is known of a cell: the sums of its points' coordinates and their number.
#[derive(Copy)]
pub struct VoxelStat<T> {
    pub sum: [T; 3],
    pub count: u32,
}

impl<T: Copy> Clone for VoxelStat<T> {
    fn clone(&self) -> (copy: Self)
        ensures
            copy == *self,
    {
        *self
    }
}

/// How many of the keys from `lo` up to but not including `hi` equal `key`.
pub open spec fn group_count(keys: Seq<u64>, lo: int, hi: int, key: u64) -> nat
    decreases hi - lo,
{
    if hi <= lo {
        0
    } else {
        group_count(keys, lo, hi - 1, key) + (if keys[hi - 1] == key {
            1nat
        } else {
            0nat
        })
    }
}

/// No key occurs more often from `lo` up to but not including `hi` than a cell can count.
pub open spec fn counts_fit_in(keys: Seq<u64>, lo: int, hi: int) -> bool {
    forall|key: u64| #[trigger] group_count(keys, lo, hi, key) <= u32::MAX
}

/// The coordinates along `axis` of the points from `lo` up to but not including `hi`
/// whose key is `key`, added to zero in their order.
pub open spec fn group_sum<T: Scalar>(
    points: Seq<[T; 3]>,
    keys: Seq<u64>,
    lo: int,
    hi: int,
    key: u64,
    axis: int,
) -> T
    decreases hi - lo,
{
    if hi <= lo {
        zero_of()
    } else {
        let before = group_sum(points, keys, lo, hi - 1, key, axis);
        if keys[hi - 1] == key {
            plus_of(before, points[hi - 1][axis])
        } else {
            before
        }
    }
}

/// The sums along the three axes.
pub open spec fn group_sums<T: Scalar>(
    points: Seq<[T; 3]>,
    keys: Seq<u64>,
    lo: int,
    hi: int,
    key: u64,
) -> [T; 3] {
    [
        group_sum(points, keys, lo, hi, key, 0),
        group_sum(points, keys, lo, hi, key, 1),
        group_sum(points, keys, lo, hi, key, 2),
    ]
}

/// `map` holds, for each key that occurs from `lo` up to but not including `hi`, the
/// number of its points there.
pub open spec fn counts_groups<T>(
    map: Map<u64, VoxelStat<T>>,
    keys: Seq<u64>,
    lo: int,
    hi: int,
) -> bool {
    forall|key: u64|
        {
            &&& #[trigger] map.contains_key(key) <==> group_count(keys, lo, hi, key) > 0
            &&& map.contains_key(key) ==> map[key].count == group_count(keys, lo, hi, key)
        }
}

/// `map` holds the sums of the points of each of its keys.
pub open spec fn sums_groups<T: Scalar>(
    map: Map<u64, VoxelStat<T>>,
    points: Seq<[T; 3]>,
    keys: Seq<u64>,
    lo: int,
    hi: int,
) -> bool {
    forall|key: u64| #[trigger]
        map.contains_key(key) ==> map[key].sum == group_sums(points, keys, lo, hi, key)
}

/// No group has more members than there are positions.
proof fn lemma_group_count_bound(keys: Seq<u64>, lo: int, hi: int, key: u64)
    requires
        lo <= hi,
    ensures
        group_count(keys, lo, hi, key) <= hi - lo,
    decreases hi - lo,
{
    if lo < hi {
        lemma_group_count_bound(keys, lo, hi - 1, key);
    }
}

/// A key that is counted nowhere adds up to zero.
pub(crate) proof fn lemma_group_sum_empty<T: Scalar>(
    points: Seq<[T; 3]>,
    keys: Seq<u64>,
    lo: int,
    hi: int,
    key: u64,
    axis: int,
)
    requires
        group_count(keys, lo, hi, key) == 0,
    ensures
        group_sum(points, keys, lo, hi, key, axis) == zero_of::<T>(),
    decreases hi - lo,
{
    if lo < hi {
        lemma_group_sum_empty(points, keys, lo, hi - 1, key, axis);
    }
}

/// Whether every cell can count its points.
pub fn counts_fit(keys: &Vec<u64>) -> (r: bool)
    ensures
        r <==> counts_fit_in(keys@, 0, keys@.len() as int),
{
    let mut counts: FastMap<u32> = FastMap::default();
    let mut i: usize = 0;
    while i < keys.len()
        invariant
            i <= keys@.len(),
            forall|key: u64|
                group_count(keys@, 0, i as int, key) == (if #[trigger] counts@.contains_key(key) {
                    counts@[key] as nat
                } else {
                    0
                }),
        decreases keys@.len() - i,
    {
        let key: u64 = keys[i];
        let count: u32 = match map_get(&counts, key) {
            Some(count) => count,
            None => 0,
        };
        let ghost before = counts@;
        if count == u32::MAX {
            proof {
                lemma_group_count_splits(keys@, 0, i + 1, keys@.len() as int, key);
                assert(group_count(keys@, 0, keys@.len() as int, key) > u32::MAX);
            }
            return false;
        }
        map_insert(&mut counts, key, count + 1);
        assert forall|other: u64|
            group_count(keys@, 0, i + 1, other) == (if #[trigger] counts@.contains_key(other) {
                counts@[other] as nat
            } else {
                0
            }) by {
            assert(group_count(keys@, 0, i as int, other) == (if before.contains_key(other) {
                before[other] as nat
            } else {
                0
            }));
        }
        i += 1;
    }
    assert forall|key: u64| #[trigger]
        group_count(keys@, 0, keys@.len() as int, key) <= u32::MAX by {
        assert(group_count(keys@, 0, i as int, key) == (if counts@.contains_key(key) {
            counts@[key] as nat
        } else {
            0
        }));
    }
    true
}

/// Collects the points from `lo` up to but not including `hi` by their keys.
pub fn accumulate<T: Scalar>(
    points: &Vec<[T; 3]>,
    keys: &Vec<u64>,
    lo: usize,
    hi: usize,
) -> (map: FastMap<VoxelStat<T>>)
    requires
        lo <= hi <= points@.len(),
        points@.len() == keys@.len(),
        counts_fit_in(keys@, lo as int, hi as int),
    ensures
        counts_groups(map@, keys@, lo as int, hi as int),
        functional::<T>() ==> sums_groups(map@, points@, keys@, lo as int, hi as int),
{
    let mut map: FastMap<VoxelStat<T>> = FastMap::default();
    let mut i: usize = lo;
    while i < hi
        invariant
            lo <= i <= hi <= points@.len(),
            points@.len() == keys@.len(),
            counts_fit_in(keys@, lo as int, hi as int),
            counts_groups(map@, keys@, lo as int, i as int),
            functional::<T>() ==> sums_groups(map@, points@, keys@, lo as int, i as int),
        decreases hi - i,
    {
        let key: u64 = keys[i];
        let point: [T; 3] = points[i];
        let zero: T = T::ratio(0, 1);
        let stat: VoxelStat<T> = match map_get(&map, key) {
            Some(stat) => stat,
            None => VoxelStat { sum: [zero, zero, zero], count: 0 },
        };
        let ghost before = map@;
        proof {
            lemma_group_count_splits(keys@, lo as int, i + 1, hi as int, key);
            assert(group_count(keys@, lo as int, hi as int, key) <= u32::MAX);
            assert(before.contains_key(key) <==> group_count(keys@, lo as int, i as int, key) > 0);
            if functional::<T>() && !before.contains_key(key) {
                lemma_group_sum_empty(points@, keys@, lo as int, i as int, key, 0);
                lemma_group_sum_empty(points@, keys@, lo as int, i as int, key, 1);
                lemma_group_sum_empty(points@, keys@, lo as int, i as int, key, 2);
                assert(stat.sum == group_sums(points@, keys@, lo as int, i as int, key));
            }
        }
        let sum: [T; 3] = [
            stat.sum[0].plus(point[0]),
            stat.sum[1].plus(point[1]),
            stat.sum[2].plus(point[2]),
        ];
        map_insert(&mut map, key, VoxelStat { sum, count: stat.count + 1 });
        proof {
            assert forall|other: u64|
                {
                    &&& #[trigger] map@.contains_key(other) <==> group_count(
                        keys@,
                        lo as int,
                        i + 1,
                        other,
                    ) > 0
                    &&& map@.contains_key(other) ==> map@[other].count == group_count(
                        keys@,
                        lo as int,
                        i + 1,
                        other,
                    )
                } by {
                assert(before.contains_key(other) <==> group_count(
                    keys@,
                    lo as int,
                    i as int,
                    other,
                ) > 0);
            }
            if functional::<T>() {
                assert forall|other: u64| #[trigger] map@.contains_key(other) implies map@[other].sum
                    == group_sums(points@, keys@, lo as int, i + 1, other) by {
                    assert(other != key ==> before.contains_key(other));
                    if other == key {
                        assert(sum == group_sums(points@, keys@, lo as int, i + 1, key));
                    } else {
                        assert(group_sums(points@, keys@, lo as int, i + 1, other) == group_sums(
                            points@,
                            keys@,
                            lo as int,
                            i as int,
                            other,
                        ));
                    }
                }
            }
        }
        i += 1;
    }
    map
}

/// Whether one of the first `n` maps holds `key`.
pub open spec fn held_by_parts<T>(parts: Seq<FastMap<VoxelStat<T>>>, n: int, key: u64) -> bool
    decreases n,
{
    n > 0 && (held_by_parts(parts, n - 1, key) || parts[n - 1]@.contains_key(key))
}

/// The number of points that the first `n` maps count under `key`.
pub open spec fn merged_count<T>(parts: Seq<FastMap<VoxelStat<T>>>, n: int, key: u64) -> nat
    decreases n,
{
    if n <= 0 {
        0
    } else {
        merged_count(parts, n - 1, key) + (if parts[n - 1]@.contains_key(key) {
            parts[n - 1]@[key].count as nat
        } else {
            0
        })
    }
}

/// The sums along `axis` that the first `n` maps hold for `key`, added to zero in
/// their order.
pub open spec fn merged_sum<T: Scalar>(
    parts: Seq<FastMap<VoxelStat<T>>>,
    n: int,
    key: u64,
    axis: int,
) -> T
    decreases n,
{
    if n <= 0 {
        zero_of()
    } else {
        let before = merged_sum(parts, n - 1, key, axis);
        if parts[n - 1]@.contains_key(key) {
            plus_of(before, parts[n - 1]@[key].sum[axis])
        } else {
            before
        }
    }
}

/// The sums along the three axes.
pub open spec fn merged_sums<T: Scalar>(
    parts: Seq<FastMap<VoxelStat<T>>>,
    n: int,
    key: u64,
) -> [T; 3] {
    [merged_sum(parts, n, key, 0), merged_sum(parts, n, key, 1), merged_sum(parts, n, key, 2)]
}

/// What a map says of a key, where it holds it, and of no points otherwise.
pub open spec fn stat_or_empty<T: Scalar>(map: Map<u64, VoxelStat<T>>, key: u64) -> VoxelStat<T> {
    if map.contains_key(key) {
        map[key]
    } else {
        VoxelStat { sum: [zero_of(), zero_of(), zero_of()], count: 0 }
    }
}

/// Two records of one cell taken together.
pub open spec fn joined_sum<T: Scalar>(a: VoxelStat<T>, b: VoxelStat<T>) -> [T; 3] {
    [plus_of(a.sum[0], b.sum[0]), plus_of(a.sum[1], b.sum[1]), plus_of(a.sum[2], b.sum[2])]
}

/// Adds what `part` holds to `global`.
fn absorb<T: Scalar>(global: &mut FastMap<VoxelStat<T>>, part: &FastMap<VoxelStat<T>>)
    requires
        forall|key: u64|
            old(global)@.contains_key(key) && part@.contains_key(key) ==> (#[trigger] old(
                global,
            )@[key]).count + part@[key].count <= u32::MAX,
    ensures
        forall|key: u64| #[trigger]
            final(global)@.contains_key(key) <==> old(global)@.contains_key(key)
                || part@.contains_key(key),
        forall|key: u64| #[trigger]
            final(global)@.contains_key(key) && !part@.contains_key(key) ==> final(global)@[key]
                == old(global)@[key],
        forall|key: u64| #[trigger]
            final(global)@.contains_key(key) && part@.contains_key(key) ==> {
                &&& final(global)@[key].count == part@[key].count + (if old(
                    global,
                )@.contains_key(key) {
                    old(global)@[key].count as int
                } else {
                    0
                })
                &&& functional::<T>() ==> final(global)@[key].sum == joined_sum(
                    stat_or_empty(old(global)@, key),
                    part@[key],
                )
            },
{
    let entries: Vec<(u64, VoxelStat<T>)> = map_entries(part);
    let ghost before = global@;
    let mut i: usize = 0;
    while i < entries.len()
        invariant
            i <= entries@.len(),
            lists_map(entries@, part@),
            before == old(global)@,
            forall|key: u64|
                before.contains_key(key) && part@.contains_key(key) ==> (
                #[trigger] before[key]).count + part@[key].count <= u32::MAX,
            forall|key: u64| #[trigger]
                global@.contains_key(key) <==> before.contains_key(key) || exists|j: int|
                    0 <= j < i && (#[trigger] entries@[j]).0 == key,
            forall|key: u64| #[trigger]
                global@.contains_key(key) && !(exists|j: int|
                    0 <= j < i && (#[trigger] entries@[j]).0 == key) ==> global@[key]
                    == before[key],
            forall|j: int|
                0 <= j < i ==> {
                    let key = (#[trigger] entries@[j]).0;
                    &&& global@[key].count == part@[key].count + (if before.contains_key(key) {
                        before[key].count as int
                    } else {
                        0
                    })
                    &&& functional::<T>() ==> global@[key].sum == joined_sum(
                        stat_or_empty(before, key),
                        part@[key],
                    )
                },
        decreases entries@.len() - i,
    {
        let (key, stat): (u64, VoxelStat<T>) = entries[i];
        let zero: T = T::ratio(0, 1);
        let known: VoxelStat<T> = match map_get(global, key) {
            Some(known) => known,
            None => VoxelStat { sum: [zero, zero, zero], count: 0 },
        };
        let ghost middle = global@;
        proof {
            assert(entries@[i as int].0 == key);
            assert(!(exists|j: int| 0 <= j < i && (#[trigger] entries@[j]).0 == key));
            assert(middle.contains_key(key) <==> before.contains_key(key));
            assert(part@.contains_key(key) && part@[key] == stat);
        }
        let sum: [T; 3] = [
            known.sum[0].plus(stat.sum[0]),
            known.sum[1].plus(stat.sum[1]),
            known.sum[2].plus(stat.sum[2]),
        ];
        map_insert(global, key, VoxelStat { sum, count: known.count + stat.count });
        proof {
            if functional::<T>() {
                assert(known.sum == stat_or_empty(before, key).sum);
                assert(sum == joined_sum(stat_or_empty(before, key), stat));
            }
            assert forall|other: u64| #[trigger] global@.contains_key(other) <==> (
            before.contains_key(other) || exists|j: int|
                0 <= j < i + 1 && (#[trigger] entries@[j]).0 == other) by {
                assert(middle.contains_key(other) <==> before.contains_key(other) || exists|j: int|
                    0 <= j < i && (#[trigger] entries@[j]).0 == other);
                if other == key {
                    assert(entries@[i as int].0 == other);
                }
            }
            assert forall|other: u64| #[trigger]
                global@.contains_key(other) && !(exists|j: int|
                    0 <= j < i + 1 && (#[trigger] entries@[j]).0 == other) implies global@[other]
                == before[other] by {
                assert(entries@[i as int].0 == key);
                assert(other != key);
                assert(middle.contains_key(other));
            }
        }
        i += 1;
    }
    proof {
        assert forall|key: u64| part@.contains_key(key) implies exists|j: int|
            0 <= j < i && (#[trigger] entries@[j]).0 == key by {}
    }
}

/// Joins the maps in their order.
pub fn merge_stats<T: Scalar>(parts: &Vec<FastMap<VoxelStat<T>>>) -> (global: FastMap<
    VoxelStat<T>,
>)
    requires
        forall|key: u64| #[trigger] merged_count(parts@, parts@.len() as int, key) <= u32::MAX,
    ensures
        forall|key: u64| #[trigger]
            global@.contains_key(key) <==> held_by_parts(parts@, parts@.len() as int, key),
        forall|key: u64| #[trigger]
            global@.contains_key(key) ==> {
                &&& global@[key].count == merged_count(parts@, parts@.len() as int, key)
                &&& functional::<T>() ==> global@[key].sum == merged_sums(
                    parts@,
                    parts@.len() as int,
                    key,
                )
            },
{
    let mut global: FastMap<VoxelStat<T>> = FastMap::default();
    let mut i: usize = 0;
    while i < parts.len()
        invariant
            i <= parts@.len(),
            forall|key: u64| #[trigger] merged_count(parts@, parts@.len() as int, key) <= u32::MAX,
            forall|key: u64| #[trigger]
                global@.contains_key(key) <==> held_by_parts(parts@, i as int, key),
            forall|key: u64| #[trigger]
                global@.contains_key(key) ==> {
                    &&& global@[key].count == merged_count(parts@, i as int, key)
                    &&& functional::<T>() ==> global@[key].sum == merged_sums(
                        parts@,
                        i as int,
                        key,
                    )
                },
        decreases parts@.len() - i,
    {
        let ghost before = global@;
        proof {
            assert forall|key: u64|
                before.contains_key(key) && parts@[i as int]@.contains_key(key) implies (
            #[trigger] before[key]).count + parts@[i as int]@[key].count <= u32::MAX by {
                lemma_merged_count_grows(parts@, i + 1, parts@.len() as int, key);
                assert(merged_count(parts@, parts@.len() as int, key) <= u32::MAX);
            }
        }
        absorb(&mut global, &parts[i]);
        proof {
            assert forall|key: u64| #[trigger] global@.contains_key(key) <==> held_by_parts(
                parts@,
                i + 1,
                key,
            ) by {
                assert(before.contains_key(key) <==> held_by_parts(parts@, i as int, key));
            }
            assert forall|key: u64| #[trigger] global@.contains_key(key) implies {
                &&& global@[key].count == merged_count(parts@, i + 1, key)
                &&& functional::<T>() ==> global@[key].sum == merged_sums(parts@, i + 1, key)
            } by {
                assert(before.contains_key(key) <==> held_by_parts(parts@, i as int, key));
                if !before.contains_key(key) {
                    lemma_merged_empty(parts@, i as int, key);
                }
                if functional::<T>() {
                    assert(stat_or_empty(before, key).sum == merged_sums(parts@, i as int, key));
                    assert(merged_sums(parts@, i + 1, key) == if parts@[i as int]@.contains_key(
                        key,
                    ) {
                        joined_sum(stat_or_empty(before, key), parts@[i as int]@[key])
                    } else {
                        merged_sums(parts@, i as int, key)
                    });
                }
            }
        }
        i += 1;
    }
    global
}

/// Counts of more maps are no smaller.
proof fn lemma_merged_count_grows<T>(
    parts: Seq<FastMap<VoxelStat<T>>>,
    m: int,
    n: int,
    key: u64,
)
    requires
        m <= n,
    ensures
        merged_count(parts, m, key) <= merged_count(parts, n, key),
    decreases n - m,
{
    if m < n {
        lemma_merged_count_grows(parts, m, n - 1, key);
    }
}

/// A key that no map holds counts nothing and adds up to zero.
proof fn lemma_merged_empty<T: Scalar>(parts: Seq<FastMap<VoxelStat<T>>>, n: int, key: u64)
    requires
        !held_by_parts(parts, n, key),
    ensures
        merged_count(parts, n, key) == 0,
        merged_sum(parts, n, key, 0) == zero_of::<T>(),
        merged_sum(parts, n, key, 1) == zero_of::<T>(),
        merged_sum(parts, n, key, 2) == zero_of::<T>(),
    decreases n,
{
    if n > 0 {
        lemma_merged_empty(parts, n - 1, key);
    }
}

/// The coordinates of the points along `axis`.
pub open spec fn column<T>(points: Seq<[T; 3]>, axis: int) -> Seq<T> {
    points.map_values(|p: [T; 3]| p[axis])
}

/// The corner of the points' bounding box with the smallest coordinates; a coordinate is
/// positive infinity where no point has a smaller one.
pub open spec fn lower_corner_of<T: Scalar>(points: Seq<[T; 3]>) -> [T; 3] {
    [
        smallest_of(column(points, 0), points.len() as int),
        smallest_of(column(points, 1), points.len() as int),
        smallest_of(column(points, 2), points.len() as int),
    ]
}

/// Finds the smallest coordinate along each axis.
pub fn lower_corner<T: Scalar>(points: &Vec<[T; 3]>) -> (corner: [T; 3])
    ensures
        functional::<T>() ==> corner == lower_corner_of(points@),
{
    let mut x: T = T::infinity();
    let mut y: T = T::infinity();
    let mut z: T = T::infinity();
    let mut i: usize = 0;
    while i < points.len()
        invariant
            i <= points@.len(),
            functional::<T>() ==> {
                &&& x == smallest_of(column(points@, 0), i as int)
                &&& y == smallest_of(column(points@, 1), i as int)
                &&& z == smallest_of(column(points@, 2), i as int)
            },
        decreases points@.len() - i,
    {
        let point: [T; 3] = points[i];
        if less(point[0], x) {
            x = point[0];
        }
        if less(point[1], y) {
            y = point[1];
        }
        if less(point[2], z) {
            z = point[2];
        }
        i += 1;
    }
    [x, y, z]
}

/// The index along `axis` of the cell that a point lies in, for cells of inverse size
/// `inverse` counted from `corner`.
pub open spec fn cell_index<T: Scalar>(
    point: [T; 3],
    corner: [T; 3],
    inverse: T,
    axis: int,
) -> u32 {
    floor_of(times_of(minus_of(point[axis], corner[axis]), inverse))
}

/// The key of the cell that a point lies in.
pub open spec fn cell_key<T: Scalar>(point: [T; 3], corner: [T; 3], inverse: T) -> u64 {
    morton_key(
        cell_index(point, corner, inverse, 0),
        cell_index(point, corner, inverse, 1),
        cell_index(point, corner, inverse, 2),
    ) as u64
}

/// The keys of the points' cells, for cells of edge length `voxel_size` counted from
/// the points' lower corner.
pub open spec fn cell_keys<T: Scalar>(points: Seq<[T; 3]>, voxel_size: T) -> Seq<u64> {
    Seq::new(
        points.len(),
        |i: int|
            cell_key(points[i], lower_corner_of(points), over_of(one_of(), voxel_size)),
    )
}

/// Finds the cell of each point.
pub fn voxel_keys<T: Scalar>(points: &Vec<[T; 3]>, voxel_size: T) -> (keys: Vec<u64>)
    ensures
        keys@.len() == points@.len(),
        functional::<T>() ==> keys@ == cell_keys(points@, voxel_size),
{
    let corner: [T; 3] = lower_corner(points);
    let one: T = T::ratio(1, 1);
    let inverse: T = one.over(voxel_size);
    let mut keys: Vec<u64> = Vec::new();
    let mut i: usize = 0;
    while i < points.len()
        invariant
            i <= points@.len(),
            keys@.len() == i,
            functional::<T>() ==> forall|j: int|
                0 <= j < i ==> keys@[j] == cell_key(#[trigger] points@[j], corner, inverse),
        decreases points@.len() - i,
    {
        let point: [T; 3] = points[i];
        let ix: u32 = point[0].minus(corner[0]).times(inverse).floor_index();
        let iy: u32 = point[1].minus(corner[1]).times(inverse).floor_index();
        let iz: u32 = point[2].minus(corner[2]).times(inverse).floor_index();
        let key: u64 = morton3d(ix, iy, iz);
        keys.push(key);
        i += 1;
    }
    keys
}

/// The number of points that are collected together before they are joined with the
/// others.
pub const CHUNK_SIZE: usize = 10_000;

/// Where chunk `c` of `n` points ends: the next multiple of the chunk size, or the
/// end of the points.
pub open spec fn chunk_end(c: int, n: int) -> int {
    if (c + 1) * CHUNK_SIZE <= n {
        (c + 1) * CHUNK_SIZE
    } else {
        n
    }
}

/// `bounds` cuts `n` points into consecutive chunks of the chunk size, the last one
/// with what is left.
pub open spec fn cuts_chunks(bounds: Seq<(usize, usize)>, n: int) -> bool {
    &&& (bounds.len() - 1) * CHUNK_SIZE < n <= bounds.len() * CHUNK_SIZE
    &&& forall|c: int|
        0 <= c < bounds.len() ==> {
            &&& (#[trigger] bounds[c]).0 == c * CHUNK_SIZE
            &&& bounds[c].1 == chunk_end(c, n)
        }
}

/// Cuts `n` points into chunks: pairs of a start and an end.
pub fn chunk_bounds(n: usize) -> (bounds: Vec<(usize, usize)>)
    ensures
        cuts_chunks(bounds@, n as int),
{
    let mut bounds: Vec<(usize, usize)> = Vec::new();
    let mut lo: usize = 0;
    while lo < n
        invariant
            lo <= n,
            lo == bounds@.len() * CHUNK_SIZE || (lo == n && (bounds@.len() - 1) * CHUNK_SIZE < n
                <= bounds@.len() * CHUNK_SIZE),
            lo == 0 ==> bounds@.len() == 0,
            lo > 0 ==> (bounds@.len() - 1) * CHUNK_SIZE < lo,
            forall|c: int|
                0 <= c < bounds@.len() ==> {
                    &&& (#[trigger] bounds@[c]).0 == c * CHUNK_SIZE
                    &&& bounds@[c].1 == chunk_end(c, n as int)
                },
        decreases n - lo,
    {
        let hi: usize = if n - lo > CHUNK_SIZE {
            lo + CHUNK_SIZE
        } else {
            n
        };
        bounds.push((lo, hi));
        lo = hi;
    }
    bounds
}

/// The mean of a cell's points: their sums over their number.
pub open spec fn mean_of<T: Scalar>(stat: VoxelStat<T>) -> [T; 3] {
    [
        over_of(stat.sum[0], count_of(stat.count as usize)),
        over_of(stat.sum[1], count_of(stat.count as usize)),
        over_of(stat.sum[2], count_of(stat.count as usize)),
    ]
}

/// The means of all cells, in the order in which the map is walked.
pub fn voxel_means<T: Scalar>(map: &FastMap<VoxelStat<T>>) -> (rows: Vec<[T; 3]>)
    ensures
        exists|entries: Seq<(u64, VoxelStat<T>)>| #[trigger]
            lists_map(entries, map@) && entries.len() == rows@.len() && (functional::<T>() ==> (
            forall|i: int| 0 <= i < rows@.len() ==> #[trigger] rows@[i] == mean_of(entries[i].1))),
{
    let entries: Vec<(u64, VoxelStat<T>)> = map_entries(map);
    let mut rows: Vec<[T; 3]> = Vec::new();
    let mut i: usize = 0;
    while i < entries.len()
        invariant
            i <= entries@.len(),
            rows@.len() == i,
            functional::<T>() ==> forall|j: int|
                0 <= j < i ==> #[trigger] rows@[j] == mean_of(entries@[j].1),
        decreases entries@.len() - i,
    {
        let stat: VoxelStat<T> = entries[i].1;
        let count: T = T::from_count(stat.count as usize);
        let row: [T; 3] = [
            stat.sum[0].over(count),
            stat.sum[1].over(count),
            stat.sum[2].over(count),
        ];
        assert(functional::<T>() ==> row == mean_of(stat));
        rows.push(row);
        i += 1;
    }
    assert(lists_map(entries@, map@));
    rows
}

/// The sum along `axis` of the points of one cell: each of the first `c` chunks is
/// added up on its own, and the sums of those chunks that hold points of the cell are
/// added to zero in their order.
pub open spec fn chunked_sum<T: Scalar>(
    points: Seq<[T; 3]>,
    keys: Seq<u64>,
    c: int,
    key: u64,
    axis: int,
) -> T
    decreases c,
{
    if c <= 0 {
        zero_of()
    } else {
        let before = chunked_sum(points, keys, c - 1, key, axis);
        let lo = (c - 1) * CHUNK_SIZE;
        let hi = chunk_end(c - 1, keys.len() as int);
        if group_count(keys, lo, hi, key) > 0 {
            plus_of(before, group_sum(points, keys, lo, hi, key, axis))
        } else {
            before
        }
    }
}

/// The number of chunks that `n` points are cut into.
pub open spec fn chunk_count(n: int) -> int {
    (n + CHUNK_SIZE - 1) / CHUNK_SIZE as int
}

/// The mean of the points of one cell.
pub open spec fn voxel_mean<T: Scalar>(points: Seq<[T; 3]>, keys: Seq<u64>, key: u64) -> [T; 3] {
    let n = keys.len() as int;
    let count = count_of::<T>(group_count(keys, 0, n, key) as usize);
    [
        over_of(chunked_sum(points, keys, chunk_count(n), key, 0), count),
        over_of(chunked_sum(points, keys, chunk_count(n), key, 1), count),
        over_of(chunked_sum(points, keys, chunk_count(n), key, 2), count),
    ]
}

/// `cells` holds every key that occurs in `keys` once.
pub open spec fn lists_cells(cells: Seq<u64>, keys: Seq<u64>) -> bool {
    &&& cells.no_duplicates()
    &&& forall|key: u64| #[trigger] cells.contains(key) <==> keys.contains(key)
}

/// Counts over neighbouring ranges add up.
proof fn lemma_group_count_splits(keys: Seq<u64>, lo: int, mid: int, hi: int, key: u64)
    requires
        lo <= mid <= hi,
    ensures
        group_count(keys, lo, hi, key) == group_count(keys, lo, mid, key) + group_count(
            keys,
            mid,
            hi,
            key,
        ),
    decreases hi - mid,
{
    if mid < hi {
        lemma_group_count_splits(keys, lo, mid, hi - 1, key);
    }
}

/// A key is counted exactly where it occurs.
proof fn lemma_group_count_positive(keys: Seq<u64>, n: int, key: u64)
    requires
        0 <= n <= keys.len(),
    ensures
        group_count(keys, 0, n, key) > 0 <==> exists|i: int| 0 <= i < n && keys[i] == key,
    decreases n,
{
    if n > 0 {
        lemma_group_count_positive(keys, n - 1, key);
        if keys[n - 1] != key && exists|i: int| 0 <= i < n && keys[i] == key {
            let i = choose|i: int| 0 <= i < n && keys[i] == key;
            assert(0 <= i < n - 1 && keys[i] == key);
        }
    }
}

/// `parts` are the maps of consecutive chunks, from the first one on.
pub open spec fn collects_chunks<T: Scalar>(
    parts: Seq<FastMap<VoxelStat<T>>>,
    keys: Seq<u64>,
) -> bool {
    forall|c: int|
        0 <= c < parts.len() ==> counts_groups(
            (#[trigger] parts[c])@,
            keys,
            c * CHUNK_SIZE,
            chunk_end(c, keys.len() as int),
        )
}

/// Joining the maps of the first `c` chunks counts the points up to their end.
proof fn lemma_chunks_count<T: Scalar>(
    parts: Seq<FastMap<VoxelStat<T>>>,
    keys: Seq<u64>,
    c: int,
    key: u64,
)
    requires
        collects_chunks(parts, keys),
        0 <= c <= parts.len(),
        c > 0 ==> (c - 1) * CHUNK_SIZE < keys.len(),
    ensures
        merged_count(parts, c, key) == group_count(
            keys,
            0,
            chunk_end(c - 1, keys.len() as int),
            key,
        ),
        held_by_parts(parts, c, key) <==> merged_count(parts, c, key) > 0,
    decreases c,
{
    if c > 0 {
        lemma_chunks_count(parts, keys, c - 1, key);
        let (lo, hi) = ((c - 1) * CHUNK_SIZE, chunk_end(c - 1, keys.len() as int));
        lemma_group_count_splits(keys, 0, lo, hi, key);
        assert(parts[c - 1]@.contains_key(key) <==> group_count(keys, lo, hi, key) > 0);
    }
}

/// Joining the maps of the first `c` chunks adds their sums.
proof fn lemma_chunks_sum<T: Scalar>(
    parts: Seq<FastMap<VoxelStat<T>>>,
    points: Seq<[T; 3]>,
    keys: Seq<u64>,
    c: int,
    key: u64,
    axis: int,
)
    requires
        collects_chunks(parts, keys),
        sums_chunks(parts, points, keys),
        0 <= c <= parts.len(),
        0 <= axis < 3,
    ensures
        merged_sum(parts, c, key, axis) == chunked_sum(points, keys, c, key, axis),
    decreases c,
{
    if c > 0 {
        lemma_chunks_sum(parts, points, keys, c - 1, key, axis);
        assert(parts[c - 1]@.contains_key(key) <==> group_count(
            keys,
            (c - 1) * CHUNK_SIZE,
            chunk_end(c - 1, keys.len() as int),
            key,
        ) > 0);
    }
}

/// `parts` hold the sums of the points of consecutive chunks, from the first one on.
pub open spec fn sums_chunks<T: Scalar>(
    parts: Seq<FastMap<VoxelStat<T>>>,
    points: Seq<[T; 3]>,
    keys: Seq<u64>,
) -> bool {
    forall|c: int|
        0 <= c < parts.len() ==> sums_groups(
            (#[trigger] parts[c])@,
            points,
            keys,
            c * CHUNK_SIZE,
            chunk_end(c, keys.len() as int),
        )
}

/// Collects the points of each chunk by their keys.
pub fn collect_chunks<T: Scalar>(
    points: &Vec<[T; 3]>,
    keys: &Vec<u64>,
    bounds: &Vec<(usize, usize)>,
) -> (parts: Vec<FastMap<VoxelStat<T>>>)
    requires
        points@.len() == keys@.len(),
        cuts_chunks(bounds@, points@.len() as int),
    ensures
        parts@.len() == bounds@.len(),
        collects_chunks(parts@, keys@),
        functional::<T>() ==> sums_chunks(parts@, points@, keys@),
{
    let mut parts: Vec<FastMap<VoxelStat<T>>> = Vec::new();
    let mut c: usize = 0;
    while c < bounds.len()
        invariant
            c <= bounds@.len(),
            parts@.len() == c,
            cuts_chunks(bounds@, points@.len() as int),
            keys@.len() == points@.len(),
            collects_chunks(parts@, keys@),
            functional::<T>() ==> sums_chunks(parts@, points@, keys@),
        decreases bounds@.len() - c,
    {
        let (lo, hi): (usize, usize) = bounds[c];
        proof {
            assert(bounds@[c as int].0 == c * CHUNK_SIZE);
            assert forall|key: u64| #[trigger]
                group_count(keys@, lo as int, hi as int, key) <= u32::MAX by {
                lemma_group_count_bound(keys@, lo as int, hi as int, key);
            }
        }
        let part: FastMap<VoxelStat<T>> = accumulate(points, keys, lo, hi);
        parts.push(part);
        c += 1;
    }
    parts
}

/// `collect` can be called on any points, their keys and the bounds of their chunks, and
/// gives what [`collect_chunks`] gives.
pub open spec fn collects<
    T: Scalar,
    F: Fn(&Vec<[T; 3]>, &Vec<u64>, &Vec<(usize, usize)>) -> Vec<FastMap<VoxelStat<T>>>,
>(collect: F) -> bool {
    &&& forall|points: &Vec<[T; 3]>, keys: &Vec<u64>, bounds: &Vec<(usize, usize)>|
        points@.len() == keys@.len() && cuts_chunks(bounds@, points@.len() as int)
            ==> #[trigger] call_requires(collect, (points, keys, bounds))
    &&& forall|
        points: &Vec<[T; 3]>,
        keys: &Vec<u64>,
        bounds: &Vec<(usize, usize)>,
        parts: Vec<FastMap<VoxelStat<T>>>,
    |
        points@.len() == keys@.len() && cuts_chunks(bounds@, points@.len() as int)
            && #[trigger] call_ensures(collect, (points, keys, bounds), parts) ==> {
            &&& parts@.len() == bounds@.len()
            &&& collects_chunks(parts@, keys@)
            &&& functional::<T>() ==> sums_chunks(parts@, points@, keys@)
        }
}

/// Every cell can count its points: there are few enough points, or few enough in each
/// cell.
pub open spec fn can_count<T: Scalar>(points: Seq<[T; 3]>, voxel_size: T) -> bool {
    points.len() <= u32::MAX || (functional::<T>() && counts_fit_in(
        cell_keys(points, voxel_size),
        0,
        points.len() as int,
    ))
}

/// `rows` holds the mean of each cell that holds points, once.
pub open spec fn is_downsampled<T: Scalar>(
    rows: Seq<[T; 3]>,
    points: Seq<[T; 3]>,
    voxel_size: T,
) -> bool {
    exists|cells: Seq<u64>| #[trigger]
        lists_cells(cells, cell_keys(points, voxel_size)) && cells.len() == rows.len() && (forall|
            i: int,
        |
            0 <= i < rows.len() ==> #[trigger] rows[i] == voxel_mean(
                points,
                cell_keys(points, voxel_size),
                cells[i],
            ))
}

/// Replaces the points of each cell of edge length `voxel_size` by their mean, with the
/// chunks collected by `collect`. The means come in no particular order.
pub fn voxel_downsample_by<
    T: Scalar,
    F: Fn(&Vec<[T; 3]>, &Vec<u64>, &Vec<(usize, usize)>) -> Vec<FastMap<VoxelStat<T>>>,
>(points: &Vec<[T; 3]>, voxel_size: T, collect: F) -> (rows: Vec<[T; 3]>)
    requires
        can_count(points@, voxel_size),
        collects(collect),
    ensures
        rows@.len() <= points@.len(),
        rows@.len() == 0 <==> points@.len() == 0,
        functional::<T>() ==> is_downsampled(rows@, points@, voxel_size),
{
    let keys: Vec<u64> = voxel_keys(points, voxel_size);
    let bounds: Vec<(usize, usize)> = chunk_bounds(points.len());
    let parts: Vec<FastMap<VoxelStat<T>>> = collect(points, &keys, &bounds);
    let ghost n = keys@.len() as int;
    proof {
        assert(call_ensures(collect, (points, &keys, &bounds), parts));
        assert(chunk_count(n) == parts@.len());
        assert forall|key: u64| #[trigger] merged_count(parts@, parts@.len() as int, key)
            == group_count(keys@, 0, n, key) by {
            lemma_chunks_count(parts@, keys@, parts@.len() as int, key);
        }
        assert forall|key: u64| #[trigger]
            merged_count(parts@, parts@.len() as int, key) <= u32::MAX by {
            lemma_group_count_bound(keys@, 0, n, key);
            assert(points@.len() <= u32::MAX || group_count(keys@, 0, n, key) <= u32::MAX);
        }
    }
    let global: FastMap<VoxelStat<T>> = merge_stats(&parts);
    let rows: Vec<[T; 3]> = voxel_means(&global);
    proof {
        let entries = choose|entries: Seq<(u64, VoxelStat<T>)>| #[trigger]
            lists_map(entries, global@) && entries.len() == rows@.len() && (functional::<T>() ==> (
            forall|i: int| 0 <= i < rows@.len() ==> #[trigger] rows@[i] == mean_of(entries[i].1)));
        let cells = entries.map_values(|e: (u64, VoxelStat<T>)| e.0);
        assert forall|key: u64| #[trigger] cells.contains(key) <==> keys@.contains(key) by {
            lemma_chunks_count(parts@, keys@, parts@.len() as int, key);
            lemma_group_count_positive(keys@, n, key);
            assert(global@.contains_key(key) <==> held_by_parts(
                parts@,
                parts@.len() as int,
                key,
            ));
            assert(merged_count(parts@, parts@.len() as int, key) == group_count(
                keys@,
                0,
                n,
                key,
            ));
            if cells.contains(key) {
                let i = choose|i: int| 0 <= i < cells.len() && cells[i] == key;
                assert(global@.contains_key(entries[i].0));
            }
            if keys@.contains(key) {
                assert(global@.contains_key(key));
                let i = choose|i: int| 0 <= i < entries.len() && (#[trigger] entries[i]).0 == key;
                assert(cells[i] == key);
            }
        }
        assert(cells.no_duplicates());
        law_downsampling_shrinks(keys@, cells);
        if n > 0 {
            assert(keys@.contains(keys@[0]));
            assert(cells.contains(keys@[0]));
        }
        if functional::<T>() {
            assert forall|i: int| 0 <= i < rows@.len() implies #[trigger] rows@[i] == voxel_mean(
                points@,
                keys@,
                cells[i],
            ) by {
                let key = cells[i];
                assert(global@.contains_key(entries[i].0));
                lemma_chunks_sum(parts@, points@, keys@, parts@.len() as int, key, 0);
                lemma_chunks_sum(parts@, points@, keys@, parts@.len() as int, key, 1);
                lemma_chunks_sum(parts@, points@, keys@, parts@.len() as int, key, 2);
            }
            assert(lists_cells(cells, cell_keys(points@, voxel_size)));
        }
    }
    rows
}

/// Replaces the points of each cell of edge length `voxel_size` by their mean. The
/// means come in no particular order.
pub fn voxel_downsample_array2<T: Scalar>(points: &Vec<[T; 3]>, voxel_size: T) -> (rows: Vec<
    [T; 3],
>)
    requires
        can_count(points@, voxel_size),
    ensures
        rows@.len() <= points@.len(),
        rows@.len() == 0 <==> points@.len() == 0,
        functional::<T>() ==> is_downsampled(rows@, points@, voxel_size),
{
    voxel_downsample_by(points, voxel_size, collect_chunks)
}

/// How many of the first `n` keys fall under one of the first `m` cells, counted cell
/// by cell.
pub open spec fn total_count(keys: Seq<u64>, n: int, cells: Seq<u64>, m: int) -> nat
    decreases m,
{
    if m <= 0 {
        0
    } else {
        total_count(keys, n, cells, m - 1) + group_count(keys, 0, n, cells[m - 1])
    }
}

/// One more key adds to the count of the one cell that it names.
proof fn lemma_total_count_step(keys: Seq<u64>, n: int, cells: Seq<u64>, m: int)
    requires
        0 < n <= keys.len(),
        0 <= m <= cells.len(),
        cells.no_duplicates(),
    ensures
        total_count(keys, n, cells, m) == total_count(keys, n - 1, cells, m) + (if exists|i: int|
            0 <= i < m && cells[i] == keys[n - 1] {
            1nat
        } else {
            0nat
        }),
    decreases m,
{
    if m > 0 {
        lemma_total_count_step(keys, n, cells, m - 1);
        if cells[m - 1] == keys[n - 1] {
            assert(!(exists|i: int| 0 <= i < m - 1 && cells[i] == keys[n - 1]));
        } else if exists|i: int| 0 <= i < m && cells[i] == keys[n - 1] {
            let i = choose|i: int| 0 <= i < m && cells[i] == keys[n - 1];
            assert(0 <= i < m - 1 && cells[i] == keys[n - 1]);
        }
    }
}

/// The counts of the first `n` keys add up to `n`.
proof fn lemma_total_count(keys: Seq<u64>, n: int, cells: Seq<u64>)
    requires
        0 <= n <= keys.len(),
        lists_cells(cells, keys),
    ensures
        total_count(keys, n, cells, cells.len() as int) == n,
    decreases n,
{
    if n > 0 {
        lemma_total_count(keys, n - 1, cells);
        lemma_total_count_step(keys, n, cells, cells.len() as int);
        assert(keys.contains(keys[n - 1]));
        assert(cells.contains(keys[n - 1]));
    } else {
        lemma_total_count_none(keys, cells, cells.len() as int);
    }
}

/// No keys, no counts.
proof fn lemma_total_count_none(keys: Seq<u64>, cells: Seq<u64>, m: int)
    ensures
        total_count(keys, 0, cells, m) == 0,
    decreases m,
{
    if m > 0 {
        lemma_total_count_none(keys, cells, m - 1);
    }
}

/// Downsampling loses no point and counts none twice: the counts of all cells add up
/// to the number of points.
pub proof fn law_every_point_counts_once(keys: Seq<u64>, cells: Seq<u64>)
    requires
        lists_cells(cells, keys),
    ensures
        total_count(keys, keys.len() as int, cells, cells.len() as int) == keys.len(),
{
    lemma_total_count(keys, keys.len() as int, cells);
}

/// Downsampling never yields more points than there were.
pub proof fn law_downsampling_shrinks(keys: Seq<u64>, cells: Seq<u64>)
    requires
        lists_cells(cells, keys),
    ensures
        cells.len() <= keys.len(),
{
    lemma_total_count(keys, keys.len() as int, cells);
    lemma_cells_are_inhabited(keys, cells, cells.len() as int);
}

/// Each listed cell counts at least one point.
proof fn lemma_cells_are_inhabited(keys: Seq<u64>, cells: Seq<u64>, m: int)
    requires
        lists_cells(cells, keys),
        0 <= m <= cells.len(),
    ensures
        m <= total_count(keys, keys.len() as int, cells, m),
    decreases m,
{
    if m > 0 {
        lemma_cells_are_inhabited(keys, cells, m - 1);
        assert(cells.contains(cells[m - 1]));
        lemma_group_count_positive(keys, keys.len() as int, cells[m - 1]);
    }
}

/// Collecting the points chunk by chunk counts each cell as collecting them all at
/// once does.
pub proof fn law_chunks_change_no_count<T: Scalar>(
    parts: Seq<FastMap<VoxelStat<T>>>,
    keys: Seq<u64>,
    key: u64,
)
    requires
        collects_chunks(parts, keys),
        (parts.len() - 1) * CHUNK_SIZE < keys.len() <= parts.len() * CHUNK_SIZE,
    ensures
        merged_count(parts, parts.len() as int, key) == group_count(
            keys,
            0,
            keys.len() as int,
            key,
        ),
{
    lemma_chunks_count(parts, keys, parts.len() as int, key);
}

} // verus!

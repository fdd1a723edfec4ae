//! Stable sorting of positions by an integer key.
use crate::rows::law_reordering_is_complete;
use vstd::prelude::*;

verus! {

/// Whether position `a` comes before position `b`: by its key, and among equal keys
/// by the position itself.
pub open spec fn comes_before(keys: Seq<i64>, a: usize, b: usize) -> bool {
    keys[a as int] < keys[b as int] || (keys[a as int] == keys[b as int] && a < b)
}

/// Each position of `order` comes before all those that follow it.
pub open spec fn in_order(keys: Seq<i64>, order: Seq<usize>) -> bool {
    forall|p: int, q: int|
        #![trigger order[p], order[q]]
        0 <= p < q < order.len() ==> comes_before(keys, order[p], order[q])
}

/// `order` holds every position of `keys` once, by rising key, and positions with
/// equal keys in their own order.
pub open spec fn is_stable_order(keys: Seq<i64>, order: Seq<usize>) -> bool {
    &&& order.len() == keys.len()
    &&& forall|p: int| 0 <= p < order.len() ==> (#[trigger] order[p]) < keys.len()
    &&& in_order(keys, order)
}

/// Merges two runs of positions, where those of the first are all smaller than those
/// of the second.
fn merge(keys: &Vec<i64>, left: &Vec<usize>, right: &Vec<usize>) -> (out: Vec<usize>)
    requires
        left@.len() + right@.len() <= usize::MAX,
        forall|p: int| 0 <= p < left@.len() ==> (#[trigger] left@[p]) < keys@.len(),
        forall|p: int| 0 <= p < right@.len() ==> (#[trigger] right@[p]) < keys@.len(),
        forall|p: int, q: int|
            #![trigger left@[p], right@[q]]
            0 <= p < left@.len() && 0 <= q < right@.len() ==> left@[p] < right@[q],
        in_order(keys@, left@),
        in_order(keys@, right@),
    ensures
        out@.len() == left@.len() + right@.len(),
        in_order(keys@, out@),
        forall|p: int|
            0 <= p < out@.len() ==> left@.contains(#[trigger] out@[p]) || right@.contains(out@[p]),
{
    let mut out: Vec<usize> = Vec::new();
    let mut i: usize = 0;
    let mut j: usize = 0;
    while i < left.len() || j < right.len()
        invariant
            i <= left@.len(),
            j <= right@.len(),
            out@.len() == i + j,
            left@.len() + right@.len() <= usize::MAX,
            forall|p: int| 0 <= p < left@.len() ==> (#[trigger] left@[p]) < keys@.len(),
            forall|p: int| 0 <= p < right@.len() ==> (#[trigger] right@[p]) < keys@.len(),
            forall|p: int, q: int|
                #![trigger left@[p], right@[q]]
                0 <= p < left@.len() && 0 <= q < right@.len() ==> left@[p] < right@[q],
            in_order(keys@, left@),
            in_order(keys@, right@),
            in_order(keys@, out@),
            forall|p: int, q: int|
                #![trigger out@[p], left@[q]]
                0 <= p < out@.len() && i <= q < left@.len() ==> comes_before(
                    keys@,
                    out@[p],
                    left@[q],
                ),
            forall|p: int, q: int|
                #![trigger out@[p], right@[q]]
                0 <= p < out@.len() && j <= q < right@.len() ==> comes_before(
                    keys@,
                    out@[p],
                    right@[q],
                ),
            forall|p: int|
                0 <= p < out@.len() ==> left@.contains(#[trigger] out@[p]) || right@.contains(
                    out@[p],
                ),
        decreases left@.len() + right@.len() - i - j,
    {
        let take_left: bool = if i == left.len() {
            false
        } else if j == right.len() {
            true
        } else {
            keys[left[i]] <= keys[right[j]]
        };
        if take_left {
            assert(left@.contains(left@[i as int]));
            out.push(left[i]);
            i += 1;
        } else {
            assert(right@.contains(right@[j as int]));
            out.push(right[j]);
            j += 1;
        }
    }
    out
}

/// Sorts the positions from `lo` up to but not including `hi`.
fn sort_range(keys: &Vec<i64>, lo: usize, hi: usize) -> (out: Vec<usize>)
    requires
        lo <= hi <= keys@.len(),
    ensures
        out@.len() == hi - lo,
        forall|p: int| 0 <= p < out@.len() ==> lo <= (#[trigger] out@[p]) < hi,
        in_order(keys@, out@),
    decreases hi - lo,
{
    if hi - lo <= 1 {
        let mut out: Vec<usize> = Vec::new();
        if lo < hi {
            out.push(lo);
        }
        out
    } else {
        let mid: usize = lo + (hi - lo) / 2;
        let left: Vec<usize> = sort_range(keys, lo, mid);
        let right: Vec<usize> = sort_range(keys, mid, hi);
        merge(keys, &left, &right)
    }
}

/// The positions of `keys` in the order that a stable sort by key puts them in.
pub fn stable_order(keys: &Vec<i64>) -> (order: Vec<usize>)
    ensures
        is_stable_order(keys@, order@),
{
    sort_range(keys, 0, keys.len())
}

/// A stable order leaves no position out.
pub proof fn law_order_is_complete(keys: Seq<i64>, order: Seq<usize>, position: usize)
    requires
        is_stable_order(keys, order),
        position < keys.len(),
    ensures
        order.contains(position),
{
    assert forall|p: int, q: int| 0 <= p < q < order.len() implies order[p] != order[q] by {
        assert(comes_before(keys, order[p], order[q]));
    }
    law_reordering_is_complete(order, keys.len(), position);
}

/// There is one stable order: two that sort the same keys are equal.
pub proof fn law_order_is_unique(keys: Seq<i64>, a: Seq<usize>, b: Seq<usize>)
    requires
        is_stable_order(keys, a),
        is_stable_order(keys, b),
    ensures
        a == b,
{
    lemma_orders_agree(keys, a, b, a.len());
}

/// Two stable orders of the same keys agree in their first `n` places.
proof fn lemma_orders_agree(keys: Seq<i64>, a: Seq<usize>, b: Seq<usize>, n: nat)
    requires
        is_stable_order(keys, a),
        is_stable_order(keys, b),
        n <= a.len(),
    ensures
        forall|p: int| 0 <= p < n ==> a[p] == b[p],
    decreases n,
{
    if n > 0 {
        let m = n - 1;
        lemma_orders_agree(keys, a, b, m as nat);
        law_order_is_complete(keys, b, a[m]);
        law_order_is_complete(keys, a, b[m]);
        let q = choose|q: int| 0 <= q < b.len() && b[q] == a[m];
        let r = choose|r: int| 0 <= r < a.len() && a[r] == b[m];
        if q < m {
            assert(comes_before(keys, a[q], a[m]));
        }
        if r < m {
            assert(comes_before(keys, b[r], b[m]));
        }
    }
}

/// A stable order goes by rising key and keeps positions with equal keys in their order, and
/// every position is in it.
pub proof fn law_keys_rise(keys: Seq<i64>, order: Seq<usize>, p: int, q: int)
    requires
        is_stable_order(keys, order),
        0 <= p < q < order.len(),
    ensures
        keys[order[p] as int] <= keys[order[q] as int],
        keys[order[p] as int] == keys[order[q] as int] ==> order[p] < order[q],
{
    assert(comes_before(keys, order[p], order[q]));
}

} // verus!

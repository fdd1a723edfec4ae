//! Picking rows of a table.
use vstd::prelude::*;

verus! {

/// The rows at the positions given, in that order.
pub open spec fn rows_at<T>(rows: Seq<T>, indices: Seq<usize>) -> Seq<T> {
    Seq::new(indices.len(), |i: int| rows[indices[i] as int])
}

/// Every position is that of a row.
pub open spec fn all_within(indices: Seq<usize>, len: int) -> bool {
    forall|i: int| 0 <= i < indices.len() ==> (#[trigger] indices[i]) < len
}

/// Picks the rows at the positions given.
pub fn select<T: Copy>(rows: &Vec<T>, indices: &Vec<usize>) -> (picked: Vec<T>)
    requires
        all_within(indices@, rows@.len() as int),
    ensures
        picked@ == rows_at(rows@, indices@),
{
    let mut picked: Vec<T> = Vec::new();
    let mut i: usize = 0;
    while i < indices.len()
        invariant
            i <= indices@.len(),
            all_within(indices@, rows@.len() as int),
            picked@.len() == i,
            forall|j: int| 0 <= j < i ==> #[trigger] picked@[j] == rows@[indices@[j] as int],
        decreases indices@.len() - i,
    {
        picked.push(rows[indices[i]]);
        i += 1;
    }
    picked
}

/// The positions from zero up to but not including `n`.
pub open spec fn positions(n: nat) -> Seq<usize> {
    Seq::new(n, |i: int| i as usize)
}

/// Counts from zero up to but not including `n`.
pub fn all_positions(n: usize) -> (indices: Vec<usize>)
    ensures
        indices@ == positions(n as nat),
{
    let mut indices: Vec<usize> = Vec::new();
    let mut i: usize = 0;
    while i < n
        invariant
            i <= n,
            indices@ == positions(i as nat),
        decreases n - i,
    {
        indices.push(i);
        i += 1;
    }
    indices
}

/// Picking twice is picking once at the positions that the first pick holds at those
/// of the second.
pub proof fn law_picks_compose<T>(rows: Seq<T>, first: Seq<usize>, second: Seq<usize>)
    requires
        all_within(first, rows.len() as int),
        all_within(second, first.len() as int),
    ensures
        rows_at(rows_at(rows, first), second) == rows_at(rows, rows_at(first, second)),
        all_within(rows_at(first, second), rows.len() as int),
{
    assert(rows_at(rows_at(rows, first), second) =~= rows_at(rows, rows_at(first, second)));
}

/// `order` lists every position below `n` once.
pub open spec fn is_reordering(order: Seq<usize>, n: nat) -> bool {
    &&& order.len() == n
    &&& order.no_duplicates()
    &&& all_within(order, n as int)
}

/// A list of positions below `n` without repetition, `n` long, leaves none out.
pub proof fn law_reordering_is_complete(order: Seq<usize>, n: nat, position: usize)
    requires
        is_reordering(order, n),
        position < n,
    ensures
        order.contains(position),
{
    let ints = order.map_values(|p: usize| p as int);
    assert(ints.no_duplicates()) by {
        assert forall|p: int, q: int| 0 <= p < q < ints.len() implies ints[p] != ints[q] by {
            assert(order[p] != order[q]);
        }
    }
    ints.unique_seq_to_set();
    vstd::set_lib::lemma_int_range(0, n as int);
    let range = vstd::set_lib::set_int_range(0, n as int);
    assert(ints.to_set().subset_of(range)) by {
        assert forall|x: int| ints.to_set().contains(x) implies range.contains(x) by {
            let p = choose|p: int| 0 <= p < ints.len() && ints[p] == x;
            assert(order[p] < n);
        }
    }
    vstd::set_lib::lemma_subset_equality(ints.to_set(), range);
    assert(ints.to_set().contains(position as int));
    let p = choose|p: int| 0 <= p < ints.len() && ints[p] == position as int;
    assert(order[p] == position);
}

/// Rows in another order are the same rows.
pub proof fn law_reordering_keeps_rows<T>(rows: Seq<T>, order: Seq<usize>)
    requires
        rows.len() <= usize::MAX,
        is_reordering(order, rows.len()),
    ensures
        rows_at(rows, order).to_multiset() == rows.to_multiset(),
    decreases rows.len(),
{
    broadcast use vstd::seq_lib::group_to_multiset_ensures;

    let picked = rows_at(rows, order);
    if rows.len() == 0 {
        assert(picked =~= rows);
    } else {
        let last = (rows.len() - 1) as usize;
        law_reordering_is_complete(order, rows.len(), last);
        let j = choose|j: int| 0 <= j < order.len() && order[j] == last;
        let fewer = rows.drop_last();
        let rest = order.remove(j);
        assert forall|i: int| 0 <= i < rest.len() implies (#[trigger] rest[i]) < fewer.len() by {
            let k = if i < j {
                i
            } else {
                i + 1
            };
            assert(rest[i] == order[k] && k != j);
            assert(order[k] != order[j]);
        }
        assert forall|p: int, q: int| 0 <= p < q < rest.len() implies rest[p] != rest[q] by {
            let (k, l) = (
                if p < j {
                    p
                } else {
                    p + 1
                },
                if q < j {
                    q
                } else {
                    q + 1
                },
            );
            assert(rest[p] == order[k] && rest[q] == order[l] && k != l);
        }
        law_reordering_keeps_rows(fewer, rest);
        assert(picked.remove(j) =~= rows_at(fewer, rest));
        assert(rows =~= fewer.push(rows.last()));
        assert(picked.to_multiset().count(picked[j]) > 0);
        assert(picked.to_multiset() =~= picked.remove(j).to_multiset().insert(picked[j]));
    }
}

} // verus!

//! The smallest and the greatest of many numbers.
use crate::scalar::{infinity_of, less_of, negated_of, Scalar};
use vstd::prelude::*;

verus! {

/// The smallest of the first `n` numbers, or positive infinity where none is below it.
pub open spec fn smallest_of<T: Scalar>(values: Seq<T>, n: int) -> T
    decreases n,
{
    if n <= 0 {
        infinity_of()
    } else {
        let before = smallest_of(values, n - 1);
        if less_of(values[n - 1], before) {
            values[n - 1]
        } else {
            before
        }
    }
}

/// The greatest of the first `n` numbers, or negative infinity where none is above it.
pub open spec fn greatest_of<T: Scalar>(values: Seq<T>, n: int) -> T
    decreases n,
{
    if n <= 0 {
        negated_of(infinity_of())
    } else {
        let before = greatest_of(values, n - 1);
        if less_of(before, values[n - 1]) {
            values[n - 1]
        } else {
            before
        }
    }
}

/// The smallest and the greatest are among the numbers unless they are infinite, and no
/// number is below the smallest or above the greatest.
pub proof fn law_extremes_bound_all<T: Scalar>(values: Seq<T>, n: int)
    requires
        0 <= n <= values.len(),
    ensures
        smallest_of(values, n) == infinity_of::<T>() || exists|i: int|
            0 <= i < n && #[trigger] values[i] == smallest_of(values, n),
        greatest_of(values, n) == negated_of(infinity_of::<T>()) || exists|i: int|
            0 <= i < n && #[trigger] values[i] == greatest_of(values, n),
        forall|i: int|
            0 <= i < n ==> !less_of(#[trigger] values[i], smallest_of(values, n)) && !less_of(
                greatest_of(values, n),
                values[i],
            ),
    decreases n,
{
    if n > 0 {
        law_extremes_bound_all(values, n - 1);
        assert(values[n - 1] == values[n - 1]);
    }
}

} // verus!

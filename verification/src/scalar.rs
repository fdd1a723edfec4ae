//! The numbers that coordinates are made of.
//!
//! The computations of this library are written against [`Scalar`] and are verified
//! for every implementation of it: nothing is taken for granted of what an operation
//! returns. A contract that speaks of a computed number holds for the scalars whose
//! operations are functions of their operands (see [`functional`]) and gives the
//! number as the operations, applied in that order, give it. A sine or a cosine is
//! whatever outcome the call had.
use crate::order::{bits_less, is_nan, less_bits, rank};
use vstd::prelude::*;

verus! {

/// A number type. The comments say what an implementation for floating-point numbers
/// computes.
pub trait Scalar: Copy {
    /// The sum.
    fn plus(self, other: Self) -> (r: Self);

    /// The difference.
    fn minus(self, other: Self) -> (r: Self);

    /// The product.
    fn times(self, other: Self) -> (r: Self);

    /// The quotient.
    fn over(self, other: Self) -> (r: Self);

    /// The number with the opposite sign.
    fn negated(self) -> (r: Self);

    /// The number without its sign.
    fn magnitude(self) -> (r: Self);

    /// The square root.
    fn square_root(self) -> (r: Self);

    /// The sine of an angle in radians, as nearly as it is known.
    fn sine(self) -> (r: Self);

    /// The cosine of an angle in radians, as nearly as it is known.
    fn cosine(self) -> (r: Self);

    /// The number nearest to `num / den`.
    fn ratio(num: i32, den: u32) -> (r: Self);

    /// The number nearest to `n`.
    fn from_count(n: usize) -> (r: Self);

    /// The whole part, clamped to the range of `usize`; zero for no number.
    fn to_count(self) -> (r: usize);

    /// The greatest whole number that is not above this one, clamped to the range of
    /// `u32`; zero for no number.
    fn floor_index(self) -> (r: u32);

    /// Positive infinity.
    fn infinity() -> (r: Self);

    /// The largest finite number.
    fn largest() -> (r: Self);

    /// The bit pattern of this number in double precision, and one and the same pattern
    /// for everything that is no number.
    fn to_bits(self) -> (r: u64);
}

/// What `a.plus(b)` returns.
pub open spec fn plus_of<T: Scalar>(a: T, b: T) -> T {
    choose|r: T| call_ensures(T::plus, (a, b), r)
}

/// What `a.minus(b)` returns.
pub open spec fn minus_of<T: Scalar>(a: T, b: T) -> T {
    choose|r: T| call_ensures(T::minus, (a, b), r)
}

/// What `a.times(b)` returns.
pub open spec fn times_of<T: Scalar>(a: T, b: T) -> T {
    choose|r: T| call_ensures(T::times, (a, b), r)
}

/// What `a.over(b)` returns.
pub open spec fn over_of<T: Scalar>(a: T, b: T) -> T {
    choose|r: T| call_ensures(T::over, (a, b), r)
}

/// What `a.negated()` returns.
pub open spec fn negated_of<T: Scalar>(a: T) -> T {
    choose|r: T| call_ensures(T::negated, (a,), r)
}

/// What `a.magnitude()` returns.
pub open spec fn magnitude_of<T: Scalar>(a: T) -> T {
    choose|r: T| call_ensures(T::magnitude, (a,), r)
}

/// What `a.square_root()` returns.
pub open spec fn square_root_of<T: Scalar>(a: T) -> T {
    choose|r: T| call_ensures(T::square_root, (a,), r)
}

/// What `T::ratio(num, den)` returns.
pub open spec fn ratio_of<T: Scalar>(num: i32, den: u32) -> T {
    choose|r: T| call_ensures(T::ratio, (num, den), r)
}

/// What `T::from_count(n)` returns.
pub open spec fn count_of<T: Scalar>(n: usize) -> T {
    choose|r: T| call_ensures(T::from_count, (n,), r)
}

/// What `a.to_count()` returns.
pub open spec fn whole_of<T: Scalar>(a: T) -> usize {
    choose|r: usize| call_ensures(T::to_count, (a,), r)
}

/// What `a.floor_index()` returns.
pub open spec fn floor_of<T: Scalar>(a: T) -> u32 {
    choose|r: u32| call_ensures(T::floor_index, (a,), r)
}

/// What `T::infinity()` returns.
pub open spec fn infinity_of<T: Scalar>() -> T {
    choose|r: T| call_ensures(T::infinity, (), r)
}

/// What `T::largest()` returns.
pub open spec fn largest_of<T: Scalar>() -> T {
    choose|r: T| call_ensures(T::largest, (), r)
}

/// What `a.to_bits()` returns.
pub open spec fn bits_of<T: Scalar>(a: T) -> u64 {
    choose|r: u64| call_ensures(T::to_bits, (a,), r)
}

/// The operations of `T` are functions of their operands: two calls on the same operands
/// return the same, where everything that is no number counts as one value. Nothing is
/// asked of the sine and the cosine, which may be approximated in more than one way.
pub open spec fn functional<T: Scalar>() -> bool {
    &&& forall|a: T, b: T, r: T| #[trigger]
        call_ensures(T::plus, (a, b), r) ==> r == plus_of(a, b)
    &&& forall|a: T, b: T, r: T| #[trigger]
        call_ensures(T::minus, (a, b), r) ==> r == minus_of(a, b)
    &&& forall|a: T, b: T, r: T| #[trigger]
        call_ensures(T::times, (a, b), r) ==> r == times_of(a, b)
    &&& forall|a: T, b: T, r: T| #[trigger]
        call_ensures(T::over, (a, b), r) ==> r == over_of(a, b)
    &&& forall|a: T, r: T| #[trigger]
        call_ensures(T::negated, (a,), r) ==> r == negated_of(a)
    &&& forall|a: T, r: T| #[trigger]
        call_ensures(T::magnitude, (a,), r) ==> r == magnitude_of(a)
    &&& forall|a: T, r: T| #[trigger]
        call_ensures(T::square_root, (a,), r) ==> r == square_root_of(a)
    &&& forall|num: i32, den: u32, r: T| #[trigger]
        call_ensures(T::ratio, (num, den), r) ==> r == ratio_of::<T>(num, den)
    &&& forall|n: usize, r: T| #[trigger]
        call_ensures(T::from_count, (n,), r) ==> r == count_of::<T>(n)
    &&& forall|a: T, r: usize| #[trigger] call_ensures(T::to_count, (a,), r) ==> r == whole_of(a)
    &&& forall|a: T, r: u32| #[trigger]
        call_ensures(T::floor_index, (a,), r) ==> r == floor_of(a)
    &&& forall|r: T| #[trigger] call_ensures(T::infinity, (), r) ==> r == infinity_of::<T>()
    &&& forall|r: T| #[trigger] call_ensures(T::largest, (), r) ==> r == largest_of::<T>()
    &&& forall|a: T, r: u64| #[trigger] call_ensures(T::to_bits, (a,), r) ==> r == bits_of(a)
}

/// Whether `a` is less than `b`.
pub open spec fn less_of<T: Scalar>(a: T, b: T) -> bool {
    bits_less(bits_of(a), bits_of(b))
}

/// Compares two numbers by their bit patterns; false where either is no number.
pub fn less<T: Scalar>(a: T, b: T) -> (r: bool)
    ensures
        functional::<T>() ==> r == less_of(a, b),
{
    less_bits(a.to_bits(), b.to_bits())
}

/// The number zero.
pub open spec fn zero_of<T: Scalar>() -> T {
    ratio_of(0, 1)
}

/// The number one.
pub open spec fn one_of<T: Scalar>() -> T {
    ratio_of(1, 1)
}

/// The number minus one.
pub open spec fn minus_one_of<T: Scalar>() -> T {
    ratio_of(-1i32, 1)
}

/// The two are equal, or numbers that compare as equal.
pub open spec fn same_rank<T: Scalar>(a: T, b: T) -> bool {
    a == b || (!is_nan(bits_of(a)) && !is_nan(bits_of(b)) && rank(bits_of(a)) == rank(bits_of(b)))
}

/// `a` is zero, of either sign.
pub open spec fn is_zero<T: Scalar>(a: T) -> bool {
    same_rank(a, zero_of())
}

/// The sum of three numbers, added to zero from left to right.
pub open spec fn sum3_of<T: Scalar>(v: [T; 3]) -> T {
    plus_of(plus_of(plus_of(zero_of(), v[0]), v[1]), v[2])
}

/// Adds three numbers to zero, from left to right.
pub fn sum3<T: Scalar>(v: [T; 3]) -> (r: T)
    ensures
        functional::<T>() ==> r == sum3_of(v),
{
    let zero: T = T::ratio(0, 1);
    zero.plus(v[0]).plus(v[1]).plus(v[2])
}

/// The inner product of two vectors.
pub open spec fn dot3_of<T: Scalar>(a: [T; 3], b: [T; 3]) -> T {
    sum3_of([times_of(a[0], b[0]), times_of(a[1], b[1]), times_of(a[2], b[2])])
}

/// The inner product of two vectors: the products of their components, added from
/// left to right.
pub fn dot3<T: Scalar>(a: [T; 3], b: [T; 3]) -> (r: T)
    ensures
        functional::<T>() ==> r == dot3_of(a, b),
{
    let products: [T; 3] = [a[0].times(b[0]), a[1].times(b[1]), a[2].times(b[2])];
    sum3(products)
}

/// The difference of two vectors.
pub open spec fn minus3_of<T: Scalar>(a: [T; 3], b: [T; 3]) -> [T; 3] {
    [minus_of(a[0], b[0]), minus_of(a[1], b[1]), minus_of(a[2], b[2])]
}

/// The difference of two vectors, component by component.
pub fn minus3<T: Scalar>(a: [T; 3], b: [T; 3]) -> (r: [T; 3])
    ensures
        functional::<T>() ==> r == minus3_of(a, b),
{
    [a[0].minus(b[0]), a[1].minus(b[1]), a[2].minus(b[2])]
}

} // verus!

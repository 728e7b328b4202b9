//! The arithmetic that label propagation is carried out in.
//!
//! Weights and scores are real numbers in the mathematics and some machine
//! approximation of them in a program. The algorithms of this crate are
//! written against [`Scalar`], which names the handful of operations they
//! need, so that what they compute can be stated exactly in terms of those
//! operations, whatever rounding an implementation applies.

use vstd::prelude::*;

verus! {

/// A number type in which edge weights and label scores are held.
///
/// Every operation is a total function of its operands: an implementation
/// decides what an overflow or a division by zero yields, and the algorithms
/// promise only to apply the operations in a fixed order.
pub trait Scalar: Copy + Sized {
    /// The scalar that stands for the whole number `n`.
    spec fn count_spec(n: usize) -> Self;

    /// The sum of two scalars.
    spec fn plus_spec(self, rhs: Self) -> Self;

    /// The difference of two scalars.
    spec fn minus_spec(self, rhs: Self) -> Self;

    /// The product of two scalars.
    spec fn times_spec(self, rhs: Self) -> Self;

    /// The quotient of two scalars.
    spec fn over_spec(self, rhs: Self) -> Self;

    /// The square root of a scalar.
    spec fn root_spec(self) -> Self;

    /// Whether the scalar is zero.
    spec fn is_zero_spec(self) -> bool;

    /// Whether the scalar is zero or greater.
    spec fn non_negative_spec(self) -> bool;

    /// The scalar that stands for the whole number zero is zero.
    proof fn lemma_count_zero()
        ensures
            Self::count_spec(0).is_zero_spec(),
    ;

    /// Adding zero to zero leaves zero.
    proof fn lemma_plus_zeros(a: Self, b: Self)
        requires
            a.is_zero_spec(),
            b.is_zero_spec(),
        ensures
            a.plus_spec(b).is_zero_spec(),
    ;

    fn count(n: usize) -> (r: Self)
        ensures
            r == Self::count_spec(n),
    ;

    fn plus(self, rhs: Self) -> (r: Self)
        ensures
            r == self.plus_spec(rhs),
    ;

    fn minus(self, rhs: Self) -> (r: Self)
        ensures
            r == self.minus_spec(rhs),
    ;

    fn times(self, rhs: Self) -> (r: Self)
        ensures
            r == self.times_spec(rhs),
    ;

    fn over(self, rhs: Self) -> (r: Self)
        ensures
            r == self.over_spec(rhs),
    ;

    fn root(self) -> (r: Self)
        ensures
            r == self.root_spec(),
    ;

    fn is_zero(self) -> (r: bool)
        ensures
            r == self.is_zero_spec(),
    ;

    fn non_negative(self) -> (r: bool)
        ensures
            r == self.non_negative_spec(),
    ;
}

/// A scalar type in which the numbers of zero or more are closed under
/// counting, sums, products, quotients and roots: none of these operations
/// leads from such numbers to one below zero or to one that is no number.
///
/// Exact and clipped arithmetic is of this kind. Arithmetic in which zero
/// divided by zero is no number is not.
pub trait NonNegativeClosed: Scalar {
    proof fn lemma_count_non_negative(n: usize)
        ensures
            Self::count_spec(n).non_negative_spec(),
    ;

    proof fn lemma_plus_non_negative(a: Self, b: Self)
        requires
            a.non_negative_spec(),
            b.non_negative_spec(),
        ensures
            a.plus_spec(b).non_negative_spec(),
    ;

    proof fn lemma_times_non_negative(a: Self, b: Self)
        requires
            a.non_negative_spec(),
            b.non_negative_spec(),
        ensures
            a.times_spec(b).non_negative_spec(),
    ;

    proof fn lemma_over_non_negative(a: Self, b: Self)
        requires
            a.non_negative_spec(),
            b.non_negative_spec(),
        ensures
            a.over_spec(b).non_negative_spec(),
    ;

    proof fn lemma_root_non_negative(a: Self)
        requires
            a.non_negative_spec(),
        ensures
            a.root_spec().non_negative_spec(),
    ;
}

/// The scalar zero.
pub open spec fn zero<S: Scalar>() -> S {
    S::count_spec(0)
}

/// The scalar one.
pub open spec fn one<S: Scalar>() -> S {
    S::count_spec(1)
}

/// The sum of a sequence of scalars, taken from the front: the empty sum is
/// zero, and each further term is added to the sum of those before it.
pub open spec fn sum<S: Scalar>(terms: Seq<S>) -> S
    decreases terms.len(),
{
    if terms.len() == 0 {
        zero::<S>()
    } else {
        sum(terms.drop_last()).plus_spec(terms.last())
    }
}

/// The sum of the first `k + 1` terms is the sum of the first `k` plus the
/// term at `k`.
pub proof fn lemma_sum_step<S: Scalar>(terms: Seq<S>, k: int)
    requires
        0 <= k < terms.len(),
    ensures
        sum(terms.take(k + 1)) == sum(terms.take(k)).plus_spec(terms[k]),
{
    assert(terms.take(k + 1).drop_last() =~= terms.take(k));
}

/// A sum of zeros is zero.
pub proof fn lemma_sum_zeros<S: Scalar>(terms: Seq<S>)
    requires
        forall|k: int| 0 <= k < terms.len() ==> (#[trigger] terms[k]).is_zero_spec(),
    ensures
        sum(terms).is_zero_spec(),
    decreases terms.len(),
{
    if terms.len() == 0 {
        S::lemma_count_zero();
    } else {
        lemma_sum_zeros(terms.drop_last());
        S::lemma_plus_zeros(sum(terms.drop_last()), terms.last());
    }
}

/// Whether every scalar of `terms` is zero or more.
pub open spec fn all_non_negative<S: Scalar>(terms: Seq<S>) -> bool {
    forall|k: int| 0 <= k < terms.len() ==> (#[trigger] terms[k]).non_negative_spec()
}

/// A sum of scalars of zero or more is zero or more.
pub proof fn lemma_sum_non_negative<S: NonNegativeClosed>(terms: Seq<S>)
    requires
        all_non_negative(terms),
    ensures
        sum(terms).non_negative_spec(),
    decreases terms.len(),
{
    if terms.len() == 0 {
        S::lemma_count_non_negative(0);
    } else {
        assert forall|k: int| 0 <= k < terms.drop_last().len() implies (
        #[trigger] terms.drop_last()[k]).non_negative_spec() by {
            assert(terms.drop_last()[k] == terms[k]);
        }
        lemma_sum_non_negative(terms.drop_last());
        assert(terms.last() == terms[terms.len() - 1]);
        S::lemma_plus_non_negative(sum(terms.drop_last()), terms.last());
    }
}

/// Adds up the scalars of `terms` from the front.
pub fn sum_of<S: Scalar>(terms: &[S]) -> (total: S)
    ensures
        total == sum(terms@),
{
    let mut total = S::count(0);
    let mut k: usize = 0;
    while k < terms.len()
        invariant
            k <= terms.len(),
            total == sum(terms@.take(k as int)),
        decreases terms.len() - k,
    {
        proof {
            lemma_sum_step(terms@, k as int);
        }
        total = total.plus(terms[k]);
        k += 1;
    }
    assert(terms@.take(k as int) =~= terms@);
    total
}

} // verus!

//! Signed fixed-point numbers with 32 fractional bits.
//!
//! A `Fixed` stands for `raw / 2^32`. Sums, differences, products and
//! quotients that leave the range of the type are clipped to its ends;
//! products, quotients and roots are rounded toward zero. Every operation is
//! exact integer arithmetic, so a computation gives the same result on every
//! machine.

use vstd::prelude::*;
use crate::scalar::{NonNegativeClosed, Scalar};

verus! {

/// A fixed-point number: `raw` counts units of `2^-32`.
#[derive(Clone, Copy, Debug, PartialEq, Eq, Structural)]
pub struct Fixed {
    pub raw: i64,
}

/// The number of units in one: `2^32`.
pub open spec fn unit() -> int {
    0x1_0000_0000
}

/// `x`, or the end of the range of `i64` that is nearest to it.
pub open spec fn clip(x: int) -> int {
    if x < i64::MIN {
        i64::MIN as int
    } else if x > i64::MAX {
        i64::MAX as int
    } else {
        x
    }
}

/// The absolute value of `x`.
pub open spec fn magnitude(x: int) -> int {
    if x < 0 {
        -x
    } else {
        x
    }
}

/// `m` with a sign in front of it.
pub open spec fn signed(negative: bool, m: int) -> int {
    if negative {
        -m
    } else {
        m
    }
}

/// The quotient of `n` by a divisor `d` other than zero, rounded toward zero.
pub open spec fn quotient(n: int, d: int) -> int {
    signed((n < 0) != (d < 0), magnitude(n) / magnitude(d))
}

/// Whether `r` is the square root of `x` rounded down.
pub open spec fn is_whole_root(x: int, r: int) -> bool {
    0 <= r && r * r <= x < (r + 1) * (r + 1)
}

/// The square root of `x` rounded down, for `x` of zero or more.
pub open spec fn whole_root(x: int) -> int {
    choose|r: int| is_whole_root(x, r)
}

/// Only one number is the square root of `x` rounded down.
pub proof fn lemma_whole_root_unique(x: int, r: int, s: int)
    requires
        is_whole_root(x, r),
        is_whole_root(x, s),
    ensures
        r == s,
{
    if r < s {
        assert((r + 1) * (r + 1) <= s * s) by (nonlinear_arith)
            requires
                0 <= r + 1 <= s,
        ;
    } else if s < r {
        assert((s + 1) * (s + 1) <= r * r) by (nonlinear_arith)
            requires
                0 <= s + 1 <= r,
        ;
    }
}

/// Every number of zero or more has a square root rounded down.
pub proof fn lemma_whole_root_exists(x: int)
    requires
        0 <= x,
    ensures
        is_whole_root(x, whole_root(x)),
    decreases x,
{
    if x == 0 {
        assert(is_whole_root(0, 0));
    } else {
        lemma_whole_root_exists(x - 1);
        let r = whole_root(x - 1);
        if (r + 1) * (r + 1) <= x {
            assert(x < (r + 2) * (r + 2)) by (nonlinear_arith)
                requires
                    0 <= r,
                    x - 1 < (r + 1) * (r + 1),
            ;
            assert(is_whole_root(x, r + 1));
        } else {
            assert(is_whole_root(x, r));
        }
    }
}

/// A number that is the square root of `x` rounded down is `whole_root(x)`.
pub proof fn lemma_whole_root_is(x: int, r: int)
    requires
        is_whole_root(x, r),
    ensures
        whole_root(x) == r,
{
    lemma_whole_root_unique(x, r, whole_root(x));
}

fn magnitude_of(x: i64) -> (m: u128)
    ensures
        m == magnitude(x as int),
        m <= 0x8000_0000_0000_0000,
{
    if x < 0 {
        (-(x as i128)) as u128
    } else {
        x as u128
    }
}

fn settle(negative: bool, m: u128) -> (raw: i64)
    ensures
        raw == clip(signed(negative, m as int)),
{
    if negative {
        if m >= 0x8000_0000_0000_0000 {
            i64::MIN
        } else {
            -(m as i64)
        }
    } else {
        if m > 0x7fff_ffff_ffff_ffff {
            i64::MAX
        } else {
            m as i64
        }
    }
}

fn clip_sum(x: i128) -> (raw: i64)
    ensures
        raw == clip(x as int),
{
    if x < i64::MIN as i128 {
        i64::MIN
    } else if x > i64::MAX as i128 {
        i64::MAX
    } else {
        x as i64
    }
}

fn whole_root_of(x: u128) -> (r: u128)
    requires
        x < 0x1_0000_0000_0000_0000_0000_0000,
    ensures
        is_whole_root(x as int, r as int),
        r < 0x1_0000_0000_0000,
{
    let mut low: u128 = 0;
    let mut high: u128 = 0x1_0000_0000_0000;
    assert(0x1_0000_0000_0000 * 0x1_0000_0000_0000 == 0x1_0000_0000_0000_0000_0000_0000int);
    while high - low > 1
        invariant
            low < high <= 0x1_0000_0000_0000,
            low * low <= x < high * high,
        decreases high - low,
    {
        let mid = low + (high - low) / 2;
        assert(mid * mid <= 0x1_0000_0000_0000 * 0x1_0000_0000_0000) by (nonlinear_arith)
            requires
                0 <= mid <= 0x1_0000_0000_0000,
        ;
        if mid * mid <= x {
            low = mid;
        } else {
            high = mid;
        }
    }
    low
}

impl Scalar for Fixed {
    open spec fn count_spec(n: usize) -> Self {
        Fixed { raw: clip(n * unit()) as i64 }
    }

    open spec fn plus_spec(self, rhs: Self) -> Self {
        Fixed { raw: clip(self.raw + rhs.raw) as i64 }
    }

    open spec fn minus_spec(self, rhs: Self) -> Self {
        Fixed { raw: clip(self.raw - rhs.raw) as i64 }
    }

    open spec fn times_spec(self, rhs: Self) -> Self {
        Fixed { raw: clip(quotient(self.raw * rhs.raw, unit())) as i64 }
    }

    /// The quotient; dividing by zero gives the end of the range on the side
    /// of the dividend, and zero for a dividend of zero.
    open spec fn over_spec(self, rhs: Self) -> Self {
        if rhs.raw == 0 {
            Fixed {
                raw: if self.raw > 0 {
                    i64::MAX
                } else if self.raw < 0 {
                    i64::MIN
                } else {
                    0
                },
            }
        } else {
            Fixed { raw: clip(quotient(self.raw * unit(), rhs.raw as int)) as i64 }
        }
    }

    /// The square root; that of a number below zero is zero.
    open spec fn root_spec(self) -> Self {
        if self.raw <= 0 {
            Fixed { raw: 0 }
        } else {
            Fixed { raw: whole_root(self.raw * unit()) as i64 }
        }
    }

    open spec fn is_zero_spec(self) -> bool {
        self.raw == 0
    }

    open spec fn non_negative_spec(self) -> bool {
        self.raw >= 0
    }

    proof fn lemma_count_zero() {
    }

    proof fn lemma_plus_zeros(a: Self, b: Self) {
    }

    fn count(n: usize) -> (r: Self) {
        let units: u128 = (n as u128) * 0x1_0000_0000;
        Fixed { raw: settle(false, units) }
    }

    fn plus(self, rhs: Self) -> (r: Self) {
        Fixed { raw: clip_sum(self.raw as i128 + rhs.raw as i128) }
    }

    fn minus(self, rhs: Self) -> (r: Self) {
        Fixed { raw: clip_sum(self.raw as i128 - rhs.raw as i128) }
    }

    fn times(self, rhs: Self) -> (r: Self) {
        let negative = (self.raw < 0) != (rhs.raw < 0);
        let a = magnitude_of(self.raw);
        let b = magnitude_of(rhs.raw);
        assert(a * b <= 0x8000_0000_0000_0000 * 0x8000_0000_0000_0000) by (nonlinear_arith)
            requires
                0 <= a <= 0x8000_0000_0000_0000,
                0 <= b <= 0x8000_0000_0000_0000,
        ;
        let m = (a * b) / 0x1_0000_0000;
        proof {
            let x = self.raw as int;
            let y = rhs.raw as int;
            assert(magnitude(x * y) == magnitude(x) * magnitude(y)) by (nonlinear_arith);
            assert(x * y < 0 <==> ((x < 0) != (y < 0) && x != 0 && y != 0)) by (nonlinear_arith);
            assert(x == 0 || y == 0 ==> x * y == 0) by (nonlinear_arith);
        }
        Fixed { raw: settle(negative, m) }
    }

    fn over(self, rhs: Self) -> (r: Self) {
        if rhs.raw == 0 {
            if self.raw > 0 {
                Fixed { raw: i64::MAX }
            } else if self.raw < 0 {
                Fixed { raw: i64::MIN }
            } else {
                Fixed { raw: 0 }
            }
        } else {
            let negative = (self.raw < 0) != (rhs.raw < 0);
            let a = magnitude_of(self.raw);
            let b = magnitude_of(rhs.raw);
            let m = (a * 0x1_0000_0000) / b;
            Fixed { raw: settle(negative, m) }
        }
    }

    fn root(self) -> (r: Self) {
        if self.raw <= 0 {
            Fixed { raw: 0 }
        } else {
            let found = whole_root_of((self.raw as u128) * 0x1_0000_0000);
            proof {
                lemma_whole_root_is(self.raw * unit(), found as int);
            }
            Fixed { raw: found as i64 }
        }
    }

    fn is_zero(self) -> (r: bool) {
        self.raw == 0
    }

    fn non_negative(self) -> (r: bool) {
        self.raw >= 0
    }
}

impl NonNegativeClosed for Fixed {
    proof fn lemma_count_non_negative(n: usize) {
    }

    proof fn lemma_plus_non_negative(a: Self, b: Self) {
    }

    proof fn lemma_times_non_negative(a: Self, b: Self) {
        assert(a.raw * b.raw >= 0) by (nonlinear_arith)
            requires
                a.raw >= 0,
                b.raw >= 0,
        ;
    }

    proof fn lemma_over_non_negative(a: Self, b: Self) {
        if b.raw != 0 {
            assert(magnitude(a.raw * unit()) / magnitude(b.raw as int) >= 0) by (nonlinear_arith)
                requires
                    magnitude(a.raw * unit()) >= 0,
                    magnitude(b.raw as int) > 0,
            ;
        }
    }

    proof fn lemma_root_non_negative(a: Self) {
        if a.raw > 0 {
            let x = a.raw * unit();
            let r = whole_root(x);
            lemma_whole_root_exists(x);
            assert(r < 0x1_0000_0000_0000) by (nonlinear_arith)
                requires
                    0 <= r,
                    r * r <= x,
                    x < 0x1_0000_0000_0000 * 0x1_0000_0000_0000,
            ;
        }
    }
}

} // verus!

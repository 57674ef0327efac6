//! The numbers that tensors hold.
use vstd::prelude::*;

verus! {

/// What the tensor operations ask of a number. No law ties the operations together: addition
/// need not be associative, as that of machine floats is not.
pub trait Scalar: Sized + Copy {
    /// Numbers in which long sums are taken.
    type Wide: Copy;

    spec fn spec_zero() -> Self;

    spec fn spec_one() -> Self;

    /// A number that no other is below.
    spec fn spec_lowest() -> Self;

    /// Half the length of the circle.
    spec fn spec_pi() -> Self;

    /// The number `digits`, with the point moved `places` places to the left.
    spec fn spec_decimal(digits: usize, places: usize) -> Self;

    /// A count as a number.
    spec fn spec_from_count(n: usize) -> Self;

    spec fn spec_plus(self, other: Self) -> Self;

    spec fn spec_minus(self, other: Self) -> Self;

    spec fn spec_times(self, other: Self) -> Self;

    spec fn spec_over(self, other: Self) -> Self;

    spec fn spec_negated(self) -> Self;

    spec fn spec_above(self, other: Self) -> bool;

    /// The larger of two numbers.
    spec fn spec_larger(self, other: Self) -> Self;

    /// The smaller of two numbers.
    spec fn spec_smaller(self, other: Self) -> Self;

    /// The product of `n` factors.
    spec fn spec_power(self, n: usize) -> Self;

    /// The number to the power of another.
    spec fn spec_raised(self, e: Self) -> Self;

    spec fn spec_exp(self) -> Self;

    spec fn spec_ln(self) -> Self;

    spec fn spec_sqrt(self) -> Self;

    spec fn spec_sin(self) -> Self;

    spec fn spec_cos(self) -> Self;

    /// The number in 16 bits.
    spec fn spec_to_half(self) -> u16;

    spec fn spec_from_half(half: u16) -> Self;

    /// The number as an index.
    spec fn spec_as_index(self) -> usize;

    spec fn spec_wide_zero() -> Self::Wide;

    /// The square of the number added to a wide one.
    spec fn spec_wide_add_square(self, w: Self::Wide) -> Self::Wide;

    spec fn spec_wide_sqrt(w: Self::Wide) -> Self::Wide;

    /// A wide number rounded.
    spec fn spec_narrow(w: Self::Wide) -> Self;

    fn zero() -> (r: Self)
        ensures
            r == Self::spec_zero(),
    ;

    fn one() -> (r: Self)
        ensures
            r == Self::spec_one(),
    ;

    fn lowest() -> (r: Self)
        ensures
            r == Self::spec_lowest(),
    ;

    fn pi() -> (r: Self)
        ensures
            r == Self::spec_pi(),
    ;

    fn decimal(digits: usize, places: usize) -> (r: Self)
        ensures
            r == Self::spec_decimal(digits, places),
    ;

    fn from_count(n: usize) -> (r: Self)
        ensures
            r == Self::spec_from_count(n),
    ;

    fn plus(self, other: Self) -> (r: Self)
        ensures
            r == self.spec_plus(other),
    ;

    fn minus(self, other: Self) -> (r: Self)
        ensures
            r == self.spec_minus(other),
    ;

    fn times(self, other: Self) -> (r: Self)
        ensures
            r == self.spec_times(other),
    ;

    fn over(self, other: Self) -> (r: Self)
        ensures
            r == self.spec_over(other),
    ;

    fn negated(self) -> (r: Self)
        ensures
            r == self.spec_negated(),
    ;

    fn above(self, other: Self) -> (r: bool)
        ensures
            r == self.spec_above(other),
    ;

    fn larger(self, other: Self) -> (r: Self)
        ensures
            r == self.spec_larger(other),
    ;

    fn smaller(self, other: Self) -> (r: Self)
        ensures
            r == self.spec_smaller(other),
    ;

    fn power(self, n: usize) -> (r: Self)
        ensures
            r == self.spec_power(n),
    ;

    fn raised(self, e: Self) -> (r: Self)
        ensures
            r == self.spec_raised(e),
    ;

    fn exp(self) -> (r: Self)
        ensures
            r == self.spec_exp(),
    ;

    fn ln(self) -> (r: Self)
        ensures
            r == self.spec_ln(),
    ;

    fn sqrt(self) -> (r: Self)
        ensures
            r == self.spec_sqrt(),
    ;

    fn sin(self) -> (r: Self)
        ensures
            r == self.spec_sin(),
    ;

    fn cos(self) -> (r: Self)
        ensures
            r == self.spec_cos(),
    ;

    fn to_half(self) -> (r: u16)
        ensures
            r == self.spec_to_half(),
    ;

    fn from_half(half: u16) -> (r: Self)
        ensures
            r == Self::spec_from_half(half),
    ;

    fn as_index(self) -> (r: usize)
        ensures
            r == self.spec_as_index(),
    ;

    fn wide_zero() -> (r: Self::Wide)
        ensures
            r == Self::spec_wide_zero(),
    ;

    fn wide_add_square(self, w: Self::Wide) -> (r: Self::Wide)
        ensures
            r == self.spec_wide_add_square(w),
    ;

    fn wide_sqrt(w: Self::Wide) -> (r: Self::Wide)
        ensures
            r == Self::spec_wide_sqrt(w),
    ;

    fn narrow(w: Self::Wide) -> (r: Self)
        ensures
            r == Self::spec_narrow(w),
    ;

}

/// The number of binary digits of `x` behind the first.
pub open spec fn log2_floor(x: u64) -> u64
    decreases x,
{
    if x <= 1 {
        0
    } else {
        (1 + log2_floor(x / 2)) as u64
    }
}

/// The product of `n` factors `x`, wrapped around.
pub open spec fn wrapping_power(x: u64, n: nat) -> u64
    decreases n,
{
    if n == 0 {
        1
    } else {
        wrapping_power(x, (n - 1) as nat).wrapping_mul(x)
    }
}

proof fn lemma_log2(x: u64)
    ensures
        log2_floor(x) < 64,
{
    vstd::arithmetic::power2::lemma2_to64_rest();
    lemma_log2_below(x, 63);
}

proof fn lemma_log2_below(x: u64, k: nat)
    requires
        x < vstd::arithmetic::power2::pow2((k + 1) as nat),
        k <= 63,
    ensures
        log2_floor(x) <= k,
    decreases k,
{
    vstd::arithmetic::power2::lemma_pow2_unfold((k + 1) as nat);
    if x > 1 {
        if k == 0 {
            vstd::arithmetic::power2::lemma2_to64();
        } else {
            lemma_log2_below(x / 2, (k - 1) as nat);
        }
    }
}

fn log2(x: u64) -> (r: u64)
    ensures
        r == log2_floor(x),
        r < 64,
{
    let mut y: u64 = x;
    let mut r: u64 = 0;
    proof {
        lemma_log2(x);
    }
    while y > 1
        invariant
            r + log2_floor(y) == log2_floor(x),
            log2_floor(x) < 64,
        decreases y,
    {
        proof {
            lemma_log2(y / 2);
        }
        y = y / 2;
        r = r + 1;
    }
    r
}

fn wrapping_power_of(x: u64, n: usize) -> (r: u64)
    ensures
        r == wrapping_power(x, n as nat),
{
    let mut r: u64 = 1;
    let mut i: usize = 0;
    while i < n
        invariant
            i <= n,
            r == wrapping_power(x, i as nat),
        decreases n - i,
    {
        r = r.wrapping_mul(x);
        i += 1;
    }
    r
}

/// Integers of 64 bits, with arithmetic that wraps around. What is no integer is rounded towards
/// zero; exponentials and logarithms are those of base two, roots are rounded to powers of two and
/// no angle turns. In 16 bits the upper quarter is kept.
impl Scalar for u64 {
    type Wide = u128;

    open spec fn spec_zero() -> u64 {
        0
    }

    open spec fn spec_one() -> u64 {
        1
    }

    open spec fn spec_lowest() -> u64 {
        0
    }

    open spec fn spec_pi() -> u64 {
        3
    }

    open spec fn spec_decimal(digits: usize, places: usize) -> u64 {
        if places == 0 {
            digits as u64
        } else {
            0
        }
    }

    open spec fn spec_from_count(n: usize) -> u64 {
        n as u64
    }

    open spec fn spec_plus(self, other: u64) -> u64 {
        self.wrapping_add(other)
    }

    open spec fn spec_minus(self, other: u64) -> u64 {
        self.wrapping_sub(other)
    }

    open spec fn spec_times(self, other: u64) -> u64 {
        self.wrapping_mul(other)
    }

    open spec fn spec_over(self, other: u64) -> u64 {
        if other == 0 {
            0
        } else {
            self / other
        }
    }

    open spec fn spec_negated(self) -> u64 {
        0u64.wrapping_sub(self)
    }

    open spec fn spec_above(self, other: u64) -> bool {
        self > other
    }

    open spec fn spec_larger(self, other: u64) -> u64 {
        if self > other {
            self
        } else {
            other
        }
    }

    open spec fn spec_smaller(self, other: u64) -> u64 {
        if self < other {
            self
        } else {
            other
        }
    }

    open spec fn spec_power(self, n: usize) -> u64 {
        wrapping_power(self, n as nat)
    }

    open spec fn spec_raised(self, e: u64) -> u64 {
        wrapping_power(self, (e % 64) as nat)
    }

    open spec fn spec_exp(self) -> u64 {
        1u64 << (self % 64)
    }

    open spec fn spec_ln(self) -> u64 {
        log2_floor(self)
    }

    open spec fn spec_sqrt(self) -> u64 {
        if self == 0 {
            0
        } else {
            1u64 << (log2_floor(self) / 2)
        }
    }

    open spec fn spec_sin(self) -> u64 {
        0
    }

    open spec fn spec_cos(self) -> u64 {
        1
    }

    open spec fn spec_to_half(self) -> u16 {
        (self >> 48u64) as u16
    }

    open spec fn spec_from_half(half: u16) -> u64 {
        (half as u64) << 48u64
    }

    open spec fn spec_as_index(self) -> usize {
        self as usize
    }

    open spec fn spec_wide_zero() -> u128 {
        0
    }

    open spec fn spec_wide_add_square(self, w: u128) -> u128 {
        w.wrapping_add((self as u128).wrapping_mul(self as u128))
    }

    open spec fn spec_wide_sqrt(w: u128) -> u128 {
        w
    }

    open spec fn spec_narrow(w: u128) -> u64 {
        w as u64
    }

    fn zero() -> u64 {
        0
    }

    fn one() -> u64 {
        1
    }

    fn lowest() -> u64 {
        0
    }

    fn pi() -> u64 {
        3
    }

    fn decimal(digits: usize, places: usize) -> u64 {
        if places == 0 {
            digits as u64
        } else {
            0
        }
    }

    fn from_count(n: usize) -> u64 {
        n as u64
    }

    fn plus(self, other: u64) -> u64 {
        self.wrapping_add(other)
    }

    fn minus(self, other: u64) -> u64 {
        self.wrapping_sub(other)
    }

    fn times(self, other: u64) -> u64 {
        self.wrapping_mul(other)
    }

    fn over(self, other: u64) -> u64 {
        if other == 0 {
            0
        } else {
            self / other
        }
    }

    fn negated(self) -> u64 {
        0u64.wrapping_sub(self)
    }

    fn above(self, other: u64) -> bool {
        self > other
    }

    fn larger(self, other: u64) -> u64 {
        if self > other {
            self
        } else {
            other
        }
    }

    fn smaller(self, other: u64) -> u64 {
        if self < other {
            self
        } else {
            other
        }
    }

    fn power(self, n: usize) -> u64 {
        wrapping_power_of(self, n)
    }

    fn raised(self, e: u64) -> u64 {
        wrapping_power_of(self, (e % 64) as usize)
    }

    fn exp(self) -> u64 {
        1u64 << (self % 64)
    }

    fn ln(self) -> u64 {
        log2(self)
    }

    fn sqrt(self) -> u64 {
        if self == 0 {
            0
        } else {
            1u64 << (log2(self) / 2)
        }
    }

    fn sin(self) -> u64 {
        0
    }

    fn cos(self) -> u64 {
        1
    }

    fn to_half(self) -> u16 {
        (self >> 48u64) as u16
    }

    fn from_half(half: u16) -> u64 {
        (half as u64) << 48u64
    }

    fn as_index(self) -> usize {
        self as usize
    }

    fn wide_zero() -> u128 {
        0
    }

    fn wide_add_square(self, w: u128) -> u128 {
        w.wrapping_add((self as u128).wrapping_mul(self as u128))
    }

    fn wide_sqrt(w: u128) -> u128 {
        w
    }

    fn narrow(w: u128) -> u64 {
        w as u64
    }

}

} // verus!

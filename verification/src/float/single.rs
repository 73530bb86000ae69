//! Single-precision numbers.

use crate::float::rounding;
use vstd::arithmetic::div_mod::*;
use vstd::arithmetic::mul::*;
use vstd::arithmetic::power2::*;
use vstd::prelude::*;

verus! {

/// The bits of positive infinity; larger bits, up to the sign, are not numbers.
pub const SINGLE_INFINITY: u32 = 0x7f80_0000;

/// The weight of the sign bit.
pub const SINGLE_SIGN: u32 = 0x8000_0000;

/// A single-precision number, by its bits.
///
/// Two values are equal here when their bits are.
#[derive(Clone, Copy, Debug, PartialEq, Eq, Structural)]
pub struct Single {
    pub bits: u32,
}

impl Single {
    /// Whether the sign bit is set.
    pub open spec fn negative(self) -> bool {
        self.bits >= SINGLE_SIGN
    }

    /// The bits without the sign.
    pub open spec fn magnitude(self) -> nat {
        if self.negative() {
            (self.bits - SINGLE_SIGN) as nat
        } else {
            self.bits as nat
        }
    }

    /// Neither infinite nor NaN.
    pub open spec fn finite(self) -> bool {
        self.magnitude() < SINGLE_INFINITY
    }

    /// Not a number.
    pub open spec fn nan(self) -> bool {
        self.magnitude() > SINGLE_INFINITY
    }

    /// The absolute value in units of `2^-149`; infinity counts as `2^128`.
    pub open spec fn size(self) -> nat {
        rounding::magnitude_units(self.magnitude(), 24)
    }

    /// The value in units of `2^-149`.
    pub open spec fn units(self) -> int {
        if self.negative() {
            -(self.size() as int)
        } else {
            self.size() as int
        }
    }

    /// The number of units in one.
    pub open spec fn one() -> nat {
        pow2(149)
    }

    /// Whether this is the number nearest to `num / den` units, ties to even,
    /// with the given sign; beyond the largest number it is infinity.
    pub open spec fn is_nearest(self, negative: bool, num: nat, den: nat) -> bool {
        let size = rounding::rounded(num, den, 24);
        &&& self.negative() == negative
        &&& !self.nan()
        &&& self.size() == if size < pow2(277) {
            size
        } else {
            pow2(277)
        }
    }

    /// The number nearest to `num / den` units, ties to even.
    pub open spec fn nearest(negative: bool, num: nat, den: nat) -> Single {
        choose|number: Single| number.is_nearest(negative, num, den)
    }

    /// The number nearest to an integer.
    pub open spec fn of_int(n: int) -> Single {
        if n < 0 {
            Single::nearest(true, (-n * Single::one()) as nat, 1)
        } else {
            Single::nearest(false, (n * Single::one()) as nat, 1)
        }
    }

    /// The quotient by a positive number, rounded to nearest.
    pub open spec fn quotient(self, divisor: Single) -> Single {
        if self.finite() {
            Single::nearest(self.negative(), self.size() * Single::one(), divisor.size())
        } else {
            self
        }
    }

    /// Neither is NaN, and the first is not larger.
    pub open spec fn le(self, other: Single) -> bool {
        !self.nan() && !other.nan() && self.units() <= other.units()
    }

    /// Finite, and between the bounds, which belong to the range.
    pub open spec fn within(self, minimum: Single, maximum: Single) -> bool {
        self.finite() && minimum.le(self) && self.le(maximum)
    }

    /// Whether the number is neither infinite nor NaN.
    pub fn is_finite(self) -> (finite: bool)
        ensures
            finite == self.finite(),
    {
        self.magnitude_bits() < SINGLE_INFINITY
    }

    /// The bits without the sign.
    fn magnitude_bits(self) -> (magnitude: u32)
        ensures
            magnitude == self.magnitude(),
            magnitude < SINGLE_SIGN,
    {
        if self.bits >= SINGLE_SIGN {
            self.bits - SINGLE_SIGN
        } else {
            self.bits
        }
    }

    /// Whether the absolute value is larger than that of the other number.
    pub fn is_larger_than(self, other: Single) -> (larger: bool)
        ensures
            larger == (self.size() > other.size()),
    {
        proof {
            Single::lemma_size_ordered(self, other);
            Single::lemma_size_ordered(other, self);
        }
        self.magnitude_bits() > other.magnitude_bits()
    }

    /// Whether the first number is at most the second; never if one is NaN.
    pub fn is_at_most(self, other: Single) -> (at_most: bool)
        ensures
            at_most == self.le(other),
    {
        let left: u32 = self.magnitude_bits();
        let right: u32 = other.magnitude_bits();
        proof {
            Single::lemma_size_ordered(self, other);
            Single::lemma_size_ordered(other, self);
            Single::lemma_size_zero(self);
            Single::lemma_size_zero(other);
        }
        if left > SINGLE_INFINITY || right > SINGLE_INFINITY {
            false
        } else if self.bits >= SINGLE_SIGN {
            if other.bits >= SINGLE_SIGN {
                right <= left
            } else {
                true
            }
        } else if other.bits >= SINGLE_SIGN {
            left == 0 && right == 0
        } else {
            left <= right
        }
    }

    /// Whether the number is finite and between the bounds.
    pub fn is_within(self, minimum: Single, maximum: Single) -> (within: bool)
        ensures
            within == self.within(minimum, maximum),
    {
        self.is_finite() && minimum.is_at_most(self) && self.is_at_most(maximum)
    }

    /// The number nearest to an integer.
    pub fn from_i32(n: i32) -> (number: Single)
        ensures
            number == Single::of_int(n as int),
    {
        if n < 0 {
            let size: u32 = (-(n as i64)) as u32;
            Single::from_size(true, size)
        } else {
            Single::from_size(false, n as u32)
        }
    }

    /// The number nearest to a natural number.
    pub fn from_u32(n: u32) -> (number: Single)
        ensures
            number == Single::of_int(n as int),
    {
        Single::from_size(false, n)
    }

    fn from_size(negative: bool, size: u32) -> (number: Single)
        ensures
            number == Single::nearest(negative, (size * Single::one()) as nat, 1),
    {
        let ghost num = (size * Single::one()) as nat;
        proof {
            lemma2_to64();
            rounding::lemma_brackets_exact(size as nat, 149, 0);
        }
        let magnitude: u64 = rounding::round_quotient(
            size as u128,
            false,
            149,
            24,
            Ghost(num),
            Ghost(1),
        );
        Single::pack(negative, magnitude, Ghost(num), Ghost(1))
    }

    /// The quotient by a positive number, rounded to nearest. What is not
    /// finite stays as it is.
    pub fn divided_by(self, divisor: Single) -> (number: Single)
        requires
            divisor.finite(),
            !divisor.negative(),
            divisor.magnitude() > 0,
        ensures
            number == self.quotient(divisor),
    {
        if !self.is_finite() {
            return self;
        }
        proof {
            lemma2_to64();
            lemma2_to64_rest();
            Single::lemma_size_zero(divisor);
        }
        let (m, k) = rounding::unpack(self.magnitude_bits() as u64, 24);
        let (md, kd) = rounding::unpack(divisor.magnitude_bits() as u64, 24);
        let power: u128 = rounding::power_of_two(74);
        let ghost num = self.size() * Single::one();
        let ghost den = divisor.size();
        proof {
            assert(md > 0) by (nonlinear_arith)
                requires
                    md * pow2(kd as nat) > 0,
            ;
            lemma_pow2_adds(24, 50);
            lemma_pow2_adds(64, 34);
            assert(pow2(24) * pow2(74) == pow2(98)) by {
                lemma_pow2_adds(24, 74);
            }
            assert(m * power <= pow2(98)) by (nonlinear_arith)
                requires
                    m <= pow2(24),
                    power == pow2(74),
                    pow2(24) * pow2(74) == pow2(98),
            ;
        }
        let whole: u128 = (m as u128) * power;
        let q: u128 = whole / (md as u128);
        let rest: u128 = whole % (md as u128);
        proof {
            lemma_fundamental_div_mod(whole as int, md as int);
            lemma_mul_is_commutative(q as int, md as int);
            rounding::lemma_brackets_quotient(
                m as nat,
                k as nat,
                md as nat,
                kd as nat,
                149,
                74,
                q as nat,
                rest as nat,
            );
            if m == 0 {
                assert(whole == 0) by (nonlinear_arith)
                    requires
                        whole == m * power,
                        m == 0,
                ;
                lemma_small_mod(0, md as nat);
            } else {
                assert(q >= pow2(24)) by (nonlinear_arith)
                    requires
                        m >= 1,
                        whole == m * power,
                        power == pow2(24) * pow2(50),
                        pow2(50) >= pow2(24) + 1,
                        whole == md * q + rest,
                        rest < md,
                        md < pow2(24),
                ;
            }
        }
        let magnitude: u64 = rounding::round_quotient(
            q,
            rest > 0,
            k as i32 - kd as i32 + 75,
            24,
            Ghost(num),
            Ghost(den),
        );
        Single::pack(self.bits >= SINGLE_SIGN, magnitude, Ghost(num), Ghost(den))
    }

    /// The number with the given sign and rounded bits.
    pub(crate) fn pack(
        negative: bool,
        magnitude: u64,
        Ghost(num): Ghost<nat>,
        Ghost(den): Ghost<nat>,
    ) -> (number: Single)
        requires
            rounding::magnitude_units(magnitude as nat, 24) == rounding::rounded(num, den, 24),
        ensures
            number == Single::nearest(negative, num, den),
    {
        let limited: u32 = if magnitude < SINGLE_INFINITY as u64 {
            magnitude as u32
        } else {
            SINGLE_INFINITY
        };
        let number = Single { bits: if negative { SINGLE_SIGN + limited } else { limited } };
        proof {
            Single::lemma_infinity_size();
            if magnitude < SINGLE_INFINITY {
                rounding::lemma_magnitude_units_ordered(
                    magnitude as nat,
                    SINGLE_INFINITY as nat,
                    24,
                );
            } else if magnitude > SINGLE_INFINITY {
                rounding::lemma_magnitude_units_ordered(
                    SINGLE_INFINITY as nat,
                    magnitude as nat,
                    24,
                );
            }
            Single::lemma_nearest_unique(number, negative, num, den);
        }
        number
    }

    /// Infinity stands for `2^128`.
    pub proof fn lemma_infinity_size()
        ensures
            rounding::magnitude_units(SINGLE_INFINITY as nat, 24) == pow2(277),
    {
        lemma2_to64();
        lemma_pow2_adds(23, 254);
    }

    /// Larger bits without the sign hold a larger absolute value.
    pub proof fn lemma_size_ordered(left: Single, right: Single)
        ensures
            left.magnitude() < right.magnitude() ==> left.size() < right.size(),
    {
        if left.magnitude() < right.magnitude() {
            rounding::lemma_magnitude_units_ordered(left.magnitude(), right.magnitude(), 24);
        }
    }

    proof fn lemma_size_zero(number: Single)
        ensures
            number.magnitude() == 0 <==> number.size() == 0,
    {
        lemma2_to64();
        if number.magnitude() > 0 {
            rounding::lemma_magnitude_units_ordered(0, number.magnitude(), 24);
        }
    }

    /// There is a nearest number.
    pub proof fn lemma_nearest(negative: bool, num: nat, den: nat)
        requires
            den > 0,
        ensures
            Single::nearest(negative, num, den).is_nearest(negative, num, den),
    {
        let magnitude = rounding::lemma_rounded_has_bits(num, den, 24);
        Single::lemma_infinity_size();
        let limited: u32 = if magnitude < SINGLE_INFINITY {
            magnitude as u32
        } else {
            SINGLE_INFINITY
        };
        if magnitude < SINGLE_INFINITY {
            rounding::lemma_magnitude_units_ordered(magnitude, SINGLE_INFINITY as nat, 24);
        } else if magnitude > SINGLE_INFINITY {
            rounding::lemma_magnitude_units_ordered(SINGLE_INFINITY as nat, magnitude, 24);
        }
        let number = Single {
            bits: if negative {
                (SINGLE_SIGN + limited) as u32
            } else {
                limited
            },
        };
        assert(number.is_nearest(negative, num, den));
    }

    /// The nearest number is finite if it is below the largest power of two.
    pub proof fn lemma_nearest_finite(negative: bool, num: nat, den: nat)
        requires
            den > 0,
            rounding::rounded(num, den, 24) < pow2(277),
        ensures
            Single::nearest(negative, num, den).finite(),
            Single::nearest(negative, num, den).negative() == negative,
            Single::nearest(negative, num, den).size() == rounding::rounded(num, den, 24),
    {
        Single::lemma_nearest(negative, num, den);
        Single::lemma_infinity_size();
    }

    /// Integers of up to 24 bits are held exactly.
    pub proof fn lemma_of_int(n: int)
        requires
            -0x100_0000 < n < 0x100_0000,
        ensures
            Single::of_int(n).finite(),
            Single::of_int(n).negative() == (n < 0),
            Single::of_int(n).units() == n * Single::one(),
            n != 0 ==> Single::of_int(n).magnitude() > 0,
    {
        let size: nat = if n < 0 {
            (-n) as nat
        } else {
            n as nat
        };
        lemma2_to64();
        rounding::lemma_rounded_exact(size, 149, 1, 24);
        lemma_mul_basics_3((size * pow2(149)) as int);
        lemma_pow2_adds(24, 149);
        lemma_pow2_strictly_increases(173, 277);
        lemma_mul_inequality(size as int, pow2(24) as int, pow2(149) as int);
        lemma_mul_unary_negation(n, pow2(149) as int);
        Single::lemma_nearest_finite(n < 0, size * pow2(149), 1);
        if n != 0 {
            lemma_pow2_pos(149);
            lemma_mul_strictly_positive(size as int, pow2(149) as int);
            Single::lemma_size_zero(Single::of_int(n));
        }
    }

    /// Only one number is nearest.
    pub proof fn lemma_nearest_unique(number: Single, negative: bool, num: nat, den: nat)
        requires
            number.is_nearest(negative, num, den),
        ensures
            number == Single::nearest(negative, num, den),
    {
        let other = Single::nearest(negative, num, den);
        assert(other.is_nearest(negative, num, den));
        Single::lemma_size_ordered(number, other);
        Single::lemma_size_ordered(other, number);
    }
}

} // verus!

//! Double-precision numbers.

use crate::float::rounding;
use crate::float::single::Single;
use vstd::arithmetic::div_mod::*;
use vstd::arithmetic::mul::*;
use vstd::arithmetic::power2::*;
use vstd::prelude::*;

verus! {

/// The bits of positive infinity; larger bits, up to the sign, are not numbers.
pub const DOUBLE_INFINITY: u64 = 0x7ff0_0000_0000_0000;

/// The weight of the sign bit.
pub const DOUBLE_SIGN: u64 = 0x8000_0000_0000_0000;

/// A double-precision number, by its bits.
///
/// Two values are equal here when their bits are.
#[derive(Clone, Copy, Debug, PartialEq, Eq, Structural)]
pub struct Double {
    pub bits: u64,
}

impl Double {
    /// Whether the sign bit is set.
    pub open spec fn negative(self) -> bool {
        self.bits >= DOUBLE_SIGN
    }

    /// The bits without the sign.
    pub open spec fn magnitude(self) -> nat {
        if self.negative() {
            (self.bits - DOUBLE_SIGN) as nat
        } else {
            self.bits as nat
        }
    }

    /// Neither infinite nor NaN.
    pub open spec fn finite(self) -> bool {
        self.magnitude() < DOUBLE_INFINITY
    }

    /// Not a number.
    pub open spec fn nan(self) -> bool {
        self.magnitude() > DOUBLE_INFINITY
    }

    /// The absolute value in units of `2^-1074`; infinity counts as `2^1024`.
    pub open spec fn size(self) -> nat {
        rounding::magnitude_units(self.magnitude(), 53)
    }

    /// The value in units of `2^-1074`.
    pub open spec fn units(self) -> int {
        if self.negative() {
            -(self.size() as int)
        } else {
            self.size() as int
        }
    }

    /// The number of units in one.
    pub open spec fn one() -> nat {
        pow2(1074)
    }

    /// Whether this is the number nearest to `num / den` units, ties to even,
    /// with the given sign; beyond the largest number it is infinity.
    pub open spec fn is_nearest(self, negative: bool, num: nat, den: nat) -> bool {
        let size = rounding::rounded(num, den, 53);
        &&& self.negative() == negative
        &&& !self.nan()
        &&& self.size() == if size < pow2(2098) {
            size
        } else {
            pow2(2098)
        }
    }

    /// The number nearest to `num / den` units, ties to even.
    pub open spec fn nearest(negative: bool, num: nat, den: nat) -> Double {
        choose|number: Double| number.is_nearest(negative, num, den)
    }

    /// The number nearest to a natural number.
    pub open spec fn of_nat(n: nat) -> Double {
        Double::nearest(false, n * Double::one(), 1)
    }

    /// The quotient of two finite numbers that are not negative.
    pub open spec fn quotient(self, divisor: Double) -> Double {
        Double::nearest(false, self.size() * Double::one(), divisor.size())
    }

    /// The product of two finite numbers that are not negative.
    pub open spec fn product(self, factor: Double) -> Double {
        Double::nearest(false, self.size() * factor.size(), Double::one())
    }

    /// The sum of two finite numbers that are not negative.
    pub open spec fn sum(self, other: Double) -> Double {
        Double::nearest(false, self.size() + other.size(), 1)
    }

    /// The difference of two finite numbers that are not negative. The
    /// difference of equal numbers is positive zero.
    pub open spec fn difference(self, other: Double) -> Double {
        if self.size() < other.size() {
            Double::nearest(true, (other.size() - self.size()) as nat, 1)
        } else {
            Double::nearest(false, (self.size() - other.size()) as nat, 1)
        }
    }

    /// A finite number rounded to single precision.
    pub open spec fn narrowed(self) -> Single {
        Single::nearest(self.negative(), self.size(), pow2(925))
    }

    /// Neither is NaN, and the first is not larger.
    pub open spec fn le(self, other: Double) -> bool {
        !self.nan() && !other.nan() && self.units() <= other.units()
    }

    /// Whether the number is neither infinite nor NaN.
    pub fn is_finite(self) -> (finite: bool)
        ensures
            finite == self.finite(),
    {
        self.magnitude_bits() < DOUBLE_INFINITY
    }

    /// The bits without the sign.
    fn magnitude_bits(self) -> (magnitude: u64)
        ensures
            magnitude == self.magnitude(),
            magnitude < DOUBLE_SIGN,
    {
        if self.bits >= DOUBLE_SIGN {
            self.bits - DOUBLE_SIGN
        } else {
            self.bits
        }
    }

    /// Whether the first number is at most the second; never if one is NaN.
    pub fn is_at_most(self, other: Double) -> (at_most: bool)
        ensures
            at_most == self.le(other),
    {
        let left: u64 = self.magnitude_bits();
        let right: u64 = other.magnitude_bits();
        proof {
            Double::lemma_size_ordered(self, other);
            Double::lemma_size_ordered(other, self);
            Double::lemma_size_zero(self);
            Double::lemma_size_zero(other);
        }
        if left > DOUBLE_INFINITY || right > DOUBLE_INFINITY {
            false
        } else if self.bits >= DOUBLE_SIGN {
            if other.bits >= DOUBLE_SIGN {
                right <= left
            } else {
                true
            }
        } else if other.bits >= DOUBLE_SIGN {
            left == 0 && right == 0
        } else {
            left <= right
        }
    }

    /// The number nearest to a natural number.
    pub fn from_u64(n: u64) -> (number: Double)
        ensures
            number == Double::of_nat(n as nat),
    {
        let ghost num = n as nat * Double::one();
        proof {
            lemma2_to64();
            rounding::lemma_brackets_exact(n as nat, 1074, 0);
        }
        let magnitude: u64 = rounding::round_quotient(
            n as u128,
            false,
            1074,
            53,
            Ghost(num),
            Ghost(1),
        );
        Double::pack(false, magnitude, Ghost(num), Ghost(1))
    }

    /// The significant bits and the spacing of a finite number.
    fn parts(self) -> (parts: (u64, u32))
        requires
            self.finite(),
        ensures
            parts.0 * pow2(parts.1 as nat) == self.size(),
            parts.0 < 0x20_0000_0000_0000,
            parts.1 < 2048,
            parts.1 > 0 ==> parts.0 >= 0x10_0000_0000_0000,
            self.magnitude() >= 0x10_0000_0000_0000 ==> parts.0 >= 0x10_0000_0000_0000 && parts.1
                == self.magnitude() / 0x10_0000_0000_0000 - 1,
    {
        proof {
            lemma2_to64();
            lemma2_to64_rest();
        }
        rounding::unpack(self.magnitude_bits(), 53)
    }

    /// The quotient of two numbers that are not negative. The dividend is zero
    /// or normal, the divisor is not zero.
    pub fn divided_by(self, divisor: Double) -> (number: Double)
        requires
            !self.negative(),
            !divisor.negative(),
            self.finite(),
            divisor.finite(),
            self.magnitude() == 0 || self.magnitude() >= 0x10_0000_0000_0000,
            divisor.magnitude() > 0,
        ensures
            number == self.quotient(divisor),
    {
        proof {
            lemma2_to64();
            lemma2_to64_rest();
            Double::lemma_size_zero(self);
            Double::lemma_size_zero(divisor);
        }
        let (m, k) = self.parts();
        let (md, kd) = divisor.parts();
        let power: u128 = rounding::power_of_two(74);
        let ghost num = self.size() * Double::one();
        let ghost den = divisor.size();
        proof {
            assert(md > 0) by (nonlinear_arith)
                requires
                    md * pow2(kd as nat) > 0,
            ;
            lemma_pow2_adds(64, 10);
            assert(m * power <= 0x20_0000_0000_0000 * 0x400_0000_0000_0000_0000)
                by (nonlinear_arith)
                requires
                    m <= 0x20_0000_0000_0000,
                    power == 0x400_0000_0000_0000_0000,
            ;
        }
        let whole: u128 = (m as u128) * power;
        let q: u128 = whole / (md as u128);
        let rest: u128 = whole % (md as u128);
        proof {
            lemma_fundamental_div_mod(whole as int, md as int);
            lemma_mul_is_commutative(q as int, md as int);
            rounding::lemma_brackets_quotient(
                m as nat,
                k as nat,
                md as nat,
                kd as nat,
                1074,
                74,
                q as nat,
                rest as nat,
            );
            if self.magnitude() == 0 {
                lemma_pow2_pos(k as nat);
                assert(m == 0) by (nonlinear_arith)
                    requires
                        m * pow2(k as nat) == 0,
                        pow2(k as nat) > 0,
                        m >= 0,
                ;
                assert(whole == 0) by (nonlinear_arith)
                    requires
                        whole == m * power,
                        m == 0,
                ;
                lemma_small_mod(0, md as nat);
            } else {
                assert(q >= 0x20_0000_0000_0000) by (nonlinear_arith)
                    requires
                        m >= 0x10_0000_0000_0000,
                        whole == m * power,
                        power == 0x400_0000_0000_0000_0000,
                        whole == md * q + rest,
                        rest < md,
                        md < 0x20_0000_0000_0000,
                ;
            }
        }
        let magnitude: u64 = rounding::round_quotient(
            q,
            rest > 0,
            k as i32 - kd as i32 + 1000,
            53,
            Ghost(num),
            Ghost(den),
        );
        Double::pack(false, magnitude, Ghost(num), Ghost(den))
    }

    /// The product of two numbers that are not negative.
    pub fn multiplied_by(self, factor: Double) -> (number: Double)
        requires
            !self.negative(),
            !factor.negative(),
            self.finite(),
            factor.finite(),
        ensures
            number == self.product(factor),
    {
        let (m, k) = self.parts();
        let (mf, kf) = factor.parts();
        let ghost num = self.size() * factor.size();
        let ghost den = Double::one();
        proof {
            assert(m * mf <= 0x20_0000_0000_0000 * 0x20_0000_0000_0000) by (nonlinear_arith)
                requires
                    0 <= m <= 0x20_0000_0000_0000,
                    0 <= mf <= 0x20_0000_0000_0000,
            ;
            lemma_pow2_adds(k as nat, kf as nat);
            assert(num == (m * mf) * pow2((k + kf) as nat)) by (nonlinear_arith)
                requires
                    num == (m * pow2(k as nat)) * (mf * pow2(kf as nat)),
                    pow2((k + kf) as nat) == pow2(k as nat) * pow2(kf as nat),
            ;
            rounding::lemma_brackets_exact((m * mf) as nat, (k + kf) as nat, 1074);
            lemma_pow2_pos(1074);
        }
        let magnitude: u64 = rounding::round_quotient(
            (m as u128) * (mf as u128),
            false,
            k as i32 + kf as i32 - 1074,
            53,
            Ghost(num),
            Ghost(den),
        );
        Double::pack(false, magnitude, Ghost(num), Ghost(den))
    }

    /// The sum of two numbers that are not negative.
    pub fn plus(self, other: Double) -> (number: Double)
        requires
            !self.negative(),
            !other.negative(),
            self.finite(),
            other.finite(),
        ensures
            number == self.sum(other),
    {
        let (m, k) = self.parts();
        let (mo, ko) = other.parts();
        let ghost num = self.size() + other.size();
        let magnitude: u64 = if k >= ko {
            Double::add_parts(m, k, mo, ko)
        } else {
            Double::add_parts(mo, ko, m, k)
        };
        Double::pack(false, magnitude, Ghost(num), Ghost(1))
    }

    fn add_parts(m: u64, k: u32, mo: u64, ko: u32) -> (magnitude: u64)
        requires
            m < 0x20_0000_0000_0000,
            mo < 0x20_0000_0000_0000,
            ko <= k < 2048,
            k > 0 ==> m >= 0x10_0000_0000_0000,
        ensures
            rounding::magnitude_units(magnitude as nat, 53) == rounding::rounded(
                (m * pow2(k as nat) + mo * pow2(ko as nat)) as nat,
                1,
                53,
            ),
    {
        let apart: u32 = k - ko;
        let ghost num = (m * pow2(k as nat) + mo * pow2(ko as nat)) as nat;
        proof {
            lemma2_to64();
            lemma2_to64_rest();
            lemma_pow2_adds(64, 10);
        }
        if apart <= 74 {
            let power: u128 = rounding::power_of_two(apart);
            proof {
                rounding::lemma_pow2_ordered(apart as nat, 74);
                assert(m * power <= 0x20_0000_0000_0000 * 0x400_0000_0000_0000_0000 - power)
                    by (nonlinear_arith)
                    requires
                        m + 1 <= 0x20_0000_0000_0000,
                        0 <= power <= 0x400_0000_0000_0000_0000,
                ;
                lemma_pow2_adds(apart as nat, ko as nat);
                assert(num == (m * power + mo) * pow2(ko as nat)) by (nonlinear_arith)
                    requires
                        num == m * pow2(k as nat) + mo * pow2(ko as nat),
                        pow2(k as nat) == power * pow2(ko as nat),
                ;
                rounding::lemma_brackets_exact((m * power + mo) as nat, ko as nat, 0);
            }
            rounding::round_quotient(
                (m as u128) * power + (mo as u128),
                false,
                ko as i32,
                53,
                Ghost(num),
                Ghost(1),
            )
        } else {
            let cut: u32 = apart - 74;
            let power: u128 = rounding::power_of_two(74);
            let (low, rest): (u64, u64) = if cut < 60 {
                let span: u64 = rounding::power_of_two(cut) as u64;
                proof {
                    rounding::lemma_pow2_ordered(cut as nat, 60);
                    lemma_pow2_pos(cut as nat);
                    lemma_fundamental_div_mod(mo as int, pow2(cut as nat) as int);
                    lemma_mod_bound(mo as int, pow2(cut as nat) as int);
                    lemma_mul_is_commutative(
                        pow2(cut as nat) as int,
                        mo as int / pow2(cut as nat) as int,
                    );
                }
                (mo / span, mo % span)
            } else {
                proof {
                    rounding::lemma_pow2_ordered(60, cut as nat);
                    lemma_mul_basics_1(pow2(cut as nat) as int);
                }
                (0, mo)
            };
            proof {
                lemma_pow2_pos(cut as nat);
                assert(low <= mo) by (nonlinear_arith)
                    requires
                        mo == low * pow2(cut as nat) + rest,
                        pow2(cut as nat) > 0,
                        rest >= 0,
                ;
                assert(m * power <= 0x20_0000_0000_0000 * 0x400_0000_0000_0000_0000 - power)
                    by (nonlinear_arith)
                    requires
                        m + 1 <= 0x20_0000_0000_0000,
                        0 <= power <= 0x400_0000_0000_0000_0000,
                ;
                assert(m * power >= 0x20_0000_0000_0000) by (nonlinear_arith)
                    requires
                        m >= 0x10_0000_0000_0000,
                        power == 0x400_0000_0000_0000_0000,
                ;
                rounding::lemma_brackets_sum(
                    m as nat,
                    k as nat,
                    mo as nat,
                    ko as nat,
                    74,
                    cut as nat,
                    low as nat,
                    rest as nat,
                );
            }
            rounding::round_quotient(
                (m as u128) * power + (low as u128),
                rest > 0,
                k as i32 - 74,
                53,
                Ghost(num),
                Ghost(1),
            )
        }
    }

    /// The difference of two normal numbers of about the same size that are
    /// not negative.
    pub fn minus(self, other: Double) -> (number: Double)
        requires
            !self.negative(),
            !other.negative(),
            self.finite(),
            other.finite(),
            self.magnitude() >= 0x10_0000_0000_0000,
            other.magnitude() >= 0x10_0000_0000_0000,
            self.magnitude() / 0x10_0000_0000_0000 <= other.magnitude() / 0x10_0000_0000_0000 + 64,
            other.magnitude() / 0x10_0000_0000_0000 <= self.magnitude() / 0x10_0000_0000_0000 + 64,
        ensures
            number == self.difference(other),
    {
        let (m, k) = self.parts();
        let (mo, ko) = other.parts();
        let base: u32 = if k <= ko {
            k
        } else {
            ko
        };
        let power: u128 = rounding::power_of_two(k - base);
        let power_other: u128 = rounding::power_of_two(ko - base);
        proof {
            lemma2_to64();
            rounding::lemma_pow2_ordered((k - base) as nat, 64);
            rounding::lemma_pow2_ordered((ko - base) as nat, 64);
            assert(m * power <= 0x20_0000_0000_0000 * 0x1_0000_0000_0000_0000) by (nonlinear_arith)
                requires
                    0 <= m <= 0x20_0000_0000_0000,
                    0 <= power <= 0x1_0000_0000_0000_0000,
            ;
            assert(mo * power_other <= 0x20_0000_0000_0000 * 0x1_0000_0000_0000_0000)
                by (nonlinear_arith)
                requires
                    0 <= mo <= 0x20_0000_0000_0000,
                    0 <= power_other <= 0x1_0000_0000_0000_0000,
            ;
            lemma_pow2_adds((k - base) as nat, base as nat);
            lemma_pow2_adds((ko - base) as nat, base as nat);
            lemma_mul_is_associative(m as int, power as int, pow2(base as nat) as int);
            lemma_mul_is_associative(mo as int, power_other as int, pow2(base as nat) as int);
        }
        let left: u128 = (m as u128) * power;
        let right: u128 = (mo as u128) * power_other;
        let less: bool = left < right;
        let apart: u128 = if less {
            right - left
        } else {
            left - right
        };
        let ghost spacing = pow2(base as nat);
        let ghost num = if less {
            (other.size() - self.size()) as nat
        } else {
            (self.size() - other.size()) as nat
        };
        proof {
            lemma_pow2_pos(base as nat);
            assert(self.size() == left * spacing);
            assert(other.size() == right * spacing);
            assert((left < right) == (left * spacing < right * spacing)) by (nonlinear_arith)
                requires
                    spacing > 0,
            ;
            lemma_mul_is_distributive_sub_other_way(spacing as int, left as int, right as int);
            lemma_mul_is_distributive_sub_other_way(spacing as int, right as int, left as int);
            assert(num == apart * spacing);
            rounding::lemma_brackets_exact(apart as nat, base as nat, 0);
        }
        let magnitude: u64 = rounding::round_quotient(
            apart,
            false,
            base as i32,
            53,
            Ghost(num),
            Ghost(1),
        );
        Double::pack(less, magnitude, Ghost(num), Ghost(1))
    }

    /// A finite number rounded to single precision.
    pub fn narrow(self) -> (number: Single)
        requires
            self.finite(),
        ensures
            number == self.narrowed(),
    {
        let (m, k) = self.parts();
        let ghost num = self.size();
        let ghost den = pow2(925);
        proof {
            rounding::lemma_brackets_exact(m as nat, k as nat, 925);
            lemma_pow2_pos(925);
        }
        let magnitude: u64 = rounding::round_quotient(
            m as u128,
            false,
            k as i32 - 925,
            24,
            Ghost(num),
            Ghost(den),
        );
        Single::pack(self.bits >= DOUBLE_SIGN, magnitude, Ghost(num), Ghost(den))
    }

    /// The number with the given sign and rounded bits.
    fn pack(
        negative: bool,
        magnitude: u64,
        Ghost(num): Ghost<nat>,
        Ghost(den): Ghost<nat>,
    ) -> (number: Double)
        requires
            rounding::magnitude_units(magnitude as nat, 53) == rounding::rounded(num, den, 53),
        ensures
            number == Double::nearest(negative, num, den),
    {
        let limited: u64 = if magnitude < DOUBLE_INFINITY {
            magnitude
        } else {
            DOUBLE_INFINITY
        };
        let number = Double { bits: if negative { DOUBLE_SIGN + limited } else { limited } };
        proof {
            Double::lemma_infinity_size();
            if magnitude < DOUBLE_INFINITY {
                rounding::lemma_magnitude_units_ordered(
                    magnitude as nat,
                    DOUBLE_INFINITY as nat,
                    53,
                );
            } else if magnitude > DOUBLE_INFINITY {
                rounding::lemma_magnitude_units_ordered(
                    DOUBLE_INFINITY as nat,
                    magnitude as nat,
                    53,
                );
            }
            Double::lemma_nearest_unique(number, negative, num, den);
        }
        number
    }

    /// Infinity stands for `2^1024`.
    pub proof fn lemma_infinity_size()
        ensures
            rounding::magnitude_units(DOUBLE_INFINITY as nat, 53) == pow2(2098),
    {
        lemma2_to64();
        lemma2_to64_rest();
        lemma_pow2_adds(52, 2046);
    }

    /// Larger bits without the sign hold a larger absolute value.
    pub proof fn lemma_size_ordered(left: Double, right: Double)
        ensures
            left.magnitude() < right.magnitude() ==> left.size() < right.size(),
    {
        if left.magnitude() < right.magnitude() {
            rounding::lemma_magnitude_units_ordered(left.magnitude(), right.magnitude(), 53);
        }
    }

    /// Zero, of either sign, is the number without bits.
    pub proof fn lemma_size_zero(number: Double)
        ensures
            number.magnitude() == 0 <==> number.size() == 0,
    {
        lemma2_to64();
        lemma2_to64_rest();
        if number.magnitude() > 0 {
            rounding::lemma_magnitude_units_ordered(0, number.magnitude(), 53);
        }
    }

    /// There is a nearest number.
    pub proof fn lemma_nearest(negative: bool, num: nat, den: nat)
        requires
            den > 0,
        ensures
            Double::nearest(negative, num, den).is_nearest(negative, num, den),
    {
        let magnitude = rounding::lemma_rounded_has_bits(num, den, 53);
        Double::lemma_infinity_size();
        let limited: u64 = if magnitude < DOUBLE_INFINITY {
            magnitude as u64
        } else {
            DOUBLE_INFINITY
        };
        if magnitude < DOUBLE_INFINITY {
            rounding::lemma_magnitude_units_ordered(magnitude, DOUBLE_INFINITY as nat, 53);
        } else if magnitude > DOUBLE_INFINITY {
            rounding::lemma_magnitude_units_ordered(DOUBLE_INFINITY as nat, magnitude, 53);
        }
        let number = Double {
            bits: if negative {
                (DOUBLE_SIGN + limited) as u64
            } else {
                limited
            },
        };
        assert(number.is_nearest(negative, num, den));
    }

    /// The nearest number is finite if it is below the largest power of two.
    pub proof fn lemma_nearest_finite(negative: bool, num: nat, den: nat)
        requires
            den > 0,
            rounding::rounded(num, den, 53) < pow2(2098),
        ensures
            Double::nearest(negative, num, den).finite(),
            Double::nearest(negative, num, den).negative() == negative,
            Double::nearest(negative, num, den).size() == rounding::rounded(num, den, 53),
    {
        Double::lemma_nearest(negative, num, den);
        Double::lemma_infinity_size();
    }

    /// What the conversion of a natural number gives.
    pub proof fn lemma_of_nat(n: nat, high: nat)
        requires
            n <= pow2(high),
            high <= 64,
        ensures
            Double::of_nat(n).finite(),
            !Double::of_nat(n).negative(),
            Double::of_nat(n).size() == rounding::rounded(n * Double::one(), 1, 53),
            n == 0 ==> Double::of_nat(n).size() == 0,
            n == 0 ==> Double::of_nat(n).magnitude() == 0,
            n > 0 ==> pow2(1074) <= Double::of_nat(n).size() <= pow2(1074 + high),
            n > 0 ==> Double::of_nat(n).magnitude() >= 0x10_0000_0000_0000,
    {
        let one = Double::one();
        let num = n * one;
        lemma2_to64();
        lemma2_to64_rest();
        lemma_pow2_pos(1074);
        lemma_pow2_adds(high, 1074);
        lemma_mul_inequality(n as int, pow2(high) as int, one as int);
        lemma_mul_basics_4(pow2(1074) as int);
        lemma_mul_basics_4(pow2(1074 + high) as int);
        if n == 0 {
            lemma_mul_basics_1(one as int);
            rounding::lemma_rounded_exact(0, 0, 1, 53);
            lemma_pow2_pos(2098);
        } else {
            lemma_mul_inequality(1, n as int, one as int);
            rounding::lemma_rounded_bounds(num, 1, 53, 1074, 1074 + high);
            lemma_pow2_strictly_increases(1074 + high, 2098);
        }
        Double::lemma_nearest_finite(false, num, 1);
        Double::lemma_size_zero(Double::of_nat(n));
        if n > 0 {
            Double::lemma_normal(Double::of_nat(n), 1074);
        }
    }

    /// A number of at least `2^52` units is normal.
    proof fn lemma_normal(number: Double, low: nat)
        requires
            low >= 52,
            number.size() >= pow2(low),
        ensures
            number.magnitude() >= 0x10_0000_0000_0000,
    {
        lemma2_to64();
        lemma2_to64_rest();
        rounding::lemma_pow2_ordered(52, low);
    }

    /// What the quotient of two numbers between powers of two gives.
    pub proof fn lemma_quotient(
        dividend: Double,
        divisor: Double,
        low: nat,
        high: nat,
        divisor_low: nat,
        divisor_high: nat,
    )
        requires
            pow2(low) <= dividend.size() <= pow2(high),
            pow2(divisor_low) <= divisor.size() <= pow2(divisor_high),
            divisor_high <= low + 1022,
            high + 1074 < divisor_low + 2098,
            divisor_low <= high + 1074,
        ensures
            dividend.quotient(divisor).finite(),
            !dividend.quotient(divisor).negative(),
            dividend.quotient(divisor).size() == rounding::rounded(
                dividend.size() * Double::one(),
                divisor.size(),
                53,
            ),
            pow2((low + 1074 - divisor_high) as nat) <= dividend.quotient(divisor).size(),
            dividend.quotient(divisor).size() <= pow2((high + 1074 - divisor_low) as nat),
            dividend.quotient(divisor).magnitude() >= 0x10_0000_0000_0000,
    {
        let one = Double::one();
        let num = dividend.size() * one;
        let den = divisor.size();
        let least = (low + 1074 - divisor_high) as nat;
        let most = (high + 1074 - divisor_low) as nat;
        lemma_pow2_pos(divisor_low);
        lemma_pow2_pos(1074);
        lemma_pow2_adds(low, 1074);
        lemma_pow2_adds(divisor_high, least);
        lemma_pow2_adds(high, 1074);
        lemma_pow2_adds(divisor_low, most);
        lemma_mul_inequality(pow2(low) as int, dividend.size() as int, one as int);
        lemma_mul_inequality(dividend.size() as int, pow2(high) as int, one as int);
        lemma_mul_inequality(den as int, pow2(divisor_high) as int, pow2(least) as int);
        lemma_mul_inequality(pow2(divisor_low) as int, den as int, pow2(most) as int);
        rounding::lemma_rounded_bounds(num, den, 53, least, most);
        lemma_pow2_strictly_increases(most, 2098);
        Double::lemma_nearest_finite(false, num, den);
        Double::lemma_normal(dividend.quotient(divisor), least);
    }

    /// The quotient of zero is zero.
    pub proof fn lemma_quotient_of_zero(dividend: Double, divisor: Double)
        requires
            dividend.size() == 0,
            divisor.size() > 0,
        ensures
            dividend.quotient(divisor).finite(),
            !dividend.quotient(divisor).negative(),
            dividend.quotient(divisor).size() == 0,
            dividend.quotient(divisor).magnitude() == 0,
    {
        lemma2_to64();
        lemma2_to64_rest();
        lemma_mul_basics_1(Double::one() as int);
        lemma_mul_basics_1(divisor.size() as int);
        rounding::lemma_rounded_exact(0, 0, divisor.size(), 53);
        lemma_pow2_pos(2098);
        Double::lemma_nearest_finite(false, 0, divisor.size());
        Double::lemma_size_zero(dividend.quotient(divisor));
    }

    /// The exponent bits of a number between powers of two.
    pub proof fn lemma_exponent(number: Double, low: nat, high: nat)
        requires
            number.finite(),
            52 <= low,
            pow2(low) <= number.size() <= pow2(high),
        ensures
            number.magnitude() >= 0x10_0000_0000_0000,
            low - 51 <= number.magnitude() / 0x10_0000_0000_0000 <= high - 51,
    {
        Double::lemma_normal(number, low);
        lemma2_to64();
        lemma2_to64_rest();
        let hidden: nat = 0x10_0000_0000_0000;
        let field = number.magnitude() / hidden;
        let k = (field - 1) as nat;
        let m = number.magnitude() % hidden + hidden;
        lemma_pow2_adds(52, k);
        lemma_pow2_adds(53, k);
        lemma_pow2_pos(k);
        lemma_mul_inequality(pow2(52) as int, m as int, pow2(k) as int);
        lemma_mul_strict_inequality(m as int, pow2(53) as int, pow2(k) as int);
        if 53 + k <= low {
            rounding::lemma_pow2_ordered(53 + k, low);
        }
        if 52 + k > high {
            lemma_pow2_strictly_increases(high, 52 + k);
        }
    }

    /// Only one number is nearest.
    pub proof fn lemma_nearest_unique(number: Double, negative: bool, num: nat, den: nat)
        requires
            number.is_nearest(negative, num, den),
        ensures
            number == Double::nearest(negative, num, den),
    {
        let other = Double::nearest(negative, num, den);
        assert(other.is_nearest(negative, num, den));
        Double::lemma_size_ordered(number, other);
        Double::lemma_size_ordered(other, number);
    }
}

} // verus!

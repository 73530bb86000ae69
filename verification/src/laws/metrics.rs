//! Laws of metrics.

use crate::float::rounding;
use crate::float::{Double, Single};
use crate::metrics;
use crate::time::NANOS_PER_SECOND;
use vstd::arithmetic::div_mod::*;
use vstd::arithmetic::mul::*;
use vstd::arithmetic::power2::*;
use vstd::prelude::*;

verus! {

/// A rounded quotient is off by less than the `2^p`-th part of the exact one.
pub proof fn law_rounded_near(num: nat, den: nat, p: nat)
    requires
        den > 0,
        p > 0,
        num >= den * pow2((p - 1) as nat),
    ensures
        (rounding::rounded(num, den, p) * den - num) * pow2(p) <= num,
        (num - rounding::rounded(num, den, p) * den) * pow2(p) <= num,
    decreases num - den,
{
    let top = pow2(p);
    let half = pow2((p - 1) as nat);
    lemma_pow2_unfold(p);
    lemma_pow2_pos((p - 1) as nat);
    let r = rounding::rounded(num, den, p);
    if num < den * top {
        let below = num / den;
        let rest = num % den;
        lemma_fundamental_div_mod(num as int, den as int);
        lemma_mul_is_commutative(below as int, den as int);
        lemma_mul_is_distributive_add_other_way(den as int, below as int, 1);
        let off = r * den - num;
        assert(2 * off <= den && -2 * off <= den);
        assert(off * top <= num && -off * top <= num) by (nonlinear_arith)
            requires
                top == 2 * half,
                half > 0,
                2 * off <= den,
                -2 * off <= den,
                num >= den * half,
        ;
    } else {
        assert(2 * den * half == den * top && den * top >= 2 * den) by (nonlinear_arith)
            requires
                top == 2 * half,
                half >= 1,
        ;
        law_rounded_near(num, 2 * den, p);
        let s = rounding::rounded(num, 2 * den, p);
        assert(r * den == s * (2 * den)) by (nonlinear_arith)
            requires
                r == 2 * s,
        ;
    }
}

/// A percentage times its total is a hundred times the value, up to the
/// rounding of the last bits.
pub proof fn law_percentage_near(value: u64, total: u64)
    requires
        0 < value < pow2(53),
        0 < total < pow2(53),
    ensures
        ({
            let percent = metrics::percentage_of(value as nat, total as nat);
            let exact = 100 * value * Double::one();
            &&& percent.finite()
            &&& (percent.units() * total - exact) * pow2(51) <= exact
            &&& (exact - percent.units() * total) * pow2(51) <= exact
        }),
{
    let one = Double::one();
    let v = value as nat * one;
    let t = total as nat;
    let ratio = Double::of_nat(value as nat).quotient(Double::of_nat(t)).size();
    let percent = metrics::percentage_of(value as nat, t).size();
    lemma2_to64();
    lemma2_to64_rest();
    lemma_pow2_pos(1074);
    metrics::lemma_of_nat_exact(value as nat);
    metrics::lemma_of_nat_exact(t);
    metrics::lemma_of_nat_exact(100);
    metrics::lemma_percentage_size(value, total);
    lemma_pow2_adds(53, 1021);
    lemma_pow2_adds(52, 969);
    lemma_pow2_pos(969);
    lemma_mul_strictly_positive(t as int, one as int);
    assert(one >= t * pow2(52)) by (nonlinear_arith)
        requires
            t < pow2(53),
            one == pow2(53) * pow2(1021),
            pow2(1021) == pow2(52) * pow2(969),
            pow2(969) >= 1,
    ;
    assert(v * one >= (t * one) * pow2(52)) by (nonlinear_arith)
        requires
            v == value as nat * one,
            value >= 1,
            one >= t * pow2(52),
            one > 0,
    ;
    law_rounded_near(v * one, t * one, 53);
    let e1 = ratio * t - v;
    let b = pow2(53);
    assert(e1 * b <= v && -e1 * b <= v) by (nonlinear_arith)
        requires
            (ratio * (t * one) - v * one) * b <= v * one,
            (v * one - ratio * (t * one)) * b <= v * one,
            e1 == ratio * t - v,
            one > 0,
    ;
    assert(ratio >= pow2(1020)) by {
        lemma_pow2_unfold(1021);
        assert(v >= one) by (nonlinear_arith)
            requires
                v == value as nat * one,
                value >= 1,
        ;
        assert(2 * (ratio * t) >= v) by (nonlinear_arith)
            requires
                e1 == ratio * t - v,
                -e1 * b <= v,
                b >= 2,
                v >= 0,
        ;
        assert(ratio >= pow2(1020)) by (nonlinear_arith)
            requires
                2 * (ratio * t) >= v,
                v >= one,
                one == pow2(53) * pow2(1021),
                pow2(1021) == 2 * pow2(1020),
                0 < t < pow2(53),
        ;
    }
    lemma_pow2_adds(52, 968);
    lemma_pow2_pos(968);
    let hundred = ratio * (100 * one);
    assert(hundred >= one * pow2(52)) by (nonlinear_arith)
        requires
            hundred == ratio * (100 * one),
            ratio >= pow2(1020),
            pow2(1020) == pow2(52) * pow2(968),
            pow2(968) >= 1,
            one > 0,
    ;
    law_rounded_near(hundred, one, 53);
    let e2 = percent - 100 * ratio;
    assert(e2 * b <= 100 * ratio && -e2 * b <= 100 * ratio) by (nonlinear_arith)
        requires
            (percent * one - hundred) * b <= hundred,
            (hundred - percent * one) * b <= hundred,
            hundred == ratio * (100 * one),
            e2 == percent - 100 * ratio,
            one > 0,
    ;
    let off = percent * t - 100 * v;
    assert(off == e2 * t + 100 * e1) by (nonlinear_arith)
        requires
            off == percent * t - 100 * v,
            e2 == percent - 100 * ratio,
            e1 == ratio * t - v,
    ;
    assert(off * b <= 300 * v && -off * b <= 300 * v) by (nonlinear_arith)
        requires
            off == e2 * t + 100 * e1,
            e2 * b <= 100 * ratio,
            -e2 * b <= 100 * ratio,
            e1 * b <= v,
            -e1 * b <= v,
            e1 == ratio * t - v,
            b >= 2,
            t > 0,
            v >= 0,
    {
        assert(e2 * b * t <= 100 * ratio * t) by (nonlinear_arith)
            requires
                e2 * b <= 100 * ratio,
                t > 0,
        ;
        assert(-e2 * b * t <= 100 * ratio * t) by (nonlinear_arith)
            requires
                -e2 * b <= 100 * ratio,
                t > 0,
        ;
        assert(e1 <= v) by (nonlinear_arith)
            requires
                e1 * b <= v,
                b >= 2,
                v >= 0,
        ;
        assert(off * b == e2 * b * t + 100 * (e1 * b)) by (nonlinear_arith)
            requires
                off == e2 * t + 100 * e1,
        ;
    }
    lemma_pow2_unfold(53);
    lemma_pow2_unfold(52);
    assert(100 * v == 100 * value * one) by (nonlinear_arith)
        requires
            v == value as nat * one,
    ;
}

/// Whether a number is the percentage that a value is of a total, up to the
/// rounding of the last bits.
pub open spec fn is_percentage(percent: Double, value: nat, total: nat) -> bool {
    let exact = 100 * value * Double::one();
    &&& percent.finite()
    &&& (percent.units() * total - exact) * pow2(51) <= exact
    &&& (exact - percent.units() * total) * pow2(51) <= exact
}

/// Whether a number is the rate of so many bytes in so many seconds, up to the
/// rounding of the last bits.
pub open spec fn is_rate(rate: Double, bytes: nat, secs: nat) -> bool {
    let exact = bytes * Double::one();
    &&& rate.finite()
    &&& (rate.units() * secs - exact) * pow2(53) <= exact
    &&& (exact - rate.units() * secs) * pow2(53) <= exact
}

/// A percentage is that of its value and total.
pub proof fn law_percentage(value: u64, total: u64)
    requires
        value < pow2(53),
        0 < total < pow2(53),
    ensures
        is_percentage(
            metrics::percentage_of(value as nat, total as nat),
            value as nat,
            total as nat,
        ),
{
    if value == 0 {
        metrics::lemma_percentage_of_nothing(total);
        Double::lemma_size_zero(Double { bits: 0 });
        lemma_mul_basics_1(total as int);
        lemma_mul_basics_1(Double::one() as int);
        lemma_mul_basics_1(pow2(51) as int);
    } else {
        law_percentage_near(value, total);
    }
}

/// A rate is that of its bytes and seconds.
pub proof fn law_rate(bytes: u64, secs: u64)
    requires
        bytes < pow2(53),
        0 < secs < pow2(53),
    ensures
        is_rate(
            metrics::rate_of(bytes as nat, secs as nat * NANOS_PER_SECOND as nat),
            bytes as nat,
            secs as nat,
        ),
{
    if bytes == 0 {
        metrics::lemma_whole_seconds(secs);
        metrics::lemma_rate_ordered(0, 0, secs as nat * NANOS_PER_SECOND as nat);
        law_rate_zero(0, secs as nat * NANOS_PER_SECOND as nat);
        lemma_mul_basics_1(secs as int);
        lemma_mul_basics_1(Double::one() as int);
        lemma_mul_basics_1(pow2(53) as int);
    } else {
        law_rate_near(bytes, secs);
    }
}

/// Only nothing is zero percent of a total.
pub proof fn law_percentage_zero(value: u64, total: u64)
    requires
        total > 0,
    ensures
        metrics::percentage_of(value as nat, total as nat).units() == 0 <==> value == 0,
{
    if value == 0 {
        metrics::lemma_percentage_of_nothing(total);
        Double::lemma_size_zero(Double { bits: 0 });
    } else {
        lemma_percentage_positive(value, total);
    }
}

proof fn lemma_percentage_positive(value: u64, total: u64)
    requires
        value > 0,
        total > 0,
    ensures
        metrics::percentage_of(value as nat, total as nat).units() > 0,
{
    let one = Double::one();
    let dividend = Double::of_nat(value as nat);
    let divisor = Double::of_nat(total as nat);
    lemma2_to64();
    lemma2_to64_rest();
    lemma_pow2_pos(1074);
    Double::lemma_of_nat(value as nat, 64);
    Double::lemma_of_nat(total as nat, 64);
    metrics::lemma_of_nat_exact(100);
    metrics::lemma_percentage_size(value, total);
    Double::lemma_quotient(dividend, divisor, 1074, 1138, 1074, 1138);
    let ratio = dividend.quotient(divisor).size();
    lemma_pow2_pos(1010);
    lemma_mul_basics_3(one as int);
    assert(ratio * (100 * one) >= one * 1) by (nonlinear_arith)
        requires
            ratio >= 1,
            one >= 1,
    ;
    rounding::lemma_rounded_exact(1, 0, 1, 53);
    lemma_mul_basics_3(1);
    rounding::lemma_rounded_ordered(1, 1, ratio * (100 * one), one, 53);
}

/// A rate times the whole seconds is the bytes, up to the rounding of the last
/// bits.
pub proof fn law_rate_near(bytes: u64, secs: u64)
    requires
        0 < bytes < pow2(53),
        0 < secs < pow2(53),
    ensures
        ({
            let rate = metrics::rate_of(bytes as nat, secs as nat * NANOS_PER_SECOND as nat);
            let exact = bytes * Double::one();
            &&& rate.finite()
            &&& (rate.units() * secs - exact) * pow2(53) <= exact
            &&& (exact - rate.units() * secs) * pow2(53) <= exact
        }),
{
    let one = Double::one();
    let nanos = secs as nat * NANOS_PER_SECOND as nat;
    let v = bytes as nat * one;
    let t = secs as nat;
    let rate = metrics::rate_of(bytes as nat, nanos).size();
    lemma2_to64();
    lemma2_to64_rest();
    lemma_pow2_pos(1074);
    metrics::lemma_of_nat_exact(bytes as nat);
    metrics::lemma_whole_seconds(secs);
    metrics::lemma_rate_size(bytes, nanos);
    lemma_mul_strictly_positive(t as int, one as int);
    lemma_pow2_adds(53, 1021);
    lemma_pow2_adds(52, 969);
    lemma_pow2_pos(969);
    assert(one >= t * pow2(52)) by (nonlinear_arith)
        requires
            t < pow2(53),
            one == pow2(53) * pow2(1021),
            pow2(1021) == pow2(52) * pow2(969),
            pow2(969) >= 1,
    ;
    assert(v * one >= (t * one) * pow2(52)) by (nonlinear_arith)
        requires
            v == bytes as nat * one,
            bytes >= 1,
            one >= t * pow2(52),
            one > 0,
    ;
    law_rounded_near(v * one, t * one, 53);
    let b = pow2(53);
    assert((rate * t - v) * b <= v && (v - rate * t) * b <= v) by (nonlinear_arith)
        requires
            (rate * (t * one) - v * one) * b <= v * one,
            (v * one - rate * (t * one)) * b <= v * one,
            one > 0,
    ;
}

/// Only no bytes at all are a rate of zero.
pub proof fn law_rate_zero(bytes: u64, nanos: nat)
    requires
        0 < nanos < 0x1_0000_0000_0000_0000 * NANOS_PER_SECOND,
    ensures
        metrics::rate_of(bytes as nat, nanos).units() == 0 <==> bytes == 0,
{
    let number = Double::of_nat(bytes as nat);
    lemma2_to64();
    lemma2_to64_rest();
    metrics::lemma_seconds_size(nanos);
    lemma_pow2_pos(1044);
    Double::lemma_of_nat(bytes as nat, 64);
    if bytes == 0 {
        Double::lemma_quotient_of_zero(number, metrics::seconds_of(nanos));
    } else {
        Double::lemma_quotient(number, metrics::seconds_of(nanos), 1074, 1138, 1044, 1139);
        lemma_pow2_pos(1009);
    }
}

/// Single precision keeps the order of a number and an integer.
proof fn lemma_narrowed(value: Double, n: nat)
    requires
        n < 0x100_0000,
    ensures
        value.narrowed().negative() == value.negative(),
        !value.narrowed().nan(),
        value.size() <= n * Double::one() ==> value.narrowed().finite() && value.narrowed().size()
            <= n * Single::one(),
        value.size() >= n * Double::one() ==> value.narrowed().size() >= n * Single::one(),
{
    let den = pow2(925);
    let size = value.size();
    let bound = n * pow2(149);
    lemma2_to64();
    lemma_pow2_pos(925);
    lemma_pow2_adds(149, 925);
    assert(bound * den == n * Double::one()) by (nonlinear_arith)
        requires
            bound == n * pow2(149),
            Double::one() == pow2(149) * den,
    ;
    rounding::lemma_rounded_exact(n, 149, den, 24);
    lemma_pow2_adds(24, 149);
    lemma_pow2_pos(149);
    assert(bound < pow2(173)) by (nonlinear_arith)
        requires
            bound == n * pow2(149),
            n < pow2(24),
            pow2(173) == pow2(24) * pow2(149),
            pow2(149) > 0,
    ;
    lemma_pow2_strictly_increases(173, 277);
    Single::lemma_nearest(value.negative(), size, den);
    if size <= bound * den {
        lemma_mul_inequality(size as int, (bound * den) as int, den as int);
        rounding::lemma_rounded_ordered(size, den, bound * den, den, 24);
        Single::lemma_nearest_finite(value.negative(), size, den);
    }
    if size >= bound * den {
        lemma_mul_inequality((bound * den) as int, size as int, den as int);
        rounding::lemma_rounded_ordered(bound * den, den, size, den, 24);
    }
}

/// Whether the value lies between two integers, in units.
pub open spec fn between(value: Double, minimum: int, maximum: int) -> bool {
    minimum * Double::one() <= value.units() <= maximum * Double::one()
}

/// A number between the bounds is plausible, and stays between them; one that
/// is beyond them by one or more is not.
pub proof fn law_plausible_range(value: Double, minimum: int, maximum: int)
    requires
        -0x10_0000 < minimum <= 0 <= maximum < 0x10_0000,
        value.finite(),
    ensures
        between(value, minimum, maximum) ==> (metrics::plausible(value, minimum, maximum) matches Some(
            number,
        ) && number.finite() && minimum * Single::one() <= number.units() <= maximum
            * Single::one()),
        value.units() >= (maximum + 1) * Double::one() ==> metrics::plausible(
            value,
            minimum,
            maximum,
        ) is None,
        value.units() <= (minimum - 1) * Double::one() ==> metrics::plausible(
            value,
            minimum,
            maximum,
        ) is None,
{
    let one = Single::one();
    let two = Double::one();
    lemma_pow2_pos(149);
    lemma_pow2_pos(1074);
    Single::lemma_of_int(minimum);
    Single::lemma_of_int(maximum);
    lemma_narrowed(value, maximum as nat);
    lemma_narrowed(value, (-minimum) as nat);
    lemma_narrowed(value, (maximum + 1) as nat);
    lemma_narrowed(value, (1 - minimum) as nat);
    lemma_mul_unary_negation(minimum, one as int);
    lemma_mul_unary_negation(minimum, two as int);
    lemma_mul_unary_negation(minimum - 1, one as int);
    lemma_mul_unary_negation(minimum - 1, two as int);
    assert(minimum * one <= 0 && minimum * two <= 0 && 0 <= maximum * one && 0 <= maximum * two)
        by (nonlinear_arith)
        requires
            minimum <= 0 <= maximum,
            one > 0,
            two > 0,
    ;
    assert((maximum + 1) * one > maximum * one && (minimum - 1) * one < minimum * one && (maximum
        + 1) * two > 0 && (minimum - 1) * two < 0) by (nonlinear_arith)
        requires
            one > 0,
            two > 0,
            minimum <= 0 <= maximum,
    ;
}

/// An integer is plausible exactly where it is between the bounds, and is then
/// the same in single precision.
pub proof fn law_plausible_integer(value: Double, n: int, minimum: int, maximum: int)
    requires
        -0x10_0000 < minimum <= 0 <= maximum < 0x10_0000,
        -0x10_0000 < n < 0x10_0000,
        value.finite(),
        value.units() == n * Double::one(),
    ensures
        metrics::plausible(value, minimum, maximum) is Some <==> minimum <= n <= maximum,
        metrics::plausible(value, minimum, maximum) matches Some(number) ==> number.units() == n
            * Single::one(),
{
    let one = Single::one();
    let two = Double::one();
    let size: nat = if n < 0 {
        (-n) as nat
    } else {
        n as nat
    };
    lemma_pow2_pos(149);
    lemma_pow2_pos(1074);
    lemma_narrowed(value, size);
    lemma_mul_unary_negation(n, one as int);
    lemma_mul_unary_negation(n, two as int);
    law_plausible_range(value, minimum, maximum);
    lemma_mul_nonnegative(size as int, two as int);
    assert(value.size() == size * two) by (nonlinear_arith)
        requires
            value.units() == n * two,
            size == if n < 0 {
                -n
            } else {
                n
            },
            value.size() == if value.negative() {
                -value.units()
            } else {
                value.units()
            },
            two > 0,
            value.size() >= 0,
    ;
    if n != 0 {
        assert(value.negative() == (n < 0)) by (nonlinear_arith)
            requires
                value.units() == n * two,
                two > 0,
                n != 0,
                value.negative() ==> value.units() <= 0,
                !value.negative() ==> value.units() >= 0,
        ;
    }
    if minimum <= n <= maximum {
        lemma_mul_inequality(minimum, n, two as int);
        lemma_mul_inequality(n, maximum, two as int);
    } else if n > maximum {
        lemma_mul_inequality(maximum + 1, n, two as int);
    } else {
        lemma_mul_inequality(n, minimum - 1, two as int);
    }
}

proof fn lemma_mul_nonnegative(x: int, y: int)
    by (nonlinear_arith)
    requires
        x >= 0,
        y >= 0,
    ensures
        x * y >= 0,
{
}

/// Percentages are plausible from 0 to 100, temperatures from -50 to 200
/// degrees and powers from 0 to 10000 watts.
pub proof fn law_valid_metrics(value: Double, n: int)
    requires
        -0x10_0000 < n < 0x10_0000,
        value.finite(),
        value.units() == n * Double::one(),
    ensures
        metrics::percent_of(value) is Some <==> 0 <= n <= 100,
        metrics::temperature_of(value) is Some <==> -50 <= n <= 200,
        metrics::power_of(value) is Some <==> 0 <= n <= 10_000,
        metrics::percent_of(value) matches Some(number) ==> number.units() == n * Single::one(),
        metrics::temperature_of(value) matches Some(number) ==> number.units() == n
            * Single::one(),
        metrics::power_of(value) matches Some(number) ==> number.units() == n * Single::one(),
{
    law_plausible_integer(value, n, 0, 100);
    law_plausible_integer(value, n, -50, 200);
    law_plausible_integer(value, n, 0, 10_000);
}

} // verus!

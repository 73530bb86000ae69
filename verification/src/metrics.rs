//! Percentages, rates and plausible sensor values.

use crate::float::rounding;
use crate::float::{Double, Single};
use crate::time::{Duration, NANOS_PER_SECOND};
use vstd::arithmetic::div_mod::*;
use vstd::arithmetic::mul::*;
use vstd::arithmetic::power2::*;
use vstd::prelude::*;

verus! {

/// How many hundredths of `total` are in `value`; zero where `total` is.
pub open spec fn percentage_of(value: nat, total: nat) -> Double {
    if total == 0 {
        Double { bits: 0 }
    } else {
        Double::of_nat(value).quotient(Double::of_nat(total)).product(Double::of_nat(100))
    }
}

/// The seconds in a span of time.
pub open spec fn seconds_of(nanos: nat) -> Double {
    let per_second = NANOS_PER_SECOND as nat;
    Double::of_nat(nanos / per_second).sum(
        Double::of_nat(nanos % per_second).quotient(Double::of_nat(per_second)),
    )
}

/// The bytes per second, given the bytes in a span of time; zero for the span
/// of no length.
pub open spec fn rate_of(bytes: nat, nanos: nat) -> Double {
    if nanos == 0 {
        Double { bits: 0 }
    } else {
        Double::of_nat(bytes).quotient(seconds_of(nanos))
    }
}

/// The number nearest to so many hundredths.
pub open spec fn hundredths(n: nat) -> Double {
    Double::of_nat(n).quotient(Double::of_nat(100))
}

/// A temperature in kelvins, from 173.15 to 473.15, in degrees Celsius.
pub open spec fn celsius_of(kelvin: Double) -> Option<Single> {
    if hundredths(17315).le(kelvin) && kelvin.le(hundredths(47315)) {
        Some(kelvin.difference(hundredths(27315)).narrowed())
    } else {
        None
    }
}

/// A finite number in single precision, if it then lies between two integers.
pub open spec fn plausible(value: Double, minimum: int, maximum: int) -> Option<Single> {
    if value.finite() && value.narrowed().within(
        Single::of_int(minimum),
        Single::of_int(maximum),
    ) {
        Some(value.narrowed())
    } else {
        None
    }
}

/// A percentage from 0 to 100.
pub open spec fn percent_of(value: Double) -> Option<Single> {
    plausible(value, 0, 100)
}

/// A temperature from -50 to 200 degrees Celsius.
pub open spec fn temperature_of(value: Double) -> Option<Single> {
    plausible(value, -50, 200)
}

/// A power from 0 to 10000 watts.
pub open spec fn power_of(value: Double) -> Option<Single> {
    plausible(value, 0, 10_000)
}

/// How many hundredths of `total` are in `value`; zero where `total` is.
pub fn percentage(value: u64, total: u64) -> (percent: Double)
    ensures
        percent == percentage_of(value as nat, total as nat),
{
    if total == 0 {
        Double { bits: 0 }
    } else {
        let ghost dividend = Double::of_nat(value as nat);
        let ghost divisor = Double::of_nat(total as nat);
        proof {
            lemma2_to64();
            Double::lemma_of_nat(value as nat, 64);
            Double::lemma_of_nat(total as nat, 64);
            Double::lemma_of_nat(100, 7);
            lemma_pow2_pos(1074);
            Double::lemma_size_zero(divisor);
            if value == 0 {
                Double::lemma_quotient_of_zero(dividend, divisor);
            } else {
                Double::lemma_quotient(dividend, divisor, 1074, 1138, 1074, 1138);
            }
        }
        Double::from_u64(value).divided_by(Double::from_u64(total)).multiplied_by(
            Double::from_u64(100),
        )
    }
}

/// The seconds in a span of time that has a length.
fn as_secs(elapsed: Duration) -> (seconds: Double)
    requires
        elapsed.as_nanos() > 0,
    ensures
        seconds == seconds_of(elapsed.as_nanos()),
        seconds.finite(),
        !seconds.negative(),
        pow2(1044) <= seconds.size() <= pow2(1139),
{
    let secs: u64 = elapsed.as_secs();
    let nanos: u32 = elapsed.subsec_nanos();
    proof {
        lemma_fundamental_div_mod(elapsed.as_nanos() as int, NANOS_PER_SECOND as int);
        lemma_seconds_size(elapsed.as_nanos());
    }
    Double::from_u64(secs).plus(
        Double::from_u64(nanos as u64).divided_by(Double::from_u64(NANOS_PER_SECOND as u64)),
    )
}

/// The seconds of a span are finite and positive, and so are their parts.
pub proof fn lemma_seconds_size(nanos: nat)
    requires
        0 < nanos < 0x1_0000_0000_0000_0000 * NANOS_PER_SECOND,
    ensures
        seconds_of(nanos).finite(),
        !seconds_of(nanos).negative(),
        pow2(1044) <= seconds_of(nanos).size() <= pow2(1139),
        ({
            let per_second = NANOS_PER_SECOND as nat;
            let whole = Double::of_nat(nanos / per_second);
            let part = Double::of_nat(nanos % per_second);
            let billion = Double::of_nat(per_second);
            &&& whole.finite() && !whole.negative()
            &&& part.finite() && !part.negative()
            &&& part.magnitude() == 0 || part.magnitude() >= 0x10_0000_0000_0000
            &&& billion.finite() && !billion.negative() && billion.magnitude() > 0
            &&& part.quotient(billion).finite() && !part.quotient(billion).negative()
        }),
{
    let per_second = NANOS_PER_SECOND as nat;
    let secs = nanos / per_second;
    let rest = nanos % per_second;
    let whole = Double::of_nat(secs);
    let part = Double::of_nat(rest);
    let billion = Double::of_nat(per_second);
    let fraction = part.quotient(billion);
    lemma_fundamental_div_mod(nanos as int, per_second as int);
    lemma2_to64();
    Double::lemma_of_nat(secs, 64);
    Double::lemma_of_nat(rest, 30);
    Double::lemma_of_nat(per_second, 30);
    lemma_pow2_pos(1074);
    Double::lemma_size_zero(billion);
    if rest == 0 {
        Double::lemma_quotient_of_zero(part, billion);
    } else {
        Double::lemma_quotient(part, billion, 1074, 1104, 1074, 1104);
    }
    let num = whole.size() + fraction.size();
    rounding::lemma_pow2_ordered(1044, 1074);
    rounding::lemma_pow2_ordered(1104, 1138);
    lemma_pow2_unfold(1139);
    lemma_pow2_pos(1138);
    lemma_mul_basics_4(pow2(1044) as int);
    lemma_mul_basics_4(pow2(1139) as int);
    rounding::lemma_rounded_bounds(num, 1, 53, 1044, 1139);
    lemma_pow2_strictly_increases(1139, 2098);
    Double::lemma_nearest_finite(false, num, 1);
}

/// The bytes per second, given the bytes in a span of time; zero for the span
/// of no length.
pub fn bytes_per_second(bytes: u64, elapsed: Duration) -> (rate: Double)
    ensures
        rate == rate_of(bytes as nat, elapsed.as_nanos()),
{
    if elapsed.is_zero() {
        Double { bits: 0 }
    } else {
        let seconds = as_secs(elapsed);
        proof {
            lemma2_to64();
            Double::lemma_of_nat(bytes as nat, 64);
            lemma_pow2_pos(1044);
            Double::lemma_size_zero(seconds);
        }
        Double::from_u64(bytes).divided_by(seconds)
    }
}

pub proof fn lemma_hundredths_size(n: u16)
    requires
        n > 0,
    ensures
        hundredths(n as nat).finite(),
        !hundredths(n as nat).negative(),
        pow2(1067) <= hundredths(n as nat).size() <= pow2(1090),
        Double::of_nat(n as nat).finite(),
        !Double::of_nat(n as nat).negative(),
        Double::of_nat(n as nat).magnitude() >= 0x10_0000_0000_0000,
        Double::of_nat(100).finite(),
        !Double::of_nat(100).negative(),
        Double::of_nat(100).magnitude() > 0,
{
    lemma2_to64();
    Double::lemma_of_nat(n as nat, 16);
    Double::lemma_of_nat(100, 7);
    lemma_pow2_pos(1074);
    Double::lemma_size_zero(Double::of_nat(100));
    Double::lemma_quotient(
        Double::of_nat(n as nat),
        Double::of_nat(100),
        1074,
        1090,
        1074,
        1081,
    );
}

/// The number nearest to so many hundredths.
fn from_hundredths(n: u16) -> (number: Double)
    requires
        n > 0,
    ensures
        number == hundredths(n as nat),
        number.finite(),
        !number.negative(),
        pow2(1067) <= number.size() <= pow2(1090),
{
    proof {
        lemma_hundredths_size(n);
    }
    Double::from_u64(n as u64).divided_by(Double::from_u64(100))
}

/// A temperature in kelvins, from 173.15 to 473.15, in degrees Celsius.
pub fn kelvin_to_celsius(kelvin: Double) -> (celsius: Option<Single>)
    ensures
        celsius == celsius_of(kelvin),
{
    let lowest = from_hundredths(17315);
    let highest = from_hundredths(47315);
    if lowest.is_at_most(kelvin) && kelvin.is_at_most(highest) {
        let freezing = from_hundredths(27315);
        proof {
            lemma_pow2_pos(1067);
            Double::lemma_infinity_size();
            Double::lemma_size_ordered(Double { bits: 0x7ff0_0000_0000_0000 }, kelvin);
            lemma_pow2_strictly_increases(1090, 2098);
            Double::lemma_exponent(kelvin, 1067, 1090);
            Double::lemma_exponent(freezing, 1067, 1090);
            lemma_difference_finite(kelvin, freezing);
        }
        Some(kelvin.minus(freezing).narrow())
    } else {
        None
    }
}

pub proof fn lemma_difference_finite(left: Double, right: Double)
    requires
        left.size() <= pow2(1090),
        right.size() <= pow2(1090),
    ensures
        left.difference(right).finite(),
        left.difference(right).size() <= pow2(1090),
{
    let less = left.size() < right.size();
    let num: nat = if less {
        (right.size() - left.size()) as nat
    } else {
        (left.size() - right.size()) as nat
    };
    lemma2_to64();
    lemma2_to64_rest();
    lemma_mul_basics_3(pow2(1090) as int);
    lemma_mul_basics_4(pow2(1090) as int);
    lemma_mul_basics_3(num as int);
    rounding::lemma_rounded_exact(1, 1090, 1, 53);
    rounding::lemma_rounded_ordered(num, 1, pow2(1090), 1, 53);
    lemma_pow2_strictly_increases(1090, 2098);
    Double::lemma_nearest_finite(less, num, 1);
}

fn in_single_precision(value: Double, minimum: i32, maximum: i32) -> (number: Option<Single>)
    ensures
        number == plausible(value, minimum as int, maximum as int),
{
    if !value.is_finite() {
        return None;
    }
    let number = value.narrow();
    if number.is_within(Single::from_i32(minimum), Single::from_i32(maximum)) {
        Some(number)
    } else {
        None
    }
}

/// A percentage from 0 to 100.
pub fn valid_percent(value: Double) -> (percent: Option<Single>)
    ensures
        percent == percent_of(value),
{
    in_single_precision(value, 0, 100)
}

/// A temperature from -50 to 200 degrees Celsius.
pub fn valid_temperature(value: Double) -> (celsius: Option<Single>)
    ensures
        celsius == temperature_of(value),
{
    in_single_precision(value, -50, 200)
}

/// A power from 0 to 10000 watts.
pub fn valid_power(value: Double) -> (watts: Option<Single>)
    ensures
        watts == power_of(value),
{
    in_single_precision(value, 0, 10_000)
}

/// Within one total, a larger value is no smaller a percentage.
pub proof fn lemma_percentage_ordered(low: u64, high: u64, total: u64)
    requires
        low <= high,
    ensures
        percentage_of(low as nat, total as nat).finite(),
        0 <= percentage_of(low as nat, total as nat).units() <= percentage_of(
            high as nat,
            total as nat,
        ).units(),
{
    if total > 0 {
        let one = Double::one();
        let divisor = Double::of_nat(total as nat);
        lemma2_to64();
        lemma_pow2_pos(1074);
        Double::lemma_of_nat(total as nat, 64);
        lemma_of_nat_ordered(low as nat, high as nat);
        lemma_percentage_size(low, total);
        lemma_percentage_size(high, total);
        let low_size = Double::of_nat(low as nat).size();
        let high_size = Double::of_nat(high as nat).size();
        lemma_mul_inequality(low_size as int, high_size as int, one as int);
        lemma_mul_inequality(
            (low_size * one) as int,
            (high_size * one) as int,
            divisor.size() as int,
        );
        rounding::lemma_rounded_ordered(
            low_size * one,
            divisor.size(),
            high_size * one,
            divisor.size(),
            53,
        );
        let low_ratio = Double::of_nat(low as nat).quotient(divisor).size();
        let high_ratio = Double::of_nat(high as nat).quotient(divisor).size();
        let hundred = Double::of_nat(100).size();
        lemma_mul_inequality(low_ratio as int, high_ratio as int, hundred as int);
        lemma_mul_inequality(
            (low_ratio * hundred) as int,
            (high_ratio * hundred) as int,
            one as int,
        );
        rounding::lemma_rounded_ordered(
            low_ratio * hundred,
            one,
            high_ratio * hundred,
            one,
            53,
        );
    } else {
        Double::lemma_size_zero(Double { bits: 0 });
    }
}

/// Nothing is zero percent of any total.
pub proof fn lemma_percentage_of_nothing(total: u64)
    ensures
        percentage_of(0, total as nat) == (Double { bits: 0 }),
{
    if total > 0 {
        let divisor = Double::of_nat(total as nat);
        let hundred = Double::of_nat(100);
        lemma2_to64();
        lemma2_to64_rest();
        lemma_pow2_pos(1074);
        lemma_percentage_size(0, total);
        Double::lemma_of_nat(0, 0);
        Double::lemma_of_nat(total as nat, 64);
        Double::lemma_quotient_of_zero(Double::of_nat(0), divisor);
        lemma_mul_basics_1(hundred.size() as int);
        lemma_mul_basics_1(Double::one() as int);
        rounding::lemma_rounded_exact(0, 0, Double::one(), 53);
        Double::lemma_size_zero(percentage_of(0, total as nat));
    }
}

/// The whole of a total that is not zero is a hundred percent.
pub proof fn lemma_percentage_of_whole(total: u64)
    requires
        total > 0,
    ensures
        percentage_of(total as nat, total as nat) == Double::of_nat(100),
{
    let one = Double::one();
    let number = Double::of_nat(total as nat);
    let hundred = Double::of_nat(100);
    lemma2_to64();
    lemma2_to64_rest();
    lemma_pow2_pos(1074);
    Double::lemma_of_nat(total as nat, 64);
    lemma_percentage_size(total, total);
    // The ratio of a number to itself is one.
    lemma_mul_basics_4(one as int);
    lemma_mul_is_commutative(one as int, number.size() as int);
    rounding::lemma_rounded_exact(1, 1074, number.size(), 53);
    // Hundred times one is hundred.
    Double::lemma_of_nat(100, 7);
    lemma_mul_basics_3((100 * one) as int);
    rounding::lemma_rounded_exact(100, 1074, 1, 53);
    rounding::lemma_rounded_exact(100, 1074, one, 53);
    lemma_mul_is_commutative(one as int, hundred.size() as int);
    let percent = percentage_of(total as nat, total as nat);
    Double::lemma_size_ordered(percent, hundred);
    Double::lemma_size_ordered(hundred, percent);
}

/// A natural number of up to 53 bits is held exactly.
pub proof fn lemma_of_nat_exact(n: nat)
    requires
        n < pow2(53),
    ensures
        Double::of_nat(n).finite(),
        !Double::of_nat(n).negative(),
        Double::of_nat(n).size() == n * Double::one(),
{
    rounding::lemma_pow2_ordered(53, 64);
    Double::lemma_of_nat(n, 64);
    lemma_mul_basics_3((n * Double::one()) as int);
    rounding::lemma_rounded_exact(n, 1074, 1, 53);
}

/// The percentage is exact where the ratio has few bits: a part of `m / 2^k` is
/// `100 * m / 2^k` percent.
pub proof fn lemma_percentage_exact(value: u64, total: u64, m: nat, k: nat)
    requires
        0 < total < pow2(53),
        value < pow2(53),
        value * pow2(k) == m * total,
        100 * m < pow2(53),
        k <= 1074,
    ensures
        percentage_of(value as nat, total as nat).finite(),
        percentage_of(value as nat, total as nat).units() * pow2(k) == 100 * m * Double::one(),
{
    let one = Double::one();
    let rest = pow2((1074 - k) as nat);
    let den = total as nat * one;
    let ratio = m * rest;
    lemma_pow2_pos(1074);
    lemma_pow2_adds(k, (1074 - k) as nat);
    lemma2_to64();
    lemma2_to64_rest();
    lemma_of_nat_exact(value as nat);
    lemma_of_nat_exact(total as nat);
    lemma_of_nat_exact(100);
    lemma_percentage_size(value, total);
    lemma_mul_strictly_positive(total as int, one as int);
    assert(ratio * den == value as nat * one * one) by (nonlinear_arith)
        requires
            ratio == m * rest,
            den == total as nat * one,
            one == pow2(k) * rest,
            value * pow2(k) == m * total,
    ;
    rounding::lemma_rounded_exact(m, (1074 - k) as nat, den, 53);
    assert(100 * m * rest * one == ratio * (100 * one)) by (nonlinear_arith)
        requires
            ratio == m * rest,
    ;
    rounding::lemma_rounded_exact(100 * m, (1074 - k) as nat, one, 53);
    assert(100 * m * rest * pow2(k) == 100 * m * one) by (nonlinear_arith)
        requires
            one == pow2(k) * rest,
    ;
}

/// A value that is at most the total is between zero and a hundred percent.
pub proof fn lemma_percentage_bounded(value: u64, total: u64)
    requires
        value <= total,
    ensures
        percentage_of(value as nat, total as nat).finite(),
        0 <= percentage_of(value as nat, total as nat).units() <= 100 * Double::one(),
{
    lemma_percentage_ordered(value, total, total);
    if total > 0 {
        lemma_percentage_of_whole(total);
        lemma2_to64();
        lemma2_to64_rest();
        Double::lemma_of_nat(100, 7);
        lemma_mul_basics_3((100 * Double::one()) as int);
        rounding::lemma_rounded_exact(100, 1074, 1, 53);
    } else {
        Double::lemma_size_zero(Double { bits: 0 });
        lemma_pow2_pos(1074);
    }
}

/// A rate is a number, and more bytes in the same time are no lower a rate, for
/// every span of up to `2^64` seconds.
pub proof fn lemma_rate_ordered(low: u64, high: u64, nanos: nat)
    requires
        low <= high,
        nanos < 0x1_0000_0000_0000_0000 * NANOS_PER_SECOND,
    ensures
        rate_of(low as nat, nanos).finite(),
        0 <= rate_of(low as nat, nanos).units() <= rate_of(high as nat, nanos).units(),
{
    if nanos > 0 {
        let one = Double::one();
        let seconds = seconds_of(nanos);
        lemma_pow2_pos(1044);
        lemma_seconds_size(nanos);
        lemma_of_nat_ordered(low as nat, high as nat);
        let low_size = Double::of_nat(low as nat).size();
        let high_size = Double::of_nat(high as nat).size();
        lemma_mul_inequality(low_size as int, high_size as int, one as int);
        lemma_mul_inequality(
            (low_size * one) as int,
            (high_size * one) as int,
            seconds.size() as int,
        );
        rounding::lemma_rounded_ordered(
            low_size * one,
            seconds.size(),
            high_size * one,
            seconds.size(),
            53,
        );
        lemma_rate_size(low, nanos);
        lemma_rate_size(high, nanos);
    } else {
        Double::lemma_size_zero(Double { bits: 0 });
    }
}

/// Whole seconds of up to 53 bits are held exactly.
pub proof fn lemma_whole_seconds(secs: u64)
    requires
        0 < secs < pow2(53),
    ensures
        0 < secs as nat * NANOS_PER_SECOND as nat,
        (secs as nat * NANOS_PER_SECOND as nat) < 0x1_0000_0000_0000_0000 * NANOS_PER_SECOND,
        seconds_of(secs as nat * NANOS_PER_SECOND as nat).size() == secs as nat * Double::one(),
        pow2(1044) <= seconds_of(secs as nat * NANOS_PER_SECOND as nat).size() <= pow2(1139),
{
    let one = Double::one();
    let per_second = NANOS_PER_SECOND as nat;
    let nanos = secs as nat * per_second;
    let nothing = Double::of_nat(0);
    let billion = Double::of_nat(per_second);
    lemma_pow2_pos(1074);
    lemma_pow2_pos(1044);
    lemma2_to64();
    lemma2_to64_rest();
    lemma_fundamental_div_mod_converse(nanos as int, per_second as int, secs as int, 0);
    lemma_seconds_size(nanos);
    lemma_of_nat_exact(secs as nat);
    Double::lemma_of_nat(0, 0);
    Double::lemma_size_zero(billion);
    Double::lemma_quotient_of_zero(nothing, billion);
    let size = secs as nat * one;
    lemma_mul_basics_3(size as int);
    rounding::lemma_rounded_exact(secs as nat, 1074, 1, 53);
    lemma_mul_inequality(secs as int, pow2(53) as int, one as int);
    lemma_pow2_adds(53, 1074);
    lemma_pow2_strictly_increases(1127, 2098);
    Double::lemma_nearest_finite(false, size, 1);
}

/// The rate over whole seconds is exact where it has few bits: `m / 2^k` bytes
/// per second.
pub proof fn lemma_rate_exact(bytes: u64, secs: u64, m: nat, k: nat)
    requires
        bytes < pow2(53),
        0 < secs < pow2(53),
        bytes * pow2(k) == m * secs,
        m < pow2(53),
        k <= 1074,
    ensures
        rate_of(bytes as nat, secs as nat * NANOS_PER_SECOND as nat).finite(),
        rate_of(bytes as nat, secs as nat * NANOS_PER_SECOND as nat).units() * pow2(k) == m
            * Double::one(),
{
    let one = Double::one();
    let nanos = secs as nat * NANOS_PER_SECOND as nat;
    let size = secs as nat * one;
    lemma_pow2_pos(1074);
    lemma_of_nat_exact(bytes as nat);
    lemma_whole_seconds(secs);
    lemma_rate_size(bytes, nanos);
    let rest = pow2((1074 - k) as nat);
    lemma_pow2_adds(k, (1074 - k) as nat);
    lemma_mul_strictly_positive(secs as int, one as int);
    assert(m * rest * size == bytes as nat * one * one) by (nonlinear_arith)
        requires
            size == secs as nat * one,
            one == pow2(k) * rest,
            bytes * pow2(k) == m * secs,
    ;
    rounding::lemma_rounded_exact(m, (1074 - k) as nat, size, 53);
    assert(m * rest * pow2(k) == m * one) by (nonlinear_arith)
        requires
            one == pow2(k) * rest,
    ;
}

pub proof fn lemma_rate_size(bytes: u64, nanos: nat)
    requires
        nanos > 0,
        pow2(1044) <= seconds_of(nanos).size() <= pow2(1139),
    ensures
        rate_of(bytes as nat, nanos).finite(),
        !rate_of(bytes as nat, nanos).negative(),
        rate_of(bytes as nat, nanos).size() == rounding::rounded(
            Double::of_nat(bytes as nat).size() * Double::one(),
            seconds_of(nanos).size(),
            53,
        ),
{
    lemma2_to64();
    lemma_pow2_pos(1044);
    Double::lemma_of_nat(bytes as nat, 64);
    let number = Double::of_nat(bytes as nat);
    if bytes == 0 {
        Double::lemma_quotient_of_zero(number, seconds_of(nanos));
        lemma2_to64_rest();
        lemma_mul_basics_1(Double::one() as int);
        lemma_mul_basics_1(seconds_of(nanos).size() as int);
        rounding::lemma_rounded_exact(0, 0, seconds_of(nanos).size(), 53);
    } else {
        Double::lemma_quotient(number, seconds_of(nanos), 1074, 1138, 1044, 1139);
    }
}

proof fn lemma_of_nat_ordered(low: nat, high: nat)
    requires
        low <= high <= u64::MAX,
    ensures
        Double::of_nat(low).size() <= Double::of_nat(high).size(),
{
    let one = Double::one();
    lemma2_to64();
    Double::lemma_of_nat(low, 64);
    Double::lemma_of_nat(high, 64);
    lemma_mul_inequality(low as int, high as int, one as int);
    lemma_mul_basics_3((low * one) as int);
    lemma_mul_basics_3((high * one) as int);
    rounding::lemma_rounded_ordered(low * one, 1, high * one, 1, 53);
}

/// The ratio and the percentage are finite and rounded from their quotients.
pub proof fn lemma_percentage_size(value: u64, total: u64)
    requires
        total > 0,
    ensures
        ({
            let dividend = Double::of_nat(value as nat);
            let divisor = Double::of_nat(total as nat);
            let ratio = dividend.quotient(divisor);
            let percent = percentage_of(value as nat, total as nat);
            &&& ratio.size() == rounding::rounded(
                dividend.size() * Double::one(),
                divisor.size(),
                53,
            )
            &&& percent.finite()
            &&& !percent.negative()
            &&& percent.size() == rounding::rounded(
                ratio.size() * Double::of_nat(100).size(),
                Double::one(),
                53,
            )
        }),
{
    let dividend = Double::of_nat(value as nat);
    let divisor = Double::of_nat(total as nat);
    let ratio = dividend.quotient(divisor);
    let hundred = Double::of_nat(100);
    let one = Double::one();
    lemma2_to64();
    lemma2_to64_rest();
    lemma_pow2_pos(1074);
    Double::lemma_of_nat(value as nat, 64);
    Double::lemma_of_nat(total as nat, 64);
    Double::lemma_of_nat(100, 7);
    if value == 0 {
        Double::lemma_quotient_of_zero(dividend, divisor);
        lemma_mul_basics_1(one as int);
        lemma_mul_basics_1(divisor.size() as int);
        rounding::lemma_rounded_exact(0, 0, divisor.size(), 53);
    } else {
        Double::lemma_quotient(dividend, divisor, 1074, 1138, 1074, 1138);
    }
    let num = ratio.size() * hundred.size();
    lemma_pow2_adds(1138, 1081);
    lemma_pow2_adds(1145, 1074);
    lemma_pow2_pos(1138);
    lemma_mul_inequality(ratio.size() as int, pow2(1138) as int, hundred.size() as int);
    lemma_mul_is_commutative(pow2(1138) as int, hundred.size() as int);
    lemma_mul_inequality(hundred.size() as int, pow2(1081) as int, pow2(1138) as int);
    lemma_mul_is_commutative(pow2(1138) as int, pow2(1081) as int);
    lemma_mul_basics_3(num as int);
    lemma_mul_basics_4(pow2(1145) as int);
    rounding::lemma_rounded_exact(1, 1145, 1, 53);
    lemma_mul_basics_3(pow2(1145) as int);
    rounding::lemma_rounded_ordered(num, one, pow2(1145), 1, 53);
    lemma_pow2_strictly_increases(1145, 2098);
    Double::lemma_nearest_finite(false, num, one);
}

/// A plausible temperature is a number in degrees Celsius, too.
pub proof fn lemma_celsius_finite(kelvin: Double)
    ensures
        celsius_of(kelvin) matches Some(celsius) ==> celsius.finite(),
{
    if celsius_of(kelvin) is Some {
        let freezing = hundredths(27315);
        lemma_hundredths_size(17315);
        lemma_hundredths_size(47315);
        lemma_hundredths_size(27315);
        lemma_difference_finite(kelvin, freezing);
        let size = kelvin.difference(freezing).size();
        lemma2_to64();
        lemma_pow2_pos(925);
        lemma_pow2_adds(925, 165);
        lemma_mul_basics_3(pow2(165) as int);
        lemma_mul_basics_4(pow2(165) as int);
        lemma_mul_basics_3(size as int);
        lemma_mul_is_commutative(pow2(925) as int, pow2(165) as int);
        rounding::lemma_rounded_exact(1, 165, 1, 24);
        rounding::lemma_rounded_ordered(size, pow2(925), pow2(165), 1, 24);
        lemma_pow2_strictly_increases(165, 277);
        Single::lemma_nearest_finite(kelvin.difference(freezing).negative(), size, pow2(925));
    }
}

} // verus!

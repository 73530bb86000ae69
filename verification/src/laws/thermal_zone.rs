//! Laws of the thermal zone counter.

use crate::float::rounding;
use crate::float::{Double, Single};
use crate::metrics;
use crate::thermal_zone;
use crate::thermal_zone::ThermalZoneStep;
use vstd::arithmetic::div_mod::*;
use vstd::arithmetic::mul::*;
use vstd::arithmetic::power2::*;
use vstd::prelude::*;

verus! {

/// The value is read after the query was opened, the counter added and two
/// samples taken, all with success and with handles that are valid.
pub proof fn law_steps(first: bool, second: bool)
    ensures
        ThermalZoneStep::OpenQuery.step_after(0, true) == ThermalZoneStep::AddCounter,
        ThermalZoneStep::AddCounter.step_after(0, true) == ThermalZoneStep::FirstSample,
        ThermalZoneStep::FirstSample.step_after(0, first) == ThermalZoneStep::SecondSample,
        ThermalZoneStep::SecondSample.step_after(0, second) == ThermalZoneStep::ReadValue,
{
}

/// A call that fails, or gives a handle that is not valid, ends the reading for
/// good.
pub proof fn law_gives_up(step: ThermalZoneStep, status: u32, valid_handle: bool)
    ensures
        status != 0 ==> step.step_after(status, valid_handle) == ThermalZoneStep::GiveUp,
        !valid_handle && (step == ThermalZoneStep::OpenQuery || step
            == ThermalZoneStep::AddCounter) ==> step.step_after(status, valid_handle)
            == ThermalZoneStep::GiveUp,
        ThermalZoneStep::GiveUp.step_after(status, valid_handle) == ThermalZoneStep::GiveUp,
{
}

/// A counter has a value exactly where it was read with success, it is valid,
/// new or not, and it is plausible.
pub proof fn law_counter(status: u32, counter_status: u32, kelvin: Double)
    ensures
        status != 0 ==> thermal_zone::counter_celsius(status, counter_status, kelvin) is None,
        counter_status > 1 ==> thermal_zone::counter_celsius(
            status,
            counter_status,
            kelvin,
        ) is None,
        status == 0 && counter_status <= 1 ==> thermal_zone::counter_celsius(
            status,
            counter_status,
            kelvin,
        ) == metrics::celsius_of(kelvin),
{
}

/// A rounded quotient is off by at most the `2^p`-th part of the exact one, or by
/// half a unit.
proof fn lemma_rounded_off(num: nat, den: nat, p: nat)
    requires
        den > 0,
        p > 0,
    ensures
        ({
            let off = rounding::rounded(num, den, p) * den - num;
            &&& 2 * off * pow2(p) <= 2 * num + den * pow2(p)
            &&& -2 * off * pow2(p) <= 2 * num + den * pow2(p)
        }),
{
    let top = pow2(p);
    lemma_pow2_pos(p);
    let off = rounding::rounded(num, den, p) * den - num;
    if num >= den * pow2((p - 1) as nat) {
        crate::laws::metrics::law_rounded_near(num, den, p);
        assert(2 * off * top <= 2 * num + den * top && -2 * off * top <= 2 * num + den * top)
            by (nonlinear_arith)
            requires
                off * top <= num,
                -off * top <= num,
                den > 0,
                top > 0,
        ;
    } else {
        lemma_pow2_unfold(p);
        assert(num < den * top) by (nonlinear_arith)
            requires
                num < den * pow2((p - 1) as nat),
                top == 2 * pow2((p - 1) as nat),
        ;
        lemma_fundamental_div_mod(num as int, den as int);
        lemma_mul_is_commutative((num / den) as int, den as int);
        lemma_mul_is_distributive_add_other_way(den as int, (num / den) as int, 1);
        assert(2 * off <= den && -2 * off <= den);
        assert(2 * off * top <= 2 * num + den * top && -2 * off * top <= 2 * num + den * top)
            by (nonlinear_arith)
            requires
                2 * off <= den,
                -2 * off <= den,
                top > 0,
                num >= 0,
        ;
    }
}

/// So many hundredths are held up to a hundred-thousandth.
proof fn lemma_hundredths_near(n: u16)
    requires
        n > 0,
    ensures
        ({
            let off = 100 * metrics::hundredths(n as nat).units() - n * Double::one();
            &&& -Double::one() <= 1000 * off <= Double::one()
        }),
{
    let one = Double::one();
    let number = metrics::hundredths(n as nat);
    let v = n as nat * one;
    lemma2_to64();
    lemma2_to64_rest();
    lemma_pow2_pos(1074);
    metrics::lemma_hundredths_size(n);
    metrics::lemma_of_nat_exact(n as nat);
    metrics::lemma_of_nat_exact(100);
    let den = 100 * one;
    let num = v * one;
    Double::lemma_of_nat(n as nat, 16);
    Double::lemma_of_nat(100, 7);
    Double::lemma_quotient(Double::of_nat(n as nat), Double::of_nat(100), 1074, 1090, 1074, 1081);
    lemma_pow2_adds(60, 1014);
    lemma_pow2_pos(1014);
    assert(one >= 100 * pow2(52)) by (nonlinear_arith)
        requires
            one == pow2(60) * pow2(1014),
            pow2(1014) >= 1,
            pow2(60) >= 100 * pow2(52),
    ;
    assert(num >= den * pow2(52)) by (nonlinear_arith)
        requires
            num == n as nat * one * one,
            den == 100 * one,
            n >= 1,
            one >= 100 * pow2(52),
            one > 0,
    ;
    crate::laws::metrics::law_rounded_near(num, den, 53);
    let off = 100 * number.size() - v;
    let b = pow2(53);
    assert(off * b <= v && -off * b <= v) by (nonlinear_arith)
        requires
            (number.size() * den - num) * b <= num,
            (num - number.size() * den) * b <= num,
            den == 100 * one,
            num == v * one,
            off == 100 * number.size() - v,
            one > 0,
    ;
    assert(-one <= 1000 * off <= one) by (nonlinear_arith)
        requires
            off * b <= v,
            -off * b <= v,
            v == n as nat * one,
            n < 65536,
            b >= 65536 * 1000,
            one > 0,
    ;
}

/// A temperature from 173.16 to 473.14 kelvins is plausible; one up to 173.14 or
/// from 473.16 on is not, nor is what is not a finite number.
pub proof fn law_celsius_range(kelvin: Double)
    ensures
        !kelvin.finite() ==> metrics::celsius_of(kelvin) is None,
        kelvin.finite() && 17316 * Double::one() <= 100 * kelvin.units() <= 47314 * Double::one()
            ==> metrics::celsius_of(kelvin) is Some,
        100 * kelvin.units() <= 17314 * Double::one() ==> metrics::celsius_of(kelvin) is None,
        100 * kelvin.units() >= 47316 * Double::one() ==> metrics::celsius_of(kelvin) is None,
{
    lemma_pow2_pos(1074);
    metrics::lemma_hundredths_size(17315);
    metrics::lemma_hundredths_size(47315);
    lemma_hundredths_near(17315);
    lemma_hundredths_near(47315);
    Double::lemma_infinity_size();
    Double::lemma_size_ordered(Double { bits: 0x7ff0_0000_0000_0000 }, kelvin);
    lemma_pow2_strictly_increases(1090, 2098);
}

/// A plausible temperature in degrees Celsius is that in kelvins less 273.15,
/// up to a hundredth of a degree.
pub proof fn law_celsius_near(kelvin: Double, celsius: Single)
    requires
        metrics::celsius_of(kelvin) == Some(celsius),
    ensures
        celsius.finite(),
        ({
            let exact = 100 * kelvin.units() - 27315 * Double::one();
            let shown = 100 * celsius.units() * pow2(925);
            &&& shown - exact <= Double::one()
            &&& exact - shown <= Double::one()
        }),
{
    let one = Double::one();
    let freezing = metrics::hundredths(27315);
    let difference = kelvin.difference(freezing);
    let den = pow2(925);
    lemma2_to64();
    lemma2_to64_rest();
    lemma_pow2_pos(1074);
    lemma_pow2_pos(925);
    metrics::lemma_celsius_finite(kelvin);
    metrics::lemma_hundredths_size(17315);
    metrics::lemma_hundredths_size(47315);
    metrics::lemma_hundredths_size(27315);
    lemma_hundredths_near(17315);
    lemma_hundredths_near(47315);
    lemma_hundredths_near(27315);
    metrics::lemma_difference_finite(kelvin, freezing);
    let less = kelvin.size() < freezing.size();
    let num: nat = if less {
        (freezing.size() - kelvin.size()) as nat
    } else {
        (kelvin.size() - freezing.size()) as nat
    };
    // The difference is off by at most the last bits of 200 degrees.
    lemma_rounded_off(num, 1, 53);
    lemma_mul_basics_3(rounding::rounded(num, 1, 53) as int);
    lemma_pow2_strictly_increases(1090, 2098);
    lemma_rounded_difference(num);
    Double::lemma_nearest_finite(less, num, 1);
    let size = difference.size();
    let b = pow2(53);
    assert(num <= 201 * one);
    lemma_pow2_adds(60, 1014);
    lemma_pow2_adds(54, 960);
    lemma_pow2_pos(960);
    lemma_pow2_pos(1014);
    let off = size - num;
    assert(-one <= 1000 * off <= one) by (nonlinear_arith)
        requires
            2 * off * b <= 2 * num + 1 * b,
            -2 * off * b <= 2 * num + 1 * b,
            num <= 201 * one,
            b >= 1_000_000_000,
            one == pow2(60) * pow2(1014),
            pow2(60) >= 1_000_000_000,
            pow2(1014) >= 1,
    {
        assert(one >= 1_000_000_000) by (nonlinear_arith)
            requires
                one == pow2(60) * pow2(1014),
                pow2(60) >= 1_000_000_000,
                pow2(1014) >= 1,
        ;
        let more = 2 * off - 1;
        let less_than = -2 * off - 1;
        assert(more * 1_000_000_000 <= 402 * one) by (nonlinear_arith)
            requires
                more * b <= 402 * one,
                b >= 1_000_000_000,
                one >= 0,
        ;
        assert(less_than * 1_000_000_000 <= 402 * one) by (nonlinear_arith)
            requires
                less_than * b <= 402 * one,
                b >= 1_000_000_000,
                one >= 0,
        ;
    }
    // So is the number in single precision.
    lemma_rounded_off(size, den, 24);
    lemma_narrow_bound(size);
    Single::lemma_nearest_finite(difference.negative(), size, den);
    let shown = celsius.size() * den;
    let off2 = shown - size;
    let t = pow2(24);
    lemma_pow2_adds(149, 925);
    lemma_pow2_adds(60, 89);
    lemma_pow2_pos(89);
    assert(-one <= 1000 * off2 <= one) by (nonlinear_arith)
        requires
            2 * off2 * t <= 2 * size + den * t,
            -2 * off2 * t <= 2 * size + den * t,
            size <= 202 * one,
            t == 16777216,
            one == pow2(149) * den,
            pow2(149) == pow2(60) * pow2(89),
            pow2(60) >= 1_000_000_000,
            pow2(89) >= 1,
            den > 0,
    {
        assert(pow2(149) >= 1_000_000_000) by (nonlinear_arith)
            requires
                pow2(149) == pow2(60) * pow2(89),
                pow2(60) >= 1_000_000_000,
                pow2(89) >= 1,
        ;
        assert(one >= 1_000_000_000 * den) by (nonlinear_arith)
            requires
                one == pow2(149) * den,
                pow2(149) >= 1_000_000_000,
                den > 0,
        ;
    }
    assert(celsius.negative() == less);
    lemma_mul_unary_negation(celsius.size() as int, den as int);
    assert(100 * celsius.units() * den == 100 * (celsius.units() * den)) by (nonlinear_arith);
}

/// A difference of at most 201 is rounded to no more than 202.
proof fn lemma_rounded_difference(num: nat)
    ensures
        num <= 201 * Double::one() ==> rounding::rounded(num, 1, 53) <= 201 * Double::one(),
        num <= 201 * Double::one() ==> rounding::rounded(num, 1, 53) < pow2(2098),
{
    let one = Double::one();
    lemma2_to64();
    lemma2_to64_rest();
    lemma_pow2_pos(1074);
    if num <= 201 * one {
        rounding::lemma_rounded_exact(201, 1074, 1, 53);
        lemma_mul_basics_3((201 * one) as int);
        lemma_mul_basics_3(num as int);
        rounding::lemma_rounded_ordered(num, 1, 201 * one, 1, 53);
        lemma_pow2_adds(8, 1074);
        lemma_pow2_strictly_increases(1082, 2098);
        assert(201 * one < pow2(8) * one) by (nonlinear_arith)
            requires
                pow2(8) == 256,
                one > 0,
        ;
    }
}

proof fn lemma_narrow_bound(size: nat)
    requires
        size <= 202 * Double::one(),
    ensures
        rounding::rounded(size, pow2(925), 24) < pow2(277),
{
    let den = pow2(925);
    lemma2_to64();
    lemma_pow2_pos(925);
    lemma_pow2_pos(149);
    lemma_pow2_adds(149, 925);
    rounding::lemma_rounded_exact(202, 149, den, 24);
    let bound = 202 * pow2(149) * den;
    assert(bound == 202 * Double::one()) by (nonlinear_arith)
        requires
            bound == 202 * pow2(149) * den,
            Double::one() == pow2(149) * den,
    ;
    lemma_mul_inequality(size as int, bound as int, den as int);
    rounding::lemma_rounded_ordered(size, den, bound, den, 24);
    lemma_pow2_adds(8, 149);
    lemma_pow2_strictly_increases(157, 277);
    assert(202 * pow2(149) < pow2(8) * pow2(149)) by (nonlinear_arith)
        requires
            pow2(8) == 256,
            pow2(149) > 0,
    ;
}

} // verus!

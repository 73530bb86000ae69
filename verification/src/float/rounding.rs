//! Rounding of an exact quotient to a binary floating-point number.
//!
//! A number of a format with `p` significant bits is a whole multiple of the
//! format's smallest positive number, its *unit*. A value is therefore a
//! natural number of units, and rounding takes the exact quotient `num / den`,
//! counted in units, to the nearest number that the format can hold.

use vstd::arithmetic::div_mod::*;
use vstd::arithmetic::mul::*;
use vstd::arithmetic::power2::*;
use vstd::prelude::*;

verus! {

/// The natural number nearest to `num / den`; of two equally near ones, the
/// even one.
pub open spec fn nearest_even(num: nat, den: nat) -> nat {
    let below = num / den;
    let rest = num % den;
    if 2 * rest < den || (2 * rest == den && below % 2 == 0) {
        below
    } else {
        below + 1
    }
}

/// The quotient `num / den` rounded to `p` significant bits, ties to even.
///
/// Below `2^p` every whole number can be held; above, numbers are held at
/// twice the spacing of the binade below.
pub open spec fn rounded(num: nat, den: nat, p: nat) -> nat
    decreases num - den,
    when den > 0 && p > 0
{
    if num < den * pow2(p) {
        nearest_even(num, den)
    } else {
        proof {
            lemma_pow2_unfold(p);
            lemma_pow2_pos((p - 1) as nat);
            assert(den * pow2(p) >= 2 * den) by (nonlinear_arith)
                requires
                    pow2(p) >= 2,
            ;
        }
        2 * rounded(num, 2 * den, p)
    }
}

/// The units in the number whose bits, without the sign, are `magnitude`.
///
/// The low `p - 1` bits are the fraction, the bits above them the exponent.
/// Exponent zero holds the numbers below `2^(p - 1)` units as they are.
pub open spec fn magnitude_units(magnitude: nat, p: nat) -> nat
    recommends
        p > 0,
{
    let hidden = pow2((p - 1) as nat);
    if magnitude < hidden {
        magnitude
    } else {
        (magnitude % hidden + hidden) * pow2((magnitude / hidden - 1) as nat)
    }
}

/// Scaling numerator and denominator alike keeps the nearest number.
proof fn lemma_nearest_even_scaled(num: nat, den: nat, factor: nat)
    requires
        den > 0,
        factor > 0,
    ensures
        nearest_even(num * factor, den * factor) == nearest_even(num, den),
{
    let below = num / den;
    let rest = num % den;
    lemma_fundamental_div_mod(num as int, den as int);
    lemma_mod_bound(num as int, den as int);
    assert(num * factor == (den * factor) * below + rest * factor) by (nonlinear_arith)
        requires
            num == den * below + rest,
    ;
    assert(0 <= rest * factor < den * factor) by (nonlinear_arith)
        requires
            0 <= rest < den,
            factor > 0,
    ;
    lemma_fundamental_div_mod_converse(
        (num * factor) as int,
        (den * factor) as int,
        below as int,
        (rest * factor) as int,
    );
    assert((2 * rest < den) == (2 * (rest * factor) < den * factor)) by (nonlinear_arith)
        requires
            factor > 0,
    ;
    assert((2 * rest == den) == (2 * (rest * factor) == den * factor)) by (nonlinear_arith)
        requires
            factor > 0,
    ;
}

/// What `rounded` is once the spacing `2^k` of the quotient's binade is known.
proof fn lemma_rounded_at(num: nat, den: nat, p: nat, k: nat)
    requires
        den > 0,
        p > 0,
        num < den * pow2(p + k),
        k > 0 ==> num >= den * pow2((p + k - 1) as nat),
    ensures
        rounded(num, den, p) == nearest_even(num, den * pow2(k)) * pow2(k),
    decreases k,
{
    if k == 0 {
        lemma2_to64();
    } else {
        lemma_pow2_unfold(k);
        lemma_pow2_unfold(p + k);
        assert(den * pow2(p + k) == 2 * den * pow2((p + k - 1) as nat)) by (nonlinear_arith)
            requires
                pow2(p + k) == 2 * pow2((p + k - 1) as nat),
        ;
        if k > 1 {
            lemma_pow2_unfold((p + k - 1) as nat);
            assert(den * pow2((p + k - 1) as nat) == 2 * den * pow2((p + k - 2) as nat))
                by (nonlinear_arith)
                requires
                    pow2((p + k - 1) as nat) == 2 * pow2((p + k - 2) as nat),
            ;
        }
        lemma_pow2_ordered(p, (p + k - 1) as nat);
        assert(den * pow2(p) <= den * pow2((p + k - 1) as nat)) by (nonlinear_arith)
            requires
                pow2(p) <= pow2((p + k - 1) as nat),
        ;
        lemma_rounded_at(num, 2 * den, p, (k - 1) as nat);
        let spacing = pow2((k - 1) as nat);
        assert(2 * den * spacing == den * pow2(k)) by (nonlinear_arith)
            requires
                pow2(k) == 2 * spacing,
        ;
        let m = nearest_even(num, den * pow2(k));
        assert(2 * (m * spacing) == m * pow2(k)) by (nonlinear_arith)
            requires
                pow2(k) == 2 * spacing,
        ;
    }
}

/// Comparison of `num - m * den` with half of `den` settles the nearest number.
proof fn lemma_nearest_even_by_half(num: nat, den: nat, m: nat, half: bool, more: bool)
    requires
        den > 0,
        m * den <= num < (m + 1) * den,
        half <==> 2 * (num - m * den) >= den,
        more <==> 2 * (num - m * den) != (if half { den as int } else { 0 }),
    ensures
        nearest_even(num, den) == (if half && (more || m % 2 == 1) { m + 1 } else { m }),
{
    assert(num == den * m + (num - m * den)) by (nonlinear_arith);
    assert(num - m * den < den) by (nonlinear_arith)
        requires
            num < (m + 1) * den,
    ;
    lemma_fundamental_div_mod_converse(num as int, den as int, m as int, num - m * den);
}

/// The bits of the number that holds `m` units of spacing `2^k`.
proof fn lemma_magnitude_units_of(m: nat, k: nat, p: nat)
    requires
        p > 0,
        m <= pow2(p),
        k > 0 ==> m >= pow2((p - 1) as nat),
    ensures
        magnitude_units(k * pow2((p - 1) as nat) + m, p) == m * pow2(k),
{
    let hidden = pow2((p - 1) as nat);
    lemma_pow2_pos((p - 1) as nat);
    lemma_pow2_unfold(p);
    lemma2_to64();
    let magnitude = k * hidden + m;
    if m < hidden {
    } else if m < 2 * hidden {
        assert(magnitude == hidden * (k + 1) + (m - hidden)) by (nonlinear_arith)
            requires
                magnitude == k * hidden + m,
        ;
        lemma_fundamental_div_mod_converse(
            magnitude as int,
            hidden as int,
            (k + 1) as int,
            m - hidden,
        );
        assert(magnitude >= hidden) by (nonlinear_arith)
            requires
                magnitude == k * hidden + m,
                m >= hidden,
        ;
    } else {
        assert(magnitude == hidden * (k + 2) + 0) by (nonlinear_arith)
            requires
                magnitude == k * hidden + m,
                m == 2 * hidden,
        ;
        lemma_fundamental_div_mod_converse(magnitude as int, hidden as int, (k + 2) as int, 0);
        assert(magnitude >= hidden) by (nonlinear_arith)
            requires
                magnitude == k * hidden + m,
                m >= hidden,
        ;
        lemma_pow2_unfold(k + 1);
        assert(hidden * pow2(k + 1) == m * pow2(k)) by (nonlinear_arith)
            requires
                m == 2 * hidden,
                pow2(k + 1) == 2 * pow2(k),
        ;
    }
}

/// A larger exponent gives no smaller power of two.
pub proof fn lemma_pow2_ordered(low: nat, high: nat)
    requires
        low <= high,
    ensures
        pow2(low) <= pow2(high),
{
    if low < high {
        lemma_pow2_strictly_increases(low, high);
    }
}

/// Two to the power `n`.
pub(crate) fn power_of_two(n: u32) -> (power: u128)
    requires
        n < 128,
    ensures
        power == pow2(n as nat),
{
    let mut power: u128 = 1;
    let mut i: u32 = 0;
    proof {
        lemma2_to64();
        lemma2_to64_rest();
        lemma_pow2_adds(64, 63);
    }
    while i < n
        invariant
            i <= n < 128,
            power == pow2(i as nat),
            pow2(127) < u128::MAX,
        decreases n - i,
    {
        proof {
            lemma_pow2_unfold((i + 1) as nat);
            lemma_pow2_ordered((i + 1) as nat, 127);
        }
        power = 2 * power;
        i = i + 1;
    }
    power
}

/// Whether `num / den` lies in `[q, q + 1)` steps of `2^exponent`; `sticky`
/// tells whether something is left over the `q` steps.
pub open spec fn brackets(num: nat, den: nat, q: nat, sticky: bool, exponent: int) -> bool {
    let scaled = num * pow2(steps_down(exponent));
    let step = den * pow2(steps_up(exponent));
    &&& q * step <= scaled < (q + 1) * step
    &&& sticky <==> q * step != scaled
}

/// The negative part of an exponent.
pub open spec fn steps_down(exponent: int) -> nat {
    if exponent < 0 {
        (-exponent) as nat
    } else {
        0
    }
}

/// The positive part of an exponent.
pub open spec fn steps_up(exponent: int) -> nat {
    if exponent > 0 {
        exponent as nat
    } else {
        0
    }
}

/// `scaled` lies in `[m, m + 1)` steps; `rest` tells whether it is above `m`.
spec fn bracketed(scaled: nat, step: nat, m: nat, rest: bool) -> bool {
    &&& m * step <= scaled < (m + 1) * step
    &&& rest <==> m * step != scaled
}

/// Where `scaled` lies between `m` and `m + 1` steps: `half` tells whether it
/// reaches the middle, `more` whether it is above the point that `half` names.
spec fn positioned(scaled: nat, step: nat, m: nat, half: bool, more: bool) -> bool {
    &&& half <==> 2 * (scaled - m * step) >= step
    &&& more <==> 2 * (scaled - m * step) != (if half {
        step as int
    } else {
        0
    })
}

/// Doubling the step moves the lowest bit of `m` to the middle.
proof fn lemma_next_position(scaled: nat, step: nat, m: nat, rest: bool)
    requires
        step > 0,
        bracketed(scaled, step, m, rest),
    ensures
        bracketed(scaled, 2 * step, m / 2, m % 2 == 1 || rest),
        positioned(scaled, 2 * step, m / 2, m % 2 == 1, rest),
{
    let next = m / 2;
    let low = m % 2;
    assert(m * step == next * (2 * step) + low * step) by (nonlinear_arith)
        requires
            m == 2 * next + low,
    ;
    assert((m + 1) * step == m * step + step) by (nonlinear_arith);
    assert((next + 1) * (2 * step) == next * (2 * step) + 2 * step) by (nonlinear_arith);
    assert(low == 0 ==> low * step == 0);
    assert(low == 1 ==> low * step == step);
}

/// The bits of `num / den` units, rounded to `p` significant bits.
///
/// The quotient comes as `q` steps of `2^exponent` units and the knowledge
/// whether more than that is left.
pub(crate) fn round_quotient(
    q: u128,
    sticky: bool,
    exponent: i32,
    p: u32,
    Ghost(num): Ghost<nat>,
    Ghost(den): Ghost<nat>,
) -> (magnitude: u64)
    requires
        2 <= p <= 53,
        -4000 <= exponent <= 3800,
        den > 0,
        brackets(num, den, q as nat, sticky, exponent as int),
        sticky ==> q >= pow2(p as nat),
    ensures
        magnitude_units(magnitude as nat, p as nat) == rounded(num, den, p as nat),
{
    let ghost down = steps_down(exponent as int);
    let ghost scaled = num * pow2(down);
    let hidden: u128 = power_of_two(p - 1);
    let mut m: u128 = q;
    let mut k: i32 = exponent;
    proof {
        lemma_pow2_unfold(p as nat);
        lemma_pow2_ordered((p - 1) as nat, 52);
        lemma2_to64();
        lemma2_to64_rest();
    }
    // An exact value with few bits is spread over finer steps.
    while m < hidden && k > 0
        invariant
            2 <= p <= 53,
            hidden == pow2((p - 1) as nat),
            hidden <= 0x10_0000_0000_0000,
            pow2(p as nat) == 2 * hidden,
            -4000 <= exponent <= 3800,
            exponent <= 0 ==> k == exponent,
            exponent > 0 ==> 0 <= k <= exponent,
            down == steps_down(exponent as int),
            scaled == num * pow2(down),
            sticky ==> m >= pow2(p as nat),
            k + down >= 0,
            ({
                let step = den * pow2((k + down) as nat);
                &&& m * step <= scaled < (m + 1) * step
                &&& sticky <==> m * step != scaled
            }),
        decreases k,
    {
        proof {
            let step = den * pow2((k + down) as nat);
            let finer = den * pow2((k - 1 + down) as nat);
            lemma_pow2_unfold((k + down) as nat);
            assert(step == 2 * finer) by (nonlinear_arith)
                requires
                    step == den * pow2((k + down) as nat),
                    finer == den * pow2((k - 1 + down) as nat),
                    pow2((k + down) as nat) == 2 * pow2((k - 1 + down) as nat),
            ;
            assert((2 * m) * finer == m * step) by (nonlinear_arith)
                requires
                    step == 2 * finer,
            ;
            assert((2 * m) * finer < (2 * m + 1) * finer) by {
                assert(finer > 0) by (nonlinear_arith)
                    requires
                        step == 2 * finer,
                        m * step < (m + 1) * step,
                ;
                lemma_mul_strict_inequality(2 * m as int, 2 * m + 1, finer as int);
            }
        }
        m = 2 * m;
        k = k - 1;
    }
    let ghost start = k as int;
    let ghost first = m as nat;
    let mut half: bool = false;
    let mut more: bool = sticky;
    proof {
        assert(pow2(0) == 1);
        lemma_mul_basics_3(m as int);
    }
    while m >= 2 * hidden || k < 0
        invariant
            2 <= p <= 53,
            den > 0,
            hidden == pow2((p - 1) as nat),
            hidden <= 0x10_0000_0000_0000,
            pow2(p as nat) == 2 * hidden,
            -4000 <= exponent <= 3800,
            -4000 <= start <= 3800,
            start <= k,
            k <= 0 || k <= start + 128,
            down == steps_down(exponent as int),
            scaled == num * pow2(down),
            start + down >= 0,
            sticky ==> first >= 2 * hidden,
            first <= u128::MAX,
            k == start ==> m == first && half == false && more == sticky,
            m * pow2((k - start) as nat) <= first,
            start > 0 ==> first >= hidden,
            k > start && k > 0 ==> m >= hidden,
            bracketed(scaled, den * pow2((k + down) as nat), m as nat, half || more),
            (k > start || !sticky) ==> positioned(
                scaled,
                den * pow2((k + down) as nat),
                m as nat,
                half,
                more,
            ),
        decreases m + steps_down(k as int),
    {
        let bit: bool = m % 2 == 1;
        proof {
            let step = den * pow2((k + down) as nat);
            let wider = den * pow2((k + 1 + down) as nat);
            let next: int = m as int / 2;
            lemma_pow2_pos((p - 1) as nat);
            lemma_pow2_pos((k + down) as nat);
            lemma_mul_strictly_positive(den as int, pow2((k + down) as nat) as int);
            lemma_pow2_unfold((k + 1 + down) as nat);
            assert(wider == 2 * step) by (nonlinear_arith)
                requires
                    step == den * pow2((k + down) as nat),
                    wider == den * pow2((k + 1 + down) as nat),
                    pow2((k + 1 + down) as nat) == 2 * pow2((k + down) as nat),
            ;
            lemma_next_position(scaled, step, m as nat, half || more);
            lemma_pow2_unfold((k + 1 - start) as nat);
            let t = pow2((k - start) as nat);
            lemma_pow2_pos((k - start) as nat);
            assert(next * (2 * t) <= m * t) by (nonlinear_arith)
                requires
                    2 * next <= m,
            ;
            if m >= 2 * hidden && k - start >= 128 {
                lemma_pow2_ordered(128, (k - start) as nat);
                lemma2_to64();
                lemma_pow2_adds(64, 64);
                assert(m * t >= t) by (nonlinear_arith)
                    requires
                        m >= 1,
                ;
            }
        }
        more = more || half;
        half = bit;
        m = m / 2;
        k = k + 1;
    }
    let up: bool = half && (more || m % 2 == 1);
    let ghost below = m as nat;
    if up {
        m = m + 1;
    }
    proof {
        let step = den * pow2((k + down) as nat);
        let unit = den * pow2(k as nat);
        lemma_pow2_pos((k + down) as nat);
        lemma_mul_strictly_positive(den as int, pow2((k + down) as nat) as int);
        lemma_nearest_even_by_half(scaled, step, below, half, more);
        lemma_pow2_adds(k as nat, down);
        assert(step == unit * pow2(down)) by (nonlinear_arith)
            requires
                step == den * pow2((k + down) as nat),
                unit == den * pow2(k as nat),
                pow2((k + down) as nat) == pow2(k as nat) * pow2(down),
        ;
        lemma_pow2_pos(down);
        lemma_pow2_pos(k as nat);
        assert(unit > 0) by (nonlinear_arith)
            requires
                den > 0,
                pow2(k as nat) > 0,
                unit == den * pow2(k as nat),
        ;
        lemma_nearest_even_scaled(num, unit, pow2(down));
        assert(nearest_even(num, unit) == m);
        // The binade of the quotient.
        assert(below * unit <= num < (below + 1) * unit) by (nonlinear_arith)
            requires
                below * step <= scaled < (below + 1) * step,
                step == unit * pow2(down),
                scaled == num * pow2(down),
                pow2(down) > 0,
        ;
        lemma_pow2_adds(p as nat, k as nat);
        assert(num < den * pow2((p + k) as nat)) by (nonlinear_arith)
            requires
                num < (below + 1) * unit,
                below + 1 <= pow2(p as nat),
                unit == den * pow2(k as nat),
                pow2((p + k) as nat) == pow2(p as nat) * pow2(k as nat),
        ;
        if k > 0 {
            lemma_pow2_adds((p - 1) as nat, k as nat);
            assert(num >= den * pow2((p + k - 1) as nat)) by (nonlinear_arith)
                requires
                    num >= below * unit,
                    below >= pow2((p - 1) as nat),
                    unit == den * pow2(k as nat),
                    pow2((p + k - 1) as nat) == pow2((p - 1) as nat) * pow2(k as nat),
            ;
        }
        lemma_rounded_at(num, den, p as nat, k as nat);
        lemma_magnitude_units_of(m as nat, k as nat, p as nat);
        assert(k * hidden <= 3928 * 0x10_0000_0000_0000) by (nonlinear_arith)
            requires
                0 <= k <= 3928,
                0 <= hidden <= 0x10_0000_0000_0000,
        ;
    }
    (k as u64) * (hidden as u64) + (m as u64)
}

/// The next larger bits hold a larger number.
proof fn lemma_magnitude_units_next(magnitude: nat, p: nat)
    requires
        p > 0,
    ensures
        magnitude_units(magnitude, p) < magnitude_units(magnitude + 1, p),
{
    let hidden = pow2((p - 1) as nat);
    lemma_pow2_pos((p - 1) as nat);
    lemma2_to64();
    let next = magnitude + 1;
    if next < hidden {
    } else if next == hidden {
        lemma_fundamental_div_mod_converse(next as int, hidden as int, 1, 0);
        lemma_mul_basics_3(hidden as int);
    } else {
        let high = magnitude / hidden;
        let low = magnitude % hidden;
        lemma_fundamental_div_mod(magnitude as int, hidden as int);
        lemma_mod_bound(magnitude as int, hidden as int);
        assert(high >= 1) by (nonlinear_arith)
            requires
                magnitude == hidden * high + low,
                magnitude >= hidden,
                0 <= low < hidden,
                high >= 0,
        ;
        let spacing = pow2((high - 1) as nat);
        lemma_pow2_pos((high - 1) as nat);
        if low + 1 < hidden {
            lemma_fundamental_div_mod_converse(
                next as int,
                hidden as int,
                high as int,
                (low + 1) as int,
            );
            assert((low + hidden) * spacing < (low + 1 + hidden) * spacing) by (nonlinear_arith)
                requires
                    spacing > 0,
            ;
        } else {
            assert(next == hidden * (high + 1) + 0) by (nonlinear_arith)
                requires
                    magnitude == hidden * high + low,
                    low + 1 == hidden,
                    next == magnitude + 1,
            ;
            lemma_fundamental_div_mod_converse(
                next as int,
                hidden as int,
                (high + 1) as int,
                0,
            );
            lemma_pow2_unfold(high);
            assert((low + hidden) * spacing < hidden * pow2(high)) by (nonlinear_arith)
                requires
                    spacing > 0,
                    low + 1 == hidden,
                    pow2(high) == 2 * spacing,
            ;
        }
    }
}

/// Without the sign, numbers are ordered as their bits are.
pub proof fn lemma_magnitude_units_ordered(low: nat, high: nat, p: nat)
    requires
        p > 0,
        low < high,
    ensures
        magnitude_units(low, p) < magnitude_units(high, p),
    decreases high,
{
    lemma_magnitude_units_next((high - 1) as nat, p);
    if low < high - 1 {
        lemma_magnitude_units_ordered(low, (high - 1) as nat, p);
    }
}

/// A quotient that is no larger has no larger nearest number.
proof fn lemma_nearest_even_ordered(num1: nat, den1: nat, num2: nat, den2: nat)
    requires
        den1 > 0,
        den2 > 0,
        num1 * den2 <= num2 * den1,
    ensures
        nearest_even(num1, den1) <= nearest_even(num2, den2),
{
    let n1 = num1 * den2;
    let n2 = num2 * den1;
    let den = den1 * den2;
    lemma_mul_strictly_positive(den1 as int, den2 as int);
    lemma_nearest_even_scaled(num1, den1, den2);
    lemma_nearest_even_scaled(num2, den2, den1);
    lemma_mul_is_commutative(den1 as int, den2 as int);
    let q1 = n1 / den;
    let q2 = n2 / den;
    lemma_fundamental_div_mod(n1 as int, den as int);
    lemma_fundamental_div_mod(n2 as int, den as int);
    lemma_mod_bound(n1 as int, den as int);
    lemma_mod_bound(n2 as int, den as int);
    lemma_div_is_ordered(n1 as int, n2 as int, den as int);
}

/// A quotient that is no larger is rounded to no larger a number.
pub proof fn lemma_rounded_ordered(num1: nat, den1: nat, num2: nat, den2: nat, p: nat)
    requires
        den1 > 0,
        den2 > 0,
        p > 0,
        num1 * den2 <= num2 * den1,
    ensures
        rounded(num1, den1, p) <= rounded(num2, den2, p),
    decreases num2 - den2,
{
    let top = pow2(p);
    lemma_pow2_pos(p);
    lemma_pow2_unfold(p);
    lemma_pow2_pos((p - 1) as nat);
    if num2 < den2 * top {
        assert(num1 < den1 * top) by (nonlinear_arith)
            requires
                num1 * den2 <= num2 * den1,
                num2 < den2 * top,
                den1 > 0,
                den2 > 0,
        ;
        lemma_nearest_even_ordered(num1, den1, num2, den2);
    } else if num1 < den1 * top {
        assert(num1 * 1 <= top * den1);
        lemma_mul_basics_3(num1 as int);
        lemma_nearest_even_ordered(num1, den1, top, 1);
        lemma_div_basics(top as int);
        assert(nearest_even(top, 1) == top);
        lemma_rounded_reaches(num2, den2, p);
    } else {
        assert(den2 * top >= 2 * den2) by (nonlinear_arith)
            requires
                top >= 2,
        ;
        assert(num1 * (2 * den2) <= num2 * (2 * den1)) by (nonlinear_arith)
            requires
                num1 * den2 <= num2 * den1,
        ;
        lemma_rounded_ordered(num1, 2 * den1, num2, 2 * den2, p);
    }
}

/// A quotient of at least `2^p` is not rounded below it.
proof fn lemma_rounded_reaches(num: nat, den: nat, p: nat)
    requires
        den > 0,
        p > 0,
        num >= den * pow2(p),
    ensures
        rounded(num, den, p) >= pow2(p),
    decreases num - den,
{
    let half = pow2((p - 1) as nat);
    lemma_pow2_unfold(p);
    lemma_pow2_pos((p - 1) as nat);
    assert(den * pow2(p) == 2 * den * half) by (nonlinear_arith)
        requires
            pow2(p) == 2 * half,
    ;
    if num < 2 * den * pow2(p) {
        lemma_mul_basics_3(num as int);
        assert(half * (2 * den) <= num * 1) by (nonlinear_arith)
            requires
                num >= 2 * den * half,
        ;
        lemma_nearest_even_ordered(half, 1, num, 2 * den);
        lemma_div_basics(half as int);
        assert(nearest_even(half, 1) == half);
        assert(rounded(num, 2 * den, p) == nearest_even(num, 2 * den));
    } else {
        assert(den * pow2(p) >= 2 * den) by (nonlinear_arith)
            requires
                pow2(p) >= 2,
        ;
        lemma_rounded_reaches(num, 2 * den, p);
    }
}

/// A number that the format can hold is not changed.
pub proof fn lemma_rounded_exact(m: nat, k: nat, den: nat, p: nat)
    requires
        den > 0,
        p > 0,
        m < pow2(p),
    ensures
        rounded(m * pow2(k) * den, den, p) == m * pow2(k),
    decreases k,
{
    let value = m * pow2(k);
    let num = value * den;
    if num < den * pow2(p) {
        assert(num == den * value + 0) by (nonlinear_arith)
            requires
                num == value * den,
        ;
        lemma_fundamental_div_mod_converse(num as int, den as int, value as int, 0);
    } else {
        if k == 0 {
            lemma2_to64();
            assert(num < den * pow2(p)) by (nonlinear_arith)
                requires
                    num == m * 1 * den,
                    m < pow2(p),
                    den > 0,
            ;
        }
        let half = pow2((k - 1) as nat);
        lemma_pow2_unfold(k);
        assert(num == m * half * (2 * den)) by (nonlinear_arith)
            requires
                num == m * pow2(k) * den,
                pow2(k) == 2 * half,
        ;
        assert(value == 2 * (m * half)) by (nonlinear_arith)
            requires
                value == m * pow2(k),
                pow2(k) == 2 * half,
        ;
        lemma_rounded_exact(m, (k - 1) as nat, 2 * den, p);
    }
}

/// Powers of two bound the rounded quotient as they bound the exact one.
pub proof fn lemma_rounded_bounds(num: nat, den: nat, p: nat, low: nat, high: nat)
    requires
        den > 0,
        p > 0,
        den * pow2(low) <= num <= den * pow2(high),
    ensures
        pow2(low) <= rounded(num, den, p) <= pow2(high),
{
    lemma_pow2_unfold(p);
    lemma_pow2_pos((p - 1) as nat);
    lemma_rounded_exact(1, low, 1, p);
    lemma_rounded_exact(1, high, 1, p);
    lemma_mul_basics_3(pow2(low) as int);
    lemma_mul_basics_3(pow2(high) as int);
    lemma_mul_basics_4(pow2(low) as int);
    lemma_mul_basics_4(pow2(high) as int);
    lemma_mul_basics_3(num as int);
    lemma_mul_is_commutative(den as int, pow2(low) as int);
    lemma_mul_is_commutative(den as int, pow2(high) as int);
    lemma_rounded_ordered(pow2(low), 1, num, den, p);
    lemma_rounded_ordered(num, den, pow2(high), 1, p);
}

/// What `rounded` gives, the format can hold: `m` units of spacing `2^k`.
proof fn lemma_rounded_held(num: nat, den: nat, p: nat) -> (held: (nat, nat))
    requires
        den > 0,
        p > 0,
    ensures
        rounded(num, den, p) == held.0 * pow2(held.1),
        held.0 <= pow2(p),
        held.1 > 0 ==> held.0 >= pow2((p - 1) as nat),
        num >= den * pow2((p - 1) as nat) ==> held.0 >= pow2((p - 1) as nat),
    decreases num - den,
{
    let top = pow2(p);
    let half = pow2((p - 1) as nat);
    lemma_pow2_unfold(p);
    lemma_pow2_pos((p - 1) as nat);
    lemma2_to64();
    if num < den * top {
        let m = nearest_even(num, den);
        lemma_mul_basics_3(m as int);
        lemma_mul_basics_3(num as int);
        lemma_mul_is_commutative(den as int, top as int);
        lemma_nearest_even_ordered(num, den, top, 1);
        lemma_div_basics(top as int);
        if num >= den * half {
            lemma_mul_is_commutative(den as int, half as int);
            lemma_nearest_even_ordered(half, 1, num, den);
            lemma_div_basics(half as int);
        }
        (m, 0)
    } else {
        assert(den * top == 2 * den * half) by (nonlinear_arith)
            requires
                top == 2 * half,
        ;
        assert(den * top >= 2 * den) by (nonlinear_arith)
            requires
                top >= 2,
        ;
        let (m, k) = lemma_rounded_held(num, 2 * den, p);
        lemma_pow2_unfold(k + 1);
        assert(2 * (m * pow2(k)) == m * pow2(k + 1)) by (nonlinear_arith)
            requires
                pow2(k + 1) == 2 * pow2(k),
        ;
        (m, k + 1)
    }
}

/// Some bits hold what `rounded` gives.
pub proof fn lemma_rounded_has_bits(num: nat, den: nat, p: nat) -> (magnitude: nat)
    requires
        den > 0,
        p > 0,
    ensures
        magnitude_units(magnitude, p) == rounded(num, den, p),
{
    let (m, k) = lemma_rounded_held(num, den, p);
    lemma_magnitude_units_of(m, k, p);
    k * pow2((p - 1) as nat) + m
}

/// The significant bits and the spacing of the number with the given bits.
pub(crate) fn unpack(magnitude: u64, p: u32) -> (parts: (u64, u32))
    requires
        2 <= p <= 53,
        magnitude < 2048 * pow2((p - 1) as nat),
    ensures
        parts.0 * pow2(parts.1 as nat) == magnitude_units(magnitude as nat, p as nat),
        parts.0 < pow2(p as nat),
        parts.1 < 2048,
        parts.1 > 0 ==> parts.0 >= pow2((p - 1) as nat),
        magnitude >= pow2((p - 1) as nat) ==> parts.0 >= pow2((p - 1) as nat) && parts.1
            == magnitude as nat / pow2((p - 1) as nat) - 1,
{
    proof {
        lemma2_to64();
        lemma2_to64_rest();
        lemma_pow2_unfold(p as nat);
        lemma_pow2_pos((p - 1) as nat);
        lemma_pow2_ordered((p - 1) as nat, 52);
    }
    let hidden: u64 = power_of_two(p - 1) as u64;
    if magnitude < hidden {
        proof {
            lemma_mul_basics_3(magnitude as int);
        }
        (magnitude, 0)
    } else {
        let high: u64 = magnitude / hidden;
        proof {
            lemma_fundamental_div_mod(magnitude as int, hidden as int);
            lemma_mod_bound(magnitude as int, hidden as int);
            assert(1 <= high < 2048) by (nonlinear_arith)
                requires
                    magnitude == hidden * high + magnitude as int % hidden as int,
                    0 <= magnitude as int % hidden as int,
                    (magnitude as int % hidden as int) < hidden,
                    hidden <= magnitude < 2048 * hidden,
            ;
        }
        (magnitude % hidden + hidden, (high - 1) as u32)
    }
}

/// `m` steps of `2^k`, counted in steps of `2^c`, are exactly `m` steps of
/// `2^(k - c)`.
pub proof fn lemma_brackets_exact(m: nat, k: nat, c: nat)
    ensures
        brackets(m * pow2(k), pow2(c), m, false, k - c),
{
    let exponent = k - c;
    lemma2_to64();
    lemma_pow2_pos(k);
    lemma_pow2_pos(c);
    if exponent >= 0 {
        lemma_pow2_adds(c, exponent as nat);
        lemma_mul_basics_3((m * pow2(k)) as int);
        lemma_mul_strict_inequality(m as int, (m + 1) as int, pow2(k) as int);
        if exponent == 0 {
            lemma_mul_basics_3(pow2(c) as int);
        }
    } else {
        let down = (-exponent) as nat;
        lemma_pow2_adds(k, down);
        lemma_mul_is_associative(m as int, pow2(k) as int, pow2(down) as int);
        lemma_mul_basics_3(pow2(c) as int);
        lemma_mul_strict_inequality(m as int, (m + 1) as int, pow2(c) as int);
    }
}

/// The whole part of `m * 2^shift / md` brackets the quotient of two numbers.
pub proof fn lemma_brackets_quotient(
    m: nat,
    k: nat,
    md: nat,
    kd: nat,
    one: nat,
    shift: nat,
    q: nat,
    rest: nat,
)
    requires
        md > 0,
        m * pow2(shift) == q * md + rest,
        rest < md,
    ensures
        brackets(
            m * pow2(k) * pow2(one),
            md * pow2(kd),
            q,
            rest > 0,
            k - kd - shift + one,
        ),
{
    let exponent = k - kd - shift + one;
    let num = m * pow2(k) * pow2(one);
    let den = md * pow2(kd);
    let whole = m * pow2(shift);
    let down = steps_down(exponent);
    let up = steps_up(exponent);
    let scaled = num * pow2(down);
    let step = den * pow2(up);
    let factor = pow2(kd + up);
    lemma_pow2_adds(kd, up);
    lemma_pow2_pos(kd + up);
    assert(step == md * factor) by (nonlinear_arith)
        requires
            step == md * pow2(kd) * pow2(up),
            factor == pow2(kd) * pow2(up),
    ;
    lemma_pow2_adds(k, one);
    lemma_pow2_adds(k + one, down);
    lemma_pow2_adds(shift, kd + up);
    assert(k + one + down == shift + (kd + up));
    assert(scaled == whole * factor) by (nonlinear_arith)
        requires
            scaled == m * pow2(k) * pow2(one) * pow2(down),
            whole == m * pow2(shift),
            pow2(k + one) == pow2(k) * pow2(one),
            pow2(k + one + down) == pow2(k + one) * pow2(down),
            pow2(k + one + down) == pow2(shift) * factor,
    ;
    assert(q * step == (q * md) * factor) by (nonlinear_arith)
        requires
            step == md * factor,
    ;
    assert((q + 1) * step == (q * md + md) * factor) by (nonlinear_arith)
        requires
            step == md * factor,
    ;
    lemma_mul_inequality((q * md) as int, whole as int, factor as int);
    lemma_mul_strict_inequality(whole as int, (q * md + md) as int, factor as int);
    if rest > 0 {
        lemma_mul_strict_inequality((q * md) as int, whole as int, factor as int);
    }
}

/// The sum of two numbers, the lower one cut at the step `2^(k1 - shift)`.
pub proof fn lemma_brackets_sum(
    m1: nat,
    k1: nat,
    m2: nat,
    k2: nat,
    shift: nat,
    cut: nat,
    low: nat,
    rest: nat,
)
    requires
        k1 == k2 + cut + shift,
        m2 == low * pow2(cut) + rest,
        rest < pow2(cut),
    ensures
        brackets(
            m1 * pow2(k1) + m2 * pow2(k2),
            1,
            m1 * pow2(shift) + low,
            rest > 0,
            k1 - shift,
        ),
{
    let exponent = (k1 - shift) as nat;
    let step = pow2(exponent);
    let spacing = pow2(k2);
    lemma2_to64();
    lemma_pow2_pos(k2);
    lemma_pow2_adds(shift, exponent);
    lemma_pow2_adds(cut, k2);
    let num = m1 * pow2(k1) + m2 * spacing;
    let q = m1 * pow2(shift) + low;
    lemma_mul_basics_3(num as int);
    lemma_mul_basics_4(step as int);
    assert(num == q * step + rest * spacing) by (nonlinear_arith)
        requires
            num == m1 * pow2(k1) + m2 * spacing,
            q == m1 * pow2(shift) + low,
            pow2(k1) == pow2(shift) * step,
            step == pow2(cut) * spacing,
            m2 == low * pow2(cut) + rest,
    ;
    assert((q + 1) * step == q * step + step) by (nonlinear_arith);
    assert(rest * spacing < step) by (nonlinear_arith)
        requires
            rest < pow2(cut),
            step == pow2(cut) * spacing,
            spacing > 0,
    ;
    assert((rest > 0) == (rest * spacing > 0)) by (nonlinear_arith)
        requires
            spacing > 0,
    ;
}

} // verus!

//! Laws of graphics processors and their telemetry.

use crate::float::rounding;
use crate::float::{Double, Single};
use crate::gpu;
use crate::gpu::{
    AdlxDevice, AdlxGpuInfo, AdlxView, GpuInfo, GpuView, NvmlDevice, NvmlGpuInfo, NvmlView,
};
use crate::laws::{metrics as metric_laws, text as text_laws};
use vstd::arithmetic::mul::*;
use vstd::arithmetic::power2::*;
use vstd::prelude::*;

verus! {

/// Whether a number is the exact value of an integer.
pub open spec fn is_integer(number: Single, n: int) -> bool {
    number.finite() && number.units() == n * Single::one()
}

/// Whether a number, up to its sign, is the `divisor`-th part of a natural
/// number, up to the rounding of the last bit.
pub open spec fn is_part(number: Single, n: nat, divisor: nat) -> bool {
    let exact = n * Single::one();
    &&& number.finite()
    &&& (number.size() * divisor - exact) * pow2(24) <= exact
    &&& (exact - number.size() * divisor) * pow2(24) <= exact
}

/// The quotient of two natural numbers of up to 24 bits is rounded in its last
/// bit, and exact where it is whole.
pub proof fn law_quotient_of_integers(n: nat, divisor: nat)
    requires
        n < 0x100_0000,
        0 < divisor < 0x100_0000,
    ensures
        is_part(Single::of_int(n as int).quotient(Single::of_int(divisor as int)), n, divisor),
        !Single::of_int(n as int).quotient(Single::of_int(divisor as int)).negative(),
        forall|whole: nat|
            n == #[trigger] (whole * divisor) ==> is_integer(
                Single::of_int(n as int).quotient(Single::of_int(divisor as int)),
                whole as int,
            ),
{
    let one = Single::one();
    Single::lemma_of_int(n as int);
    Single::lemma_of_int(divisor as int);
    lemma2_to64();
    rounding::lemma_pow2_ordered(24, 64);
    law_quotient(Single::of_int(n as int), n, divisor);
    assert forall|whole: nat| n == #[trigger] (whole * divisor) implies is_integer(
        Single::of_int(n as int).quotient(Single::of_int(divisor as int)),
        whole as int,
    ) by {
        assert(whole <= n) by (nonlinear_arith)
            requires
                n == whole * divisor,
                divisor >= 1,
        ;
    }
}

/// The quotient of a number that is a whole one, up to its sign: it has the sign,
/// is rounded in its last bit, and is exact where it is a whole number of up to
/// 24 bits.
pub proof fn law_quotient(number: Single, n: nat, divisor: nat)
    requires
        n < pow2(64),
        0 < divisor < 0x100_0000,
        number.finite(),
        number.size() == n * Single::one(),
    ensures
        is_part(number.quotient(Single::of_int(divisor as int)), n, divisor),
        number.quotient(Single::of_int(divisor as int)).negative() == number.negative(),
        forall|whole: nat|
            whole < 0x100_0000 && n == #[trigger] (whole * divisor) ==> number.quotient(
                Single::of_int(divisor as int),
            ).size() == whole * Single::one(),
{
    let one = Single::one();
    let v = n * one;
    let num = v * one;
    let den = divisor * one;
    let quotient = number.quotient(Single::of_int(divisor as int));
    Single::lemma_of_int(divisor as int);
    lemma2_to64();
    lemma_pow2_pos(149);
    lemma_mul_strictly_positive(divisor as int, one as int);
    lemma_quotient_bounds(n, divisor);
    lemma_pow2_strictly_increases(213, 277);
    Single::lemma_nearest_finite(number.negative(), num, den);
    let b = pow2(24);
    if n == 0 {
        lemma_mul_basics_1(one as int);
        lemma_mul_basics_1(den as int);
        rounding::lemma_rounded_exact(0, 0, den, 24);
        lemma_mul_basics_1(divisor as int);
        lemma_mul_basics_1(b as int);
    } else {
        lemma_pow2_adds(24, 125);
        lemma_pow2_adds(23, 102);
        lemma_pow2_pos(102);
        assert(one >= divisor * pow2(23)) by (nonlinear_arith)
            requires
                divisor < pow2(24),
                one == pow2(24) * pow2(125),
                pow2(125) == pow2(23) * pow2(102),
                pow2(102) >= 1,
        ;
        assert(num >= den * pow2(23)) by (nonlinear_arith)
            requires
                num == n * one * one,
                den == divisor * one,
                n >= 1,
                one >= divisor * pow2(23),
                one > 0,
        ;
        metric_laws::law_rounded_near(num, den, 24);
        assert((quotient.size() * divisor - v) * b <= v && (v - quotient.size() * divisor) * b <= v)
            by (nonlinear_arith)
            requires
                (quotient.size() * den - num) * b <= num,
                (num - quotient.size() * den) * b <= num,
                den == divisor * one,
                num == v * one,
                one > 0,
        ;
    }
    assert forall|whole: nat| whole < 0x100_0000 && n == #[trigger] (whole * divisor) implies
        quotient.size() == whole * one by {
        assert(whole * pow2(149) * den == num) by (nonlinear_arith)
            requires
                n == whole * divisor,
                num == n * one * one,
                den == divisor * one,
                one == pow2(149),
        ;
        rounding::lemma_rounded_exact(whole, 149, den, 24);
    }
}

proof fn lemma_quotient_bounds(n: nat, divisor: nat)
    requires
        n < pow2(64),
        0 < divisor,
    ensures
        rounding::rounded(n * Single::one() * Single::one(), divisor * Single::one(), 24)
            <= pow2(213),
{
    let one = Single::one();
    let num = n * one * one;
    let den = divisor * one;
    lemma2_to64();
    lemma_pow2_pos(149);
    lemma_pow2_adds(64, 149);
    lemma_mul_strictly_positive(divisor as int, one as int);
    lemma_mul_basics_3(pow2(213) as int);
    lemma_mul_basics_4(pow2(213) as int);
    rounding::lemma_rounded_exact(1, 213, 1, 24);
    assert(num * 1 <= pow2(213) * den) by (nonlinear_arith)
        requires
            num == n * one * one,
            den == divisor * one,
            n <= pow2(64),
            divisor >= 1,
            pow2(213) == pow2(64) * one,
            one > 0,
    ;
    rounding::lemma_rounded_ordered(num, den, pow2(213), 1, 24);
}

/// A view of a GPU or of telemetry shows its fields as they are.
pub proof fn law_views(gpu: GpuInfo, nvml: NvmlGpuInfo, adlx: AdlxGpuInfo)
    ensures
        gpu.deep_view().index == gpu.index,
        gpu.name matches Some(name) ==> gpu.deep_view().name == Some(name@),
        gpu.name is None ==> gpu.deep_view().name is None,
        gpu.vendor matches Some(vendor) ==> gpu.deep_view().vendor == Some(vendor@),
        gpu.vendor is None ==> gpu.deep_view().vendor is None,
        gpu.deep_view().memory_total_bytes == gpu.memory_total_bytes,
        gpu.deep_view().memory_used_bytes == gpu.memory_used_bytes,
        gpu.deep_view().utilization_percent == gpu.utilization_percent,
        gpu.deep_view().temperature_celsius == gpu.temperature_celsius,
        gpu.deep_view().power_watts == gpu.power_watts,
        nvml.deep_view().name == nvml.name@,
        nvml.deep_view().memory_total_bytes == nvml.memory_total_bytes,
        nvml.deep_view().memory_used_bytes == nvml.memory_used_bytes,
        nvml.deep_view().utilization_percent == nvml.utilization_percent,
        nvml.deep_view().temperature_celsius == nvml.temperature_celsius,
        nvml.deep_view().power_watts == nvml.power_watts,
        adlx.deep_view().name == adlx.name@,
        adlx.deep_view().utilization_percent == adlx.utilization_percent,
        adlx.deep_view().temperature_celsius == adlx.temperature_celsius,
        adlx.deep_view().power_watts == adlx.power_watts,
{
}

/// A device has telemetry exactly where its name can be read and is more than
/// white space.
pub proof fn law_telemetry_kept(nvidia: NvmlDevice, amd: AdlxDevice)
    ensures
        gpu::nvml_record(nvidia) is Some <==> (nvidia.name matches Some(name)
            && !text_laws::blank(name@)),
        gpu::adlx_record(amd) is Some <==> (amd.name matches Some(name) && !text_laws::blank(
            name@,
        )),
{
    if let Some(name) = nvidia.name {
        text_laws::law_trimmed_bare(name@);
    }
    if let Some(name) = amd.name {
        text_laws::law_trimmed_bare(name@);
    }
}

/// Telemetry goes by the device's name without the white space around it.
pub proof fn law_telemetry_name(
    nvidia: NvmlDevice,
    amd: AdlxDevice,
    before: Seq<char>,
    name: Seq<char>,
    after: Seq<char>,
)
    requires
        text_laws::blank(before),
        text_laws::blank(after),
        text_laws::bare(name),
        name.len() > 0,
    ensures
        (nvidia.name matches Some(read) && read@ == before + name + after) ==> (gpu::nvml_record(
            nvidia,
        ) matches Some(record) && record.name == name),
        (amd.name matches Some(read) && read@ == before + name + after) ==> (gpu::adlx_record(
            amd,
        ) matches Some(record) && record.name == name),
{
    text_laws::law_trimmed(before, name, after);
}

/// The memory of an NVIDIA device is shown as it was read, the whole and what is
/// used of it.
pub proof fn law_nvml_memory(device: NvmlDevice, record: NvmlView)
    requires
        gpu::nvml_record(device) == Some(record),
    ensures
        device.memory matches Some(memory) ==> record.memory_total_bytes == Some(memory.total)
            && record.memory_used_bytes == Some(memory.used),
        device.memory is None ==> record.memory_total_bytes is None
            && record.memory_used_bytes is None,
{
}

/// The utilization of an NVIDIA device in percent and its temperature in degrees
/// are the numbers that were read. Its power in watts is the thousandth part of
/// the milliwatts.
pub proof fn law_nvml_metrics(device: NvmlDevice, record: NvmlView, n: u32)
    requires
        gpu::nvml_record(device) == Some(record),
        n < 0x100_0000,
    ensures
        device.utilization_percent == Some(n) ==> (record.utilization_percent matches Some(number)
            && is_integer(number, n as int)),
        device.temperature_celsius == Some(n) ==> (record.temperature_celsius matches Some(number)
            && is_integer(number, n as int)),
        device.power_milliwatts == Some(n) ==> (record.power_watts matches Some(number) && is_part(
            number,
            n as nat,
            1000,
        )),
        device.utilization_percent is None ==> record.utilization_percent is None,
        device.temperature_celsius is None ==> record.temperature_celsius is None,
        device.power_milliwatts is None ==> record.power_watts is None,
{
    Single::lemma_of_int(n as int);
    law_quotient_of_integers(n as nat, 1000);
}

/// Whole watts are exact.
pub proof fn law_nvml_whole_watts(device: NvmlDevice, record: NvmlView, watts: u32)
    requires
        gpu::nvml_record(device) == Some(record),
        watts < 16_777,
        device.power_milliwatts == Some((watts * 1000) as u32),
    ensures
        record.power_watts matches Some(number) && is_integer(number, watts as int),
{
    law_quotient_of_integers((watts * 1000) as nat, 1000);
    assert((watts * 1000) as nat == watts as nat * 1000);
}

/// The readings of an AMD device are shown where they are plausible: usage from
/// 0 to 100 percent, temperature from -50 to 200 degrees, power from 0 to 10000
/// watts. An integer is then exact.
pub proof fn law_adlx_metrics(device: AdlxDevice, record: AdlxView, value: Double, n: int)
    requires
        gpu::adlx_record(device) == Some(record),
        -0x10_0000 < n < 0x10_0000,
        value.finite(),
        value.units() == n * Double::one(),
    ensures
        device.usage == Some(value) ==> if 0 <= n <= 100 {
            record.utilization_percent matches Some(number) && number.units() == n * Single::one()
        } else {
            record.utilization_percent is None
        },
        device.temperature == Some(value) ==> if -50 <= n <= 200 {
            record.temperature_celsius matches Some(number) && number.units() == n * Single::one()
        } else {
            record.temperature_celsius is None
        },
        device.power == Some(value) ==> if 0 <= n <= 10_000 {
            record.power_watts matches Some(number) && number.units() == n * Single::one()
        } else {
            record.power_watts is None
        },
{
    metric_laws::law_plausible_integer(value, n, 0, 100);
    metric_laws::law_plausible_integer(value, n, -50, 200);
    metric_laws::law_plausible_integer(value, n, 0, 10_000);
}

/// Any reading of an AMD device between the bounds is shown; what was not read,
/// or is not a finite number, is not.
pub proof fn law_adlx_range(device: AdlxDevice, record: AdlxView, value: Double)
    requires
        gpu::adlx_record(device) == Some(record),
    ensures
        value.finite() && metric_laws::between(value, 0, 100) && device.usage == Some(value)
            ==> record.utilization_percent is Some,
        value.finite() && metric_laws::between(value, -50, 200) && device.temperature == Some(value)
            ==> record.temperature_celsius is Some,
        value.finite() && metric_laws::between(value, 0, 10_000) && device.power == Some(value)
            ==> record.power_watts is Some,
        device.usage is None || device.usage == Some(value) && !value.finite()
            ==> record.utilization_percent is None,
        device.temperature is None || device.temperature == Some(value) && !value.finite()
            ==> record.temperature_celsius is None,
        device.power is None || device.power == Some(value) && !value.finite()
            ==> record.power_watts is None,
{
    if value.finite() {
        metric_laws::law_plausible_range(value, 0, 100);
        metric_laws::law_plausible_range(value, -50, 200);
        metric_laws::law_plausible_range(value, 0, 10_000);
    }
}

/// The telemetry of devices is that of each of them, in their order.
pub proof fn law_nvml_in_order(first: Seq<NvmlDevice>, second: Seq<NvmlDevice>, device: NvmlDevice)
    ensures
        gpu::nvml_records(first + second) == gpu::nvml_records(first) + gpu::nvml_records(second),
        gpu::nvml_record(device) matches Some(record) ==> gpu::nvml_records(seq![device])
            == seq![record],
        gpu::nvml_record(device) is None ==> gpu::nvml_records(seq![device]) == Seq::<
            NvmlView,
        >::empty(),
    decreases second.len(),
{
    let one = seq![device];
    assert(one.drop_last() =~= Seq::empty());
    assert(gpu::nvml_records(one.drop_last()) =~= Seq::empty());
    assert(one.last() == device);
    assert(gpu::nvml_record(device) matches Some(record) ==> gpu::nvml_records(one)
        =~= seq![record]);
    if second.len() == 0 {
        assert(first + second =~= first);
        assert(gpu::nvml_records(first) + gpu::nvml_records(second) =~= gpu::nvml_records(first));
    } else {
        assert((first + second).drop_last() =~= first + second.drop_last());
        assert((first + second).last() == second.last());
        law_nvml_in_order(first, second.drop_last(), device);
        assert(gpu::nvml_records(first + second) =~= gpu::nvml_records(first) + gpu::nvml_records(
            second,
        ));
    }
}

/// The telemetry of devices is that of each of them, in their order.
pub proof fn law_adlx_in_order(first: Seq<AdlxDevice>, second: Seq<AdlxDevice>, device: AdlxDevice)
    ensures
        gpu::adlx_records(first + second) == gpu::adlx_records(first) + gpu::adlx_records(second),
        gpu::adlx_record(device) matches Some(record) ==> gpu::adlx_records(seq![device])
            == seq![record],
        gpu::adlx_record(device) is None ==> gpu::adlx_records(seq![device]) == Seq::<
            AdlxView,
        >::empty(),
    decreases second.len(),
{
    let one = seq![device];
    assert(one.drop_last() =~= Seq::empty());
    assert(gpu::adlx_records(one.drop_last()) =~= Seq::empty());
    assert(one.last() == device);
    assert(gpu::adlx_record(device) matches Some(record) ==> gpu::adlx_records(one)
        =~= seq![record]);
    if second.len() == 0 {
        assert(first + second =~= first);
        assert(gpu::adlx_records(first) + gpu::adlx_records(second) =~= gpu::adlx_records(first));
    } else {
        assert((first + second).drop_last() =~= first + second.drop_last());
        assert((first + second).last() == second.last());
        law_adlx_in_order(first, second.drop_last(), device);
        assert(gpu::adlx_records(first + second) =~= gpu::adlx_records(first) + gpu::adlx_records(
            second,
        ));
    }
}

/// A GPU has a name in any case of its letters and with any white space around
/// it.
pub proof fn law_named(
    gpu: GpuView,
    before: Seq<char>,
    name: Seq<char>,
    after: Seq<char>,
    sought: Seq<char>,
)
    requires
        gpu.name == Some(before + name + after),
        text_laws::blank(before),
        text_laws::blank(after),
        text_laws::bare(name),
    ensures
        gpu::is_named(gpu, sought) <==> text_laws::same_letters(name, sought),
{
    text_laws::law_trimmed(before, name, after);
    text_laws::law_case_ignored(name, sought);
}

/// A GPU without a name has none of any kind.
pub proof fn law_unnamed(gpu: GpuView, sought: Seq<char>)
    requires
        gpu.name is None,
    ensures
        !gpu::is_named(gpu, sought),
{
}

/// Telemetry of an NVIDIA device belongs to a GPU exactly where the GPU has its
/// name, or is of NVIDIA and has as much memory, as far as both are known.
pub proof fn law_nvml_belongs(gpu: GpuView, telemetry: NvmlView)
    ensures
        gpu::is_named(gpu, telemetry.name) ==> gpu::nvml_matches(gpu, telemetry),
        gpu.vendor == Some("NVIDIA"@) && gpu.memory_total_bytes == telemetry.memory_total_bytes
            ==> gpu::nvml_matches(gpu, telemetry),
        !gpu::is_named(gpu, telemetry.name) && gpu.vendor != Some("NVIDIA"@)
            ==> !gpu::nvml_matches(gpu, telemetry),
        !gpu::is_named(gpu, telemetry.name) && gpu.memory_total_bytes
            != telemetry.memory_total_bytes ==> !gpu::nvml_matches(gpu, telemetry),
{
}

/// Telemetry of an NVIDIA device goes to the first GPU that it belongs to: its
/// metrics are then those of the telemetry, and its memory, too, where that is
/// known. Nothing else changes.
pub proof fn law_nvml_added(
    before: Seq<GpuView>,
    gpu: GpuView,
    after: Seq<GpuView>,
    telemetry: NvmlView,
)
    requires
        forall|i: int|
            0 <= i < before.len() ==> !gpu::nvml_matches(#[trigger] before[i], telemetry),
        gpu::nvml_matches(gpu, telemetry),
    ensures
        ({
            let gpus = gpu::with_nvml(before + seq![gpu] + after, telemetry);
            let changed = gpus[before.len() as int];
            &&& gpus == before + seq![changed] + after
            &&& changed.index == gpu.index
            &&& changed.name == gpu.name
            &&& changed.vendor == gpu.vendor
            &&& telemetry.memory_total_bytes is Some ==> changed.memory_total_bytes
                == telemetry.memory_total_bytes
            &&& telemetry.memory_total_bytes is None ==> changed.memory_total_bytes
                == gpu.memory_total_bytes
            &&& changed.memory_used_bytes == telemetry.memory_used_bytes
            &&& changed.utilization_percent == telemetry.utilization_percent
            &&& changed.temperature_celsius == telemetry.temperature_celsius
            &&& changed.power_watts == telemetry.power_watts
        }),
{
    let all = before + seq![gpu] + after;
    let property = |one: GpuView| gpu::nvml_matches(one, telemetry);
    let i = before.len();
    gpu::lemma_position(all, property, 0);
    assert(property(all[i as int]));
    assert forall|j: int| 0 <= j < i implies !property(#[trigger] all[j]) by {
        assert(all[j] == before[j]);
    }
    assert(gpu::position(all, property, 0) == i);
    let gpus = gpu::with_nvml(all, telemetry);
    assert(gpus =~= before + seq![gpus[i as int]] + after);
}

/// Telemetry of an NVIDIA device that belongs to no GPU becomes one: the last,
/// of NVIDIA, with its name and metrics.
pub proof fn law_nvml_new(gpus: Seq<GpuView>, telemetry: NvmlView)
    requires
        forall|i: int| 0 <= i < gpus.len() ==> !gpu::nvml_matches(#[trigger] gpus[i], telemetry),
        gpus.len() <= usize::MAX,
    ensures
        ({
            let all = gpu::with_nvml(gpus, telemetry);
            let added = all.last();
            &&& all == gpus.push(added)
            &&& added.index == gpus.len()
            &&& added.name == Some(telemetry.name)
            &&& added.vendor == Some("NVIDIA"@)
            &&& added.memory_total_bytes == telemetry.memory_total_bytes
            &&& added.memory_used_bytes == telemetry.memory_used_bytes
            &&& added.utilization_percent == telemetry.utilization_percent
            &&& added.temperature_celsius == telemetry.temperature_celsius
            &&& added.power_watts == telemetry.power_watts
        }),
{
    let property = |one: GpuView| gpu::nvml_matches(one, telemetry);
    gpu::lemma_position(gpus, property, 0);
    let i = gpu::position(gpus, property, 0);
    if i < gpus.len() {
        assert(property(gpus[i as int]));
    }
    let all = gpu::with_nvml(gpus, telemetry);
    assert(all =~= gpus.push(all.last()));
}

/// Telemetry of an AMD device goes to the first AMD GPU of its name, before any
/// other: its metrics are then those of the telemetry. Nothing else changes.
pub proof fn law_adlx_added(
    before: Seq<GpuView>,
    gpu: GpuView,
    after: Seq<GpuView>,
    telemetry: AdlxView,
)
    requires
        forall|i: int|
            0 <= i < before.len() ==> (#[trigger] before[i]).vendor != Some("AMD"@)
                || !gpu::is_named(before[i], telemetry.name),
        gpu.vendor == Some("AMD"@),
        gpu::is_named(gpu, telemetry.name),
    ensures
        ({
            let gpus = gpu::with_adlx(before + seq![gpu] + after, telemetry);
            let changed = gpus[before.len() as int];
            &&& gpus == before + seq![changed] + after
            &&& changed.index == gpu.index
            &&& changed.name == gpu.name
            &&& changed.vendor == gpu.vendor
            &&& changed.memory_total_bytes == gpu.memory_total_bytes
            &&& changed.memory_used_bytes == gpu.memory_used_bytes
            &&& changed.utilization_percent == telemetry.utilization_percent
            &&& changed.temperature_celsius == telemetry.temperature_celsius
            &&& changed.power_watts == telemetry.power_watts
        }),
{
    let all = before + seq![gpu] + after;
    let named = |one: GpuView| one.vendor == Some("AMD"@) && gpu::is_named(one, telemetry.name);
    let i = before.len();
    gpu::lemma_position(all, named, 0);
    assert(named(all[i as int]));
    assert forall|j: int| 0 <= j < i implies !named(#[trigger] all[j]) by {
        assert(all[j] == before[j]);
    }
    assert(gpu::position(all, named, 0) == i);
    let gpus = gpu::with_adlx(all, telemetry);
    assert(gpus =~= before + seq![gpus[i as int]] + after);
}

/// Telemetry of an AMD device whose name no AMD GPU has goes to the first AMD
/// GPU without a temperature. Nothing else changes.
pub proof fn law_adlx_fallback(
    before: Seq<GpuView>,
    gpu: GpuView,
    after: Seq<GpuView>,
    telemetry: AdlxView,
)
    requires
        forall|i: int|
            0 <= i < before.len() + 1 + after.len() ==> (#[trigger] (before + seq![gpu]
                + after)[i]).vendor != Some("AMD"@) || !gpu::is_named(
                (before + seq![gpu] + after)[i],
                telemetry.name,
            ),
        forall|i: int|
            0 <= i < before.len() ==> (#[trigger] before[i]).vendor != Some("AMD"@)
                || before[i].temperature_celsius is Some,
        gpu.vendor == Some("AMD"@),
        gpu.temperature_celsius is None,
    ensures
        ({
            let gpus = gpu::with_adlx(before + seq![gpu] + after, telemetry);
            let changed = gpus[before.len() as int];
            &&& gpus == before + seq![changed] + after
            &&& changed.index == gpu.index
            &&& changed.name == gpu.name
            &&& changed.vendor == gpu.vendor
            &&& changed.memory_total_bytes == gpu.memory_total_bytes
            &&& changed.memory_used_bytes == gpu.memory_used_bytes
            &&& changed.utilization_percent == telemetry.utilization_percent
            &&& changed.temperature_celsius == telemetry.temperature_celsius
            &&& changed.power_watts == telemetry.power_watts
        }),
{
    let all = before + seq![gpu] + after;
    let named = |one: GpuView| one.vendor == Some("AMD"@) && gpu::is_named(one, telemetry.name);
    let untold = |one: GpuView| one.vendor == Some("AMD"@) && one.temperature_celsius is None;
    let i = before.len();
    gpu::lemma_position(all, named, 0);
    gpu::lemma_position(all, untold, 0);
    let exact = gpu::position(all, named, 0);
    if exact < all.len() {
        assert(named(all[exact as int]));
    }
    assert(untold(all[i as int]));
    assert forall|j: int| 0 <= j < i implies !untold(#[trigger] all[j]) by {
        assert(all[j] == before[j]);
    }
    assert(gpu::position(all, untold, 0) == i);
    let gpus = gpu::with_adlx(all, telemetry);
    assert(gpus =~= before + seq![gpus[i as int]] + after);
}

/// Telemetry of an AMD device becomes a GPU of its own where no AMD GPU has its
/// name or lacks a temperature: the last, of AMD, with its name and metrics.
pub proof fn law_adlx_new(gpus: Seq<GpuView>, telemetry: AdlxView)
    requires
        forall|i: int|
            0 <= i < gpus.len() ==> (#[trigger] gpus[i]).vendor != Some("AMD"@) || !gpu::is_named(
                gpus[i],
                telemetry.name,
            ) && gpus[i].temperature_celsius is Some,
        gpus.len() <= usize::MAX,
    ensures
        ({
            let all = gpu::with_adlx(gpus, telemetry);
            let added = all.last();
            &&& all == gpus.push(added)
            &&& added.index == gpus.len()
            &&& added.name == Some(telemetry.name)
            &&& added.vendor == Some("AMD"@)
            &&& added.memory_total_bytes is None
            &&& added.memory_used_bytes is None
            &&& added.utilization_percent == telemetry.utilization_percent
            &&& added.temperature_celsius == telemetry.temperature_celsius
            &&& added.power_watts == telemetry.power_watts
        }),
{
    let named = |one: GpuView| one.vendor == Some("AMD"@) && gpu::is_named(one, telemetry.name);
    let untold = |one: GpuView| one.vendor == Some("AMD"@) && one.temperature_celsius is None;
    gpu::lemma_position(gpus, named, 0);
    gpu::lemma_position(gpus, untold, 0);
    let exact = gpu::position(gpus, named, 0);
    let fallback = gpu::position(gpus, untold, 0);
    if exact < gpus.len() {
        assert(named(gpus[exact as int]));
    }
    if fallback < gpus.len() {
        assert(untold(gpus[fallback as int]));
    }
    let all = gpu::with_adlx(gpus, telemetry);
    assert(all =~= gpus.push(all.last()));
}

/// Telemetry is added in its order: first some of it, then the rest.
pub proof fn law_added_in_order(
    gpus: Seq<GpuView>,
    first: Seq<NvmlView>,
    second: Seq<NvmlView>,
    first_amd: Seq<AdlxView>,
    second_amd: Seq<AdlxView>,
)
    ensures
        gpu::with_all_nvml(gpus, first + second) == gpu::with_all_nvml(
            gpu::with_all_nvml(gpus, first),
            second,
        ),
        gpu::with_all_adlx(gpus, first_amd + second_amd) == gpu::with_all_adlx(
            gpu::with_all_adlx(gpus, first_amd),
            second_amd,
        ),
    decreases second.len() + second_amd.len(),
{
    if second.len() > 0 {
        law_added_in_order(gpus, first, second.drop_last(), first_amd, second_amd);
        assert((first + second).drop_last() =~= first + second.drop_last());
        assert((first + second).last() == second.last());
    } else {
        assert(first + second =~= first);
    }
    if second_amd.len() > 0 {
        law_added_in_order(gpus, first, second, first_amd, second_amd.drop_last());
        assert((first_amd + second_amd).drop_last() =~= first_amd + second_amd.drop_last());
        assert((first_amd + second_amd).last() == second_amd.last());
    } else {
        assert(first_amd + second_amd =~= first_amd);
    }
}

/// One piece of telemetry is added as such.
pub proof fn law_added_one(gpus: Seq<GpuView>, nvml: NvmlView, adlx: AdlxView)
    ensures
        gpu::with_all_nvml(gpus, seq![nvml]) == gpu::with_nvml(gpus, nvml),
        gpu::with_all_nvml(gpus, Seq::empty()) == gpus,
        gpu::with_all_adlx(gpus, seq![adlx]) == gpu::with_adlx(gpus, adlx),
        gpu::with_all_adlx(gpus, Seq::empty()) == gpus,
{
    assert(seq![nvml].drop_last() =~= Seq::empty());
    assert(seq![adlx].drop_last() =~= Seq::empty());
    assert(gpu::with_all_nvml(gpus, seq![nvml].drop_last()) == gpus);
    assert(gpu::with_all_adlx(gpus, seq![adlx].drop_last()) == gpus);
}

} // verus!

//! Laws of graphics processors and sensors on Apple machines.

use crate::float::Single;
use crate::gpu::macos;
use crate::gpu::macos::MetalDevice;
use crate::laws::text as text_laws;
use crate::macos_smc;
use crate::macos_smc::{SmcReadings, SmcValue};
use crate::text;
use vstd::arithmetic::mul::*;
use vstd::arithmetic::power2::*;
use vstd::prelude::*;

verus! {

proof fn lemma_lower_words()
    ensures
        text::lowercase("intel"@) == "intel"@,
        text::lowercase("amd"@) == "amd"@,
        text::lowercase("radeon"@) == "radeon"@,
        text::lowercase("nvidia"@) == "nvidia"@,
        text::lowercase("geforce"@) == "geforce"@,
        text::lowercase("apple"@) == "apple"@,
{
    reveal_strlit("intel");
    reveal_strlit("amd");
    reveal_strlit("radeon");
    reveal_strlit("nvidia");
    reveal_strlit("geforce");
    reveal_strlit("apple");
    assert(text::lowercase("intel"@) =~= "intel"@);
    assert(text::lowercase("amd"@) =~= "amd"@);
    assert(text::lowercase("radeon"@) =~= "radeon"@);
    assert(text::lowercase("nvidia"@) =~= "nvidia"@);
    assert(text::lowercase("geforce"@) =~= "geforce"@);
    assert(text::lowercase("apple"@) =~= "apple"@);
}

/// A device is of the vendor that its name mentions, in any case: Intel before
/// AMD, that before NVIDIA, that before Apple. A name that mentions none is
/// nobody's.
pub proof fn law_vendor(name: Seq<char>)
    ensures
        ({
            let intel = text_laws::mentions(name, "intel"@);
            let amd = text_laws::mentions(name, "amd"@) || text_laws::mentions(name, "radeon"@);
            let nvidia = text_laws::mentions(name, "nvidia"@) || text_laws::mentions(
                name,
                "geforce"@,
            );
            let apple = text_laws::mentions(name, "apple"@);
            &&& intel ==> macos::vendor_of(name) == Some("Intel"@)
            &&& !intel && amd ==> macos::vendor_of(name) == Some("AMD"@)
            &&& !intel && !amd && nvidia ==> macos::vendor_of(name) == Some("NVIDIA"@)
            &&& !intel && !amd && !nvidia && apple ==> macos::vendor_of(name) == Some("Apple"@)
            &&& !intel && !amd && !nvidia && !apple ==> macos::vendor_of(name) is None
        }),
{
    lemma_lower_words();
    text_laws::law_mentions(name, "intel"@);
    text_laws::law_mentions(name, "amd"@);
    text_laws::law_mentions(name, "radeon"@);
    text_laws::law_mentions(name, "nvidia"@);
    text_laws::law_mentions(name, "geforce"@);
    text_laws::law_mentions(name, "apple"@);
}

/// Every device is shown in its place, under its name, with the memory that it
/// should use at most and the memory that it uses. The first one has the
/// temperature and the power of the controller; the others have none.
pub proof fn law_devices(
    devices: Seq<MetalDevice>,
    metrics: (Option<Single>, Option<Single>),
    i: int,
)
    requires
        0 <= i < devices.len() <= usize::MAX,
    ensures
        ({
            let gpus = macos::machine_views(devices, metrics);
            &&& gpus.len() == devices.len()
            &&& gpus[i].index == i
            &&& gpus[i].name == Some(devices[i].name@)
            &&& gpus[i].vendor == macos::vendor_of(devices[i].name@)
            &&& gpus[i].memory_total_bytes == Some(devices[i].recommended_max_working_set_size)
            &&& gpus[i].memory_used_bytes == Some(devices[i].current_allocated_size)
            &&& gpus[i].utilization_percent is None
            &&& gpus[i].temperature_celsius == if i == 0 {
                metrics.0
            } else {
                None
            }
            &&& gpus[i].power_watts == if i == 0 {
                metrics.1
            } else {
                None
            }
        }),
        macos::machine_views(Seq::empty(), metrics).len() == 0,
{
}

/// Bytes of a value beyond those that its encoding takes are of no account, and
/// with fewer there is no value.
pub proof fn law_bytes_taken(
    data_type: Seq<u8>,
    bytes: Seq<u8>,
    minimum: Single,
    maximum: Single,
)
    ensures
        data_type == seq![0x66u8, 0x6c, 0x74, 0x20] && bytes.len() >= 4 ==> macos_smc::decoded(
            data_type,
            bytes,
            minimum,
            maximum,
        ) == macos_smc::decoded(data_type, bytes.subrange(0, 4), minimum, maximum),
        data_type != seq![0x66u8, 0x6c, 0x74, 0x20] && bytes.len() >= 2 ==> macos_smc::decoded(
            data_type,
            bytes,
            minimum,
            maximum,
        ) == macos_smc::decoded(data_type, bytes.subrange(0, 2), minimum, maximum),
        data_type == seq![0x66u8, 0x6c, 0x74, 0x20] && bytes.len() < 4 ==> macos_smc::decoded(
            data_type,
            bytes,
            minimum,
            maximum,
        ) is None,
        bytes.len() < 2 ==> macos_smc::decoded(data_type, bytes, minimum, maximum) is None,
{
    assert(seq![0x66u8, 0x6c, 0x74, 0x20] =~= seq!['f' as u8, 'l' as u8, 't' as u8, ' ' as u8]);
}

/// Whether a sign, a row of whole bits and a row of fraction bits name the
/// encoding: `sp` with 15 bits in all, or `fp` with 16.
pub open spec fn names_fixed_point(
    data_type: Seq<u8>,
    signed: bool,
    whole_bits: u8,
    fraction_bits: u8,
) -> bool {
    &&& data_type.len() == 4
    &&& data_type[0] == if signed {
        0x73u8
    } else {
        0x66u8
    }
    &&& data_type[1] == 0x70
    &&& macos_smc::hex_value(data_type[2]) == Some(whole_bits)
    &&& macos_smc::hex_value(data_type[3]) == Some(fraction_bits)
    &&& whole_bits + fraction_bits == if signed {
        15int
    } else {
        16int
    }
}

/// The integer in two bytes, the highest first: from -32768 to 32767 with a
/// sign, else from 0 to 65535.
pub open spec fn is_raw(raw: int, signed: bool, high: u8, low: u8) -> bool {
    &&& (raw - (256 * high + low)) % 65536 == 0
    &&& signed ==> -32768 <= raw < 32768
    &&& !signed ==> 0 <= raw < 65536
}

/// A fixed-point value is the integer in its bytes over two to the number of
/// fraction bits, without rounding. It is given exactly where it lies within the
/// bounds.
pub proof fn law_fixed_point(
    data_type: Seq<u8>,
    signed: bool,
    whole_bits: u8,
    fraction_bits: u8,
    high: u8,
    low: u8,
    rest: Seq<u8>,
    raw: int,
    minimum: Single,
    maximum: Single,
)
    requires
        names_fixed_point(data_type, signed, whole_bits, fraction_bits),
        is_raw(raw, signed, high, low),
        !minimum.nan(),
        !maximum.nan(),
    ensures
        ({
            let scale = pow2(fraction_bits as nat);
            let value = macos_smc::decoded(data_type, seq![high, low] + rest, minimum, maximum);
            &&& value is Some <==> minimum.units() * scale <= raw * Single::one()
                <= maximum.units() * scale
            &&& value matches Some(number) ==> number.finite() && number.units() * scale == raw
                * Single::one()
        }),
{
    let bytes = seq![high, low] + rest;
    let float_type = seq!['f' as u8, 'l' as u8, 't' as u8, ' ' as u8];
    assert(data_type[1] != float_type[1]);
    assert(bytes[0] == high && bytes[1] == low);
    assert(macos_smc::fixed_point_raw(bytes, signed) == raw) by {
        let unsigned = 256 * high + low;
        assert(macos_smc::fixed_point_raw(bytes, signed) % 65536 == unsigned % 65536);
    }
    assert(fraction_bits <= 15) by {
        if !signed {
            assert(whole_bits < 16 && fraction_bits < 16);
        }
    }
    macos_smc::lemma_fixed_point_exact(raw, fraction_bits as nat);
    let number = macos_smc::fixed_point(raw, fraction_bits as nat);
    let scale = pow2(fraction_bits as nat);
    lemma_pow2_pos(fraction_bits as nat);
    assert(minimum.units() <= number.units() <==> minimum.units() * scale <= number.units() * scale)
        by (nonlinear_arith)
        requires
            scale > 0,
    ;
    assert(number.units() <= maximum.units() <==> number.units() * scale <= maximum.units() * scale)
        by (nonlinear_arith)
        requires
            scale > 0,
    ;
}

/// Other encodings, and other numbers of bits, have no value.
pub proof fn law_no_encoding(data_type: Seq<u8>, bytes: Seq<u8>, minimum: Single, maximum: Single)
    requires
        data_type.len() == 4,
        data_type != seq![0x66u8, 0x6c, 0x74, 0x20],
        forall|signed: bool, whole_bits: u8, fraction_bits: u8|
            !#[trigger] names_fixed_point(data_type, signed, whole_bits, fraction_bits),
    ensures
        macos_smc::decoded(data_type, bytes, minimum, maximum) is None,
{
    assert(seq![0x66u8, 0x6c, 0x74, 0x20] =~= seq!['f' as u8, 'l' as u8, 't' as u8, ' ' as u8]);
    if let (Some(whole_bits), Some(fraction_bits)) = (
        macos_smc::hex_value(data_type[2]),
        macos_smc::hex_value(data_type[3]),
    ) {
        assert(!names_fixed_point(data_type, true, whole_bits, fraction_bits));
        assert(!names_fixed_point(data_type, false, whole_bits, fraction_bits));
    }
}

/// A number in either byte order is the one of the two that lies within the
/// bounds; of two that do, the one of the larger size. There is none exactly
/// where neither does.
pub proof fn law_float(
    b0: u8,
    b1: u8,
    b2: u8,
    b3: u8,
    rest: Seq<u8>,
    little: Single,
    big: Single,
    minimum: Single,
    maximum: Single,
)
    requires
        little.bits == b0 + 256 * b1 + 65536 * b2 + 16777216 * b3,
        big.bits == b3 + 256 * b2 + 65536 * b1 + 16777216 * b0,
    ensures
        ({
            let value = macos_smc::decoded(
                seq![0x66u8, 0x6c, 0x74, 0x20],
                seq![b0, b1, b2, b3] + rest,
                minimum,
                maximum,
            );
            &&& value is Some <==> little.within(minimum, maximum) || big.within(minimum, maximum)
            &&& value matches Some(number) ==> {
                &&& number == little || number == big
                &&& number.within(minimum, maximum)
                &&& little.within(minimum, maximum) ==> number.size() >= little.size()
                &&& big.within(minimum, maximum) ==> number.size() >= big.size()
            }
        }),
{
    assert(seq![0x66u8, 0x6c, 0x74, 0x20] =~= seq!['f' as u8, 'l' as u8, 't' as u8, ' ' as u8]);
    let bytes = seq![b0, b1, b2, b3] + rest;
    assert(bytes[0] == b0 && bytes[1] == b1 && bytes[2] == b2 && bytes[3] == b3);
    assert(macos_smc::little_endian(bytes) == little);
    assert(macos_smc::big_endian(bytes) == big);
}

/// The first key that gives a value counts; keys before it that give none, and
/// any after it, are of no account.
pub proof fn law_first_key(
    before: Seq<Option<SmcValue>>,
    value: SmcValue,
    after: Seq<Option<SmcValue>>,
    number: Single,
    minimum: Single,
    maximum: Single,
)
    requires
        forall|i: int|
            0 <= i < before.len() ==> ((#[trigger] before[i]) matches Some(other)
                ==> macos_smc::decoded(other.data_type@, other.bytes@, minimum, maximum) is None),
        macos_smc::decoded(value.data_type@, value.bytes@, minimum, maximum) == Some(number),
    ensures
        macos_smc::sensor_value(before + seq![Some(value)] + after, minimum, maximum) == Some(
            number,
        ),
        macos_smc::sensor_value(before, minimum, maximum) is None,
    decreases before.len(),
{
    let all = before + seq![Some(value)] + after;
    if before.len() == 0 {
        assert(all[0] == Some(value));
    } else {
        let rest = before.subrange(1, before.len() as int);
        assert(all[0] == before[0]);
        assert(all.subrange(1, all.len() as int) =~= rest + seq![Some(value)] + after);
        assert forall|i: int| 0 <= i < rest.len() implies ((#[trigger] rest[i]) matches Some(other)
            ==> macos_smc::decoded(other.data_type@, other.bytes@, minimum, maximum) is None) by {
            assert(rest[i] == before[i + 1]);
        }
        law_first_key(rest, value, after, number, minimum, maximum);
    }
}

/// Whether the first reading is a fixed-point value of `raw` over two to the
/// number of fraction bits.
pub open spec fn starts_with(readings: Seq<Option<SmcValue>>, raw: int, fraction_bits: u8) -> bool {
    readings.len() > 0 && (readings[0] matches Some(value) && exists|
        signed: bool,
        whole_bits: u8,
    |
        #[trigger] names_fixed_point(value.data_type@, signed, whole_bits, fraction_bits)
            && value.bytes@.len() >= 2 && is_raw(raw, signed, value.bytes@[0], value.bytes@[1]))
}

proof fn lemma_first_fixed_point(
    readings: Seq<Option<SmcValue>>,
    raw: int,
    fraction_bits: u8,
    minimum: int,
    maximum: int,
)
    requires
        starts_with(readings, raw, fraction_bits),
        -0x10_0000 < minimum <= maximum < 0x10_0000,
    ensures
        ({
            let scale = pow2(fraction_bits as nat);
            let low = Single::of_int(minimum);
            let high = Single::of_int(maximum);
            minimum * scale <= raw <= maximum * scale ==> (macos_smc::sensor_value(
                readings,
                low,
                high,
            ) matches Some(number) && number.units() * scale == raw * Single::one())
        }),
{
    let value = readings[0]->0;
    let (signed, whole_bits) = choose|signed: bool, whole_bits: u8| #[trigger]
        names_fixed_point(value.data_type@, signed, whole_bits, fraction_bits)
            && value.bytes@.len() >= 2 && is_raw(raw, signed, value.bytes@[0], value.bytes@[1]);
    let one = Single::one();
    let scale = pow2(fraction_bits as nat);
    let low = Single::of_int(minimum);
    let high = Single::of_int(maximum);
    let rest = value.bytes@.subrange(2, value.bytes@.len() as int);
    assert(value.bytes@ =~= seq![value.bytes@[0], value.bytes@[1]] + rest);
    Single::lemma_of_int(minimum);
    Single::lemma_of_int(maximum);
    lemma_pow2_pos(149);
    law_fixed_point(
        value.data_type@,
        signed,
        whole_bits,
        fraction_bits,
        value.bytes@[0],
        value.bytes@[1],
        rest,
        raw,
        low,
        high,
    );
    if minimum * scale <= raw <= maximum * scale {
        assert(minimum * one * scale <= raw * one <= maximum * one * scale) by (nonlinear_arith)
            requires
                minimum * scale <= raw <= maximum * scale,
                one > 0,
        ;
    }
}

/// The package temperature is never below -50 or above 200 degrees. One between
/// them that the first key gives is the temperature, exactly.
pub proof fn law_package_value(readings: SmcReadings, raw: int, fraction_bits: u8)
    ensures
        macos_smc::package_value(None) is None,
        macos_smc::package_value(Some(&readings)) matches Some(celsius) ==> celsius.finite() && -50
            * Single::one() <= celsius.units() <= 200 * Single::one(),
        starts_with(readings@, raw, fraction_bits) && -50 * pow2(fraction_bits as nat) <= raw <= 200
            * pow2(fraction_bits as nat) ==> (macos_smc::package_value(
            Some(&readings),
        ) matches Some(celsius) && celsius.units() * pow2(fraction_bits as nat) == raw
            * Single::one()),
{
    Single::lemma_of_int(-50);
    Single::lemma_of_int(200);
    macos_smc::lemma_sensor_value_within(
        readings@,
        Single::of_int(-50),
        Single::of_int(200),
    );
    if starts_with(readings@, raw, fraction_bits) {
        lemma_first_fixed_point(readings@, raw, fraction_bits, -50, 200);
    }
}

/// The GPU temperature is never below -50 or above 200 degrees, its power never
/// below 0 or above 2000 watts. What the first key gives between them is the
/// temperature or the power, exactly.
pub proof fn law_gpu_values(
    temperature: SmcReadings,
    power: SmcReadings,
    raw: int,
    fraction_bits: u8,
)
    ensures
        macos_smc::gpu_values(None) == (None::<Single>, None::<Single>),
        ({
            let values = macos_smc::gpu_values(Some((&temperature, &power)));
            let scale = pow2(fraction_bits as nat);
            &&& values.0 matches Some(celsius) ==> celsius.finite() && -50 * Single::one()
                <= celsius.units() <= 200 * Single::one()
            &&& values.1 matches Some(watts) ==> watts.finite() && 0 <= watts.units() <= 2000
                * Single::one()
            &&& starts_with(temperature@, raw, fraction_bits) && -50 * scale <= raw <= 200 * scale
                ==> (values.0 matches Some(celsius) && celsius.units() * scale == raw
                * Single::one())
            &&& starts_with(power@, raw, fraction_bits) && 0 <= raw <= 2000 * scale ==> (
            values.1 matches Some(watts) && watts.units() * scale == raw * Single::one())
        }),
{
    Single::lemma_of_int(-50);
    Single::lemma_of_int(200);
    Single::lemma_of_int(0);
    Single::lemma_of_int(2000);
    macos_smc::lemma_sensor_value_within(
        temperature@,
        Single::of_int(-50),
        Single::of_int(200),
    );
    macos_smc::lemma_sensor_value_within(power@, Single::of_int(0), Single::of_int(2000));
    if starts_with(temperature@, raw, fraction_bits) {
        lemma_first_fixed_point(temperature@, raw, fraction_bits, -50, 200);
    }
    if starts_with(power@, raw, fraction_bits) {
        lemma_mul_basics_1(pow2(fraction_bits as nat) as int);
        lemma_first_fixed_point(power@, raw, fraction_bits, 0, 2000);
    }
}

} // verus!

//! Sensors of the system management controller of Apple machines.

use crate::float::rounding;
use crate::float::Single;
use vstd::arithmetic::mul::*;
use vstd::arithmetic::power2::*;
use vstd::prelude::*;

verus! {

/// A value that the controller holds under a key.
#[derive(Debug)]
pub struct SmcValue {
    /// The four characters that name the encoding.
    pub data_type: [u8; 4],
    /// The bytes that hold the value.
    pub bytes: Vec<u8>,
}

/// The number that a hexadecimal digit stands for.
pub open spec fn hex_value(digit: u8) -> Option<u8> {
    if '0' as u8 <= digit <= '9' as u8 {
        Some((digit - '0' as u8) as u8)
    } else if 'a' as u8 <= digit <= 'f' as u8 {
        Some((digit - 'a' as u8 + 10) as u8)
    } else if 'A' as u8 <= digit <= 'F' as u8 {
        Some((digit - 'A' as u8 + 10) as u8)
    } else {
        None
    }
}

/// The number whose bits are four bytes, the lowest first.
pub open spec fn little_endian(bytes: Seq<u8>) -> Single {
    Single {
        bits: (bytes[0] + 0x100 * bytes[1] + 0x1_0000 * bytes[2] + 0x100_0000 * bytes[3]) as u32,
    }
}

/// The number whose bits are four bytes, the highest first.
pub open spec fn big_endian(bytes: Seq<u8>) -> Single {
    Single {
        bits: (bytes[3] + 0x100 * bytes[2] + 0x1_0000 * bytes[1] + 0x100_0000 * bytes[0]) as u32,
    }
}

/// The larger in absolute value of the numbers within the bounds; of two
/// equally large ones, the second.
pub open spec fn larger_within(
    first: Single,
    second: Single,
    minimum: Single,
    maximum: Single,
) -> Option<Single> {
    if first.within(minimum, maximum) && !(second.within(minimum, maximum) && first.size()
        <= second.size()) {
        Some(first)
    } else if second.within(minimum, maximum) {
        Some(second)
    } else {
        None
    }
}

/// The integer in two bytes, the highest first.
pub open spec fn fixed_point_raw(bytes: Seq<u8>, signed: bool) -> int {
    let raw = 0x100 * bytes[0] + bytes[1];
    if signed && raw >= 0x8000 {
        raw - 0x1_0000
    } else {
        raw as int
    }
}

/// The number of an integer with so many fraction bits.
pub open spec fn fixed_point(raw: int, fraction_bits: nat) -> Single {
    Single::of_int(raw).quotient(Single::of_int(pow2(fraction_bits) as int))
}

/// The value in a controller's bytes, if it lies within the bounds.
///
/// `flt ` is a number in either byte order. `spXY` and `fpXY` are fixed-point
/// numbers with `X` whole and `Y` fraction bits, with and without a sign.
pub open spec fn decoded(
    data_type: Seq<u8>,
    bytes: Seq<u8>,
    minimum: Single,
    maximum: Single,
) -> Option<Single> {
    if data_type == seq!['f' as u8, 'l' as u8, 't' as u8, ' ' as u8] {
        if bytes.len() < 4 {
            None
        } else {
            larger_within(little_endian(bytes), big_endian(bytes), minimum, maximum)
        }
    } else if (data_type[0] == 's' as u8 || data_type[0] == 'f' as u8) && data_type[1] == 'p' as u8 {
        let signed = data_type[0] == 's' as u8;
        match (hex_value(data_type[2]), hex_value(data_type[3])) {
            (Some(whole_bits), Some(fraction_bits)) => {
                let number = fixed_point(fixed_point_raw(bytes, signed), fraction_bits as nat);
                if whole_bits + fraction_bits == (if signed {
                    15int
                } else {
                    16int
                }) && bytes.len() >= 2 && number.within(minimum, maximum) {
                    Some(number)
                } else {
                    None
                }
            },
            _ => None,
        }
    } else {
        None
    }
}

/// The number that a hexadecimal digit stands for.
pub fn hex_digit(value: u8) -> (digit: Option<u8>)
    ensures
        digit == hex_value(value),
        digit matches Some(d) ==> d < 16,
{
    if ('0' as u8) <= value && value <= '9' as u8 {
        Some(value - ('0' as u8))
    } else if ('a' as u8) <= value && value <= 'f' as u8 {
        Some(value - ('a' as u8) + 10)
    } else if ('A' as u8) <= value && value <= 'F' as u8 {
        Some(value - ('A' as u8) + 10)
    } else {
        None
    }
}

/// The value in a controller's bytes, if it lies within the bounds.
pub fn decode_value(
    data_type: &[u8; 4],
    bytes: &[u8],
    minimum: Single,
    maximum: Single,
) -> (value: Option<Single>)
    ensures
        value == decoded(data_type@, bytes@, minimum, maximum),
{
    if data_type[0] == 'f' as u8 && data_type[1] == 'l' as u8 && data_type[2] == 't' as u8 && data_type[3]
        == ' ' as u8 {
        assert(data_type@ =~= seq!['f' as u8, 'l' as u8, 't' as u8, ' ' as u8]);
        if bytes.len() < 4 {
            return None;
        }
        let first = bits_of(bytes[0], bytes[1], bytes[2], bytes[3]);
        let second = bits_of(bytes[3], bytes[2], bytes[1], bytes[0]);
        return if first.is_within(minimum, maximum) {
            if second.is_within(minimum, maximum) && !first.is_larger_than(second) {
                Some(second)
            } else {
                Some(first)
            }
        } else if second.is_within(minimum, maximum) {
            Some(second)
        } else {
            None
        };
    }
    assert(data_type@ != seq!['f' as u8, 'l' as u8, 't' as u8, ' ' as u8]) by {
        let float_type = seq!['f' as u8, 'l' as u8, 't' as u8, ' ' as u8];
        assert(data_type@[0] != float_type[0] || data_type@[1] != float_type[1] || data_type@[2]
            != float_type[2] || data_type@[3] != float_type[3]);
    }
    let signed: bool = if data_type[0] == 's' as u8 && data_type[1] == 'p' as u8 {
        true
    } else if data_type[0] == 'f' as u8 && data_type[1] == 'p' as u8 {
        false
    } else {
        return None;
    };
    let fraction_bits: u8 = match hex_digit(data_type[3]) {
        Some(digit) => digit,
        None => return None,
    };
    let whole_bits: u8 = match hex_digit(data_type[2]) {
        Some(digit) => digit,
        None => return None,
    };
    let expected_bits: u8 = if signed {
        15
    } else {
        16
    };
    if whole_bits + fraction_bits != expected_bits || bytes.len() < 2 {
        return None;
    }
    let scale: u32 = rounding::power_of_two(fraction_bits as u32) as u32;
    proof {
        lemma2_to64();
        rounding::lemma_pow2_ordered(fraction_bits as nat, 15);
        lemma_pow2_pos(fraction_bits as nat);
        Single::lemma_of_int(scale as int);
    }
    let unsigned_raw: i32 = 0x100 * (bytes[0] as i32) + bytes[1] as i32;
    let raw: i32 = if signed && unsigned_raw >= 0x8000 {
        unsigned_raw - 0x1_0000
    } else {
        unsigned_raw
    };
    let value = Single::from_i32(raw).divided_by(Single::from_u32(scale));
    if value.is_within(minimum, maximum) {
        Some(value)
    } else {
        None
    }
}

/// The number whose bits are four bytes, the lowest first.
fn bits_of(b0: u8, b1: u8, b2: u8, b3: u8) -> (number: Single)
    ensures
        number.bits == b0 + 0x100 * b1 + 0x1_0000 * b2 + 0x100_0000 * b3,
{
    Single {
        bits: b0 as u32 + 0x100 * (b1 as u32) + 0x1_0000 * (b2 as u32) + 0x100_0000 * (b3 as u32),
    }
}

/// The keys of the CPU package temperature: `TC0P` and `TC0F`.
pub const CPU_TEMPERATURE_KEYS: [[u8; 4]; 2] = [
    [0x54, 0x43, 0x30, 0x50],
    [0x54, 0x43, 0x30, 0x46],
];

/// The keys of the GPU temperature: `TG0P` and `TGDD`.
pub const GPU_TEMPERATURE_KEYS: [[u8; 4]; 2] = [
    [0x54, 0x47, 0x30, 0x50],
    [0x54, 0x47, 0x44, 0x44],
];

/// The key of the GPU power: `PG0R`.
pub const GPU_POWER_KEYS: [[u8; 4]; 1] = [[0x50, 0x47, 0x30, 0x52]];

/// What the controller holds under the keys of a sensor, in their order;
/// nothing for a key that cannot be read.
pub type SmcReadings = Vec<Option<SmcValue>>;

/// The first value that can be decoded and lies within the bounds.
pub open spec fn sensor_value(
    readings: Seq<Option<SmcValue>>,
    minimum: Single,
    maximum: Single,
) -> Option<Single>
    decreases readings.len(),
{
    if readings.len() == 0 {
        None
    } else {
        let first = match readings[0] {
            Some(value) => decoded(value.data_type@, value.bytes@, minimum, maximum),
            None => None,
        };
        match first {
            Some(number) => Some(number),
            None => sensor_value(
                readings.subrange(1, readings.len() as int),
                minimum,
                maximum,
            ),
        }
    }
}

/// The first value that can be decoded and lies within the bounds.
pub fn read_sensor(readings: &SmcReadings, minimum: Single, maximum: Single) -> (value: Option<
    Single,
>)
    ensures
        value == sensor_value(readings@, minimum, maximum),
{
    let mut i: usize = 0;
    assert(readings@.subrange(0, readings.len() as int) =~= readings@);
    while i < readings.len()
        invariant
            i <= readings.len(),
            sensor_value(readings@, minimum, maximum) == sensor_value(
                readings@.subrange(i as int, readings.len() as int),
                minimum,
                maximum,
            ),
        decreases readings.len() - i,
    {
        proof {
            let rest = readings@.subrange(i as int, readings.len() as int);
            assert(rest[0] == readings@[i as int]);
            assert(rest.subrange(1, rest.len() as int) =~= readings@.subrange(
                i + 1,
                readings.len() as int,
            ));
        }
        if let Some(value) = &readings[i] {
            let number = decode_value(&value.data_type, value.bytes.as_slice(), minimum, maximum);
            if number.is_some() {
                return number;
            }
        }
        i = i + 1;
    }
    None
}

/// The CPU package temperature of the readings, from -50 to 200 degrees Celsius.
pub open spec fn package_value(readings: Option<&SmcReadings>) -> Option<Single> {
    match readings {
        Some(values) => sensor_value(values@, Single::of_int(-50), Single::of_int(200)),
        None => None,
    }
}

/// The GPU temperature, from -50 to 200 degrees Celsius, and the GPU power,
/// from 0 to 2000 watts, of the readings of both sensors.
pub open spec fn gpu_values(readings: Option<(&SmcReadings, &SmcReadings)>) -> (
    Option<Single>,
    Option<Single>,
) {
    match readings {
        Some((temperature, power)) => (
            sensor_value(temperature@, Single::of_int(-50), Single::of_int(200)),
            sensor_value(power@, Single::of_int(0), Single::of_int(2000)),
        ),
        None => (None, None),
    }
}

/// The CPU package temperature, from -50 to 200 degrees Celsius. There are no
/// readings where there is no controller.
pub fn cpu_package_temperature(readings: Option<&SmcReadings>) -> (celsius: Option<Single>)
    ensures
        celsius == package_value(readings),
{
    match readings {
        Some(values) => read_sensor(values, Single::from_i32(-50), Single::from_i32(200)),
        None => None,
    }
}

/// The GPU temperature, from -50 to 200 degrees Celsius, and the GPU power,
/// from 0 to 2000 watts, of the readings of both sensors. There are no
/// readings where there is no controller.
pub fn gpu_metrics(readings: Option<(&SmcReadings, &SmcReadings)>) -> (metrics: (
    Option<Single>,
    Option<Single>,
))
    ensures
        metrics == gpu_values(readings),
{
    match readings {
        Some((temperature, power)) => (
            read_sensor(temperature, Single::from_i32(-50), Single::from_i32(200)),
            read_sensor(power, Single::from_i32(0), Single::from_i32(2000)),
        ),
        None => (None, None),
    }
}

/// What a sensor gives lies within the bounds.
pub proof fn lemma_sensor_value_within(
    readings: Seq<Option<SmcValue>>,
    minimum: Single,
    maximum: Single,
)
    ensures
        sensor_value(readings, minimum, maximum) matches Some(number) ==> number.within(
            minimum,
            maximum,
        ),
    decreases readings.len(),
{
    if readings.len() > 0 {
        lemma_sensor_value_within(
            readings.subrange(1, readings.len() as int),
            minimum,
            maximum,
        );
    }
}

/// A fixed-point value is held without rounding.
pub proof fn lemma_fixed_point_exact(raw: int, fraction_bits: nat)
    requires
        -0x8000 <= raw < 0x1_0000,
        fraction_bits <= 15,
    ensures
        fixed_point(raw, fraction_bits).finite(),
        fixed_point(raw, fraction_bits).units() * pow2(fraction_bits) == raw * Single::one(),
{
    let size: nat = if raw < 0 {
        (-raw) as nat
    } else {
        raw as nat
    };
    let scale = pow2(fraction_bits);
    let one = Single::one();
    lemma2_to64();
    rounding::lemma_pow2_ordered(fraction_bits, 15);
    lemma_pow2_pos(fraction_bits);
    lemma_pow2_pos(149);
    Single::lemma_of_int(raw);
    Single::lemma_of_int(scale as int);
    let k = (149 - fraction_bits) as nat;
    let den = scale * one;
    lemma_mul_strictly_positive(scale as int, one as int);
    lemma_pow2_adds(k, fraction_bits);
    assert(size * pow2(k) * den == size * one * one) by (nonlinear_arith)
        requires
            one == pow2(k) * scale,
            den == scale * one,
    ;
    rounding::lemma_rounded_exact(size, k, den, 24);
    rounding::lemma_pow2_ordered(k, 149);
    lemma_pow2_adds(24, 149);
    lemma_pow2_strictly_increases(173, 277);
    assert(size * pow2(k) <= pow2(24) * pow2(149)) by (nonlinear_arith)
        requires
            0 <= size <= pow2(24),
            0 <= pow2(k) <= pow2(149),
    ;
    lemma_mul_unary_negation(raw, one as int);
    Single::lemma_nearest_finite(raw < 0, size * one * one, den);
    assert(size * pow2(k) * scale == size * one) by (nonlinear_arith)
        requires
            one == pow2(k) * scale,
    ;
    lemma_mul_unary_negation((size * pow2(k)) as int, scale as int);
}

} // verus!

//! Laws of graphics processors on Linux.

use crate::float::Single;
use crate::gpu;
use crate::gpu::linux;
use crate::gpu::linux::{CardFiles, HwmonFiles};
use crate::gpu::{GpuView, NvmlDevice};
use crate::laws::gpu as gpu_laws;
use crate::laws::text as text_laws;
use crate::text;
use vstd::arithmetic::power2::*;
use vstd::prelude::*;

verus! {

/// Whether a file holds the digits of a number, with or without white space
/// around them.
pub open spec fn holds_number(
    contents: Option<String>,
    before: Seq<char>,
    n: nat,
    after: Seq<char>,
) -> bool {
    &&& text_laws::blank(before)
    &&& text_laws::blank(after)
    &&& contents matches Some(value) && value@ == before + text::decimal(n) + after
}

/// Whether a file holds a text, with or without white space around it.
pub open spec fn holds_text(
    contents: Option<String>,
    before: Seq<char>,
    inner: Seq<char>,
    after: Seq<char>,
) -> bool {
    &&& text_laws::blank(before)
    &&& text_laws::blank(after)
    &&& text_laws::bare(inner)
    &&& contents matches Some(value) && value@ == before + inner + after
}

/// Whether a file is missing or holds nothing but white space.
pub open spec fn holds_nothing(contents: Option<String>) -> bool {
    contents matches Some(value) ==> text_laws::blank(value@)
}

/// The memory of a card is the number in the file of the whole memory, and what
/// is used of it the number in the file of the memory in use, whatever the other
/// files hold.
pub proof fn law_card_memory(
    index: usize,
    files: CardFiles,
    before: Seq<char>,
    n: nat,
    after: Seq<char>,
)
    ensures
        holds_number(files.memory_used, before, n, after) && n <= u64::MAX ==> linux::card_view(
            index,
            files,
        ).memory_used_bytes == Some(n as u64),
        holds_number(files.memory_total, before, n, after) && n <= u64::MAX ==> linux::card_view(
            index,
            files,
        ).memory_total_bytes == Some(n as u64),
        holds_number(files.memory_used, before, n, after) && n > u64::MAX ==> linux::card_view(
            index,
            files,
        ).memory_used_bytes is None,
        holds_number(files.memory_total, before, n, after) && n > u64::MAX ==> linux::card_view(
            index,
            files,
        ).memory_total_bytes is None,
        holds_nothing(files.memory_used) ==> linux::card_view(
            index,
            files,
        ).memory_used_bytes is None,
        holds_nothing(files.memory_total) ==> linux::card_view(
            index,
            files,
        ).memory_total_bytes is None,
{
    if text_laws::blank(before) && text_laws::blank(after) {
        text_laws::law_number_read(n, u64::MAX as nat, before, after);
        text_laws::lemma_decimal_bare(n);
    }
    if let Some(value) = files.memory_used {
        text_laws::law_trimmed_bare(value@);
    }
    if let Some(value) = files.memory_total {
        text_laws::law_trimmed_bare(value@);
    }
}

/// Each metric of a card depends on its own files alone: another card with the
/// same file has the same metric, at any index.
pub proof fn law_card_files_apart(index: usize, files: CardFiles, other_index: usize, other: CardFiles)
    ensures
        files.memory_used == other.memory_used ==> linux::card_view(
            index,
            files,
        ).memory_used_bytes == linux::card_view(other_index, other).memory_used_bytes,
        files.memory_total == other.memory_total ==> linux::card_view(
            index,
            files,
        ).memory_total_bytes == linux::card_view(other_index, other).memory_total_bytes,
        files.vendor == other.vendor ==> linux::card_view(index, files).vendor
            == linux::card_view(other_index, other).vendor,
        files.busy_percent == other.busy_percent ==> linux::card_view(
            index,
            files,
        ).utilization_percent == linux::card_view(other_index, other).utilization_percent,
        files.sensors@ == other.sensors@ ==> linux::card_view(index, files).temperature_celsius
            == linux::card_view(other_index, other).temperature_celsius && linux::card_view(
            index,
            files,
        ).power_watts == linux::card_view(other_index, other).power_watts,
{
}

/// A card stands under its index, with the utilization in its file.
pub proof fn law_card_place(index: usize, files: CardFiles)
    ensures
        linux::card_view(index, files).index == index,
        linux::card_view(index, files).utilization_percent == files.busy_percent,
{
}

/// A card has the name in its label, else that of its product, else the word
/// `GPU` and its index.
pub proof fn law_card_name(
    index: usize,
    files: CardFiles,
    before: Seq<char>,
    name: Seq<char>,
    after: Seq<char>,
)
    requires
        name.len() > 0,
    ensures
        holds_text(files.label, before, name, after) ==> linux::card_view(index, files).name
            == Some(name),
        holds_nothing(files.label) && holds_text(files.product_name, before, name, after)
            ==> linux::card_view(index, files).name == Some(name),
        holds_nothing(files.label) && holds_nothing(files.product_name) ==> linux::card_view(
            index,
            files,
        ).name == Some("GPU "@ + text::decimal(index as nat)),
{
    if text_laws::blank(before) && text_laws::blank(after) && text_laws::bare(name) {
        text_laws::law_trimmed(before, name, after);
    }
    if let Some(value) = files.label {
        text_laws::law_trimmed_bare(value@);
    }
    if let Some(value) = files.product_name {
        text_laws::law_trimmed_bare(value@);
    }
}

proof fn lemma_codes()
    ensures
        text::lowercase("1002"@) == "1002"@,
        text::lowercase("10de"@) == "10de"@,
        text::lowercase("8086"@) == "8086"@,
        text::lowercase("106b"@) == "106b"@,
        "1002"@ != "10de"@,
        "1002"@ != "8086"@,
        "1002"@ != "106b"@,
        "10de"@ != "8086"@,
        "10de"@ != "106b"@,
        "8086"@ != "106b"@,
{
    reveal_strlit("1002");
    reveal_strlit("10de");
    reveal_strlit("8086");
    reveal_strlit("106b");
    assert(text::lowercase("1002"@) =~= "1002"@);
    assert(text::lowercase("10de"@) =~= "10de"@);
    assert(text::lowercase("8086"@) =~= "8086"@);
    assert(text::lowercase("106b"@) =~= "106b"@);
    assert("1002"@[2] != "10de"@[2]);
    assert("1002"@[0] != "8086"@[0]);
    assert("1002"@[2] != "106b"@[2]);
    assert("10de"@[0] != "8086"@[0]);
    assert("10de"@[2] != "106b"@[2]);
    assert("8086"@[0] != "106b"@[0]);
}

/// The four vendors go by their codes, in any case of the digits and with or
/// without `0x` before them; other codes are nobody's.
pub proof fn law_vendor(code: Seq<char>)
    requires
        forall|end: Seq<char>| code != #[trigger] ("0x"@ + end),
    ensures
        linux::vendor_of("0x"@ + code) == linux::vendor_of(code),
        linux::vendor_of(code) == Some("AMD"@) <== text_laws::same_letters(code, "1002"@),
        linux::vendor_of(code) == Some("NVIDIA"@) <== text_laws::same_letters(code, "10de"@),
        linux::vendor_of(code) == Some("Intel"@) <== text_laws::same_letters(code, "8086"@),
        linux::vendor_of(code) == Some("Apple"@) <== text_laws::same_letters(code, "106b"@),
        linux::vendor_of(code) is Some ==> text_laws::same_letters(code, "1002"@)
            || text_laws::same_letters(code, "10de"@) || text_laws::same_letters(code, "8086"@)
            || text_laws::same_letters(code, "106b"@),
{
    reveal_strlit("0x");
    lemma_codes();
    text_laws::law_without_prefixes("0x"@, code);
    text_laws::law_case_ignored(code, "1002"@);
    text_laws::law_case_ignored(code, "10de"@);
    text_laws::law_case_ignored(code, "8086"@);
    text_laws::law_case_ignored(code, "106b"@);
}

/// A card is of the vendor whose code is in its file; without one, of nobody.
pub proof fn law_card_vendor(
    index: usize,
    files: CardFiles,
    before: Seq<char>,
    code: Seq<char>,
    after: Seq<char>,
)
    requires
        code.len() > 0,
    ensures
        holds_text(files.vendor, before, code, after) ==> linux::card_view(index, files).vendor
            == linux::vendor_of(code),
        holds_nothing(files.vendor) ==> linux::card_view(index, files).vendor is None,
{
    if text_laws::blank(before) && text_laws::blank(after) && text_laws::bare(code) {
        text_laws::law_trimmed(before, code, after);
    }
    if let Some(value) = files.vendor {
        text_laws::law_trimmed_bare(value@);
    }
}

/// Whether a hardware monitor has neither a temperature nor a power.
pub open spec fn silent(sensor: HwmonFiles) -> bool {
    sensor.temperature is None && sensor.power_average is None && sensor.power_input is None
}

/// The first monitor that has anything gives the temperature and the power of a
/// card; those before it that have nothing, and any after it, are of no account.
pub proof fn law_first_monitor(
    before: Seq<HwmonFiles>,
    sensor: HwmonFiles,
    after: Seq<HwmonFiles>,
)
    requires
        forall|i: int| 0 <= i < before.len() ==> silent(#[trigger] before[i]),
        !silent(sensor),
    ensures
        linux::hwmon_metrics(before + seq![sensor] + after) == linux::hwmon_metrics(seq![sensor]),
        linux::hwmon_metrics(before) == (None::<Single>, None::<Single>),
    decreases before.len(),
{
    let all = before + seq![sensor] + after;
    if before.len() == 0 {
        assert(all[0] == sensor);
        assert(seq![sensor][0] == sensor);
    } else {
        let rest = before.subrange(1, before.len() as int);
        assert(silent(before[0]));
        assert(all[0] == before[0]);
        assert(all.subrange(1, all.len() as int) =~= rest + seq![sensor] + after);
        assert forall|i: int| 0 <= i < rest.len() implies silent(#[trigger] rest[i]) by {
            assert(rest[i] == before[i + 1]);
        }
        law_first_monitor(rest, sensor, after);
    }
}

/// A monitor gives the thousandth part of its temperature, with its sign, and
/// the millionth part of its power: the average one where there is one, else the
/// present one.
pub proof fn law_monitor(sensor: HwmonFiles, number: Single, n: nat)
    requires
        number.finite(),
        number.size() == n * Single::one(),
        n < pow2(64),
    ensures
        ({
            let (temperature, power) = linux::hwmon_metrics(seq![sensor]);
            &&& sensor.temperature == Some(number) ==> (temperature matches Some(celsius)
                && gpu_laws::is_part(celsius, n, 1000) && celsius.negative() == number.negative())
            &&& sensor.temperature is None ==> temperature is None
            &&& sensor.power_average == Some(number) ==> (power matches Some(watts)
                && gpu_laws::is_part(watts, n, 1_000_000) && watts.negative()
                == number.negative())
            &&& sensor.power_average is None && sensor.power_input == Some(number) ==> (
            power matches Some(watts) && gpu_laws::is_part(watts, n, 1_000_000)
                && watts.negative() == number.negative())
            &&& sensor.power_average is None && sensor.power_input is None ==> power is None
        }),
{
    gpu_laws::law_quotient(number, n, 1000);
    gpu_laws::law_quotient(number, n, 1_000_000);
    let all = seq![sensor];
    assert(all[0] == sensor);
    assert(all.subrange(1, 1) =~= Seq::empty());
    assert(linux::hwmon_metrics(all.subrange(1, 1)) == (None::<Single>, None::<Single>));
}

/// Whole degrees and whole watts are exact.
pub proof fn law_monitor_exact(sensor: HwmonFiles, degrees: Single, n: nat, power: Single, w: nat)
    requires
        degrees.finite(),
        degrees.size() == n * 1000 * Single::one(),
        n < 0x10_0000,
        power.finite(),
        power.size() == w * 1_000_000 * Single::one(),
        w < 0x10_0000,
        sensor.temperature == Some(degrees),
        sensor.power_average == Some(power) || sensor.power_average is None && sensor.power_input
            == Some(power),
    ensures
        linux::hwmon_metrics(seq![sensor]).0 matches Some(celsius) && celsius.size() == n
            * Single::one(),
        linux::hwmon_metrics(seq![sensor]).1 matches Some(watts) && watts.size() == w
            * Single::one(),
{
    lemma2_to64();
    gpu_laws::law_quotient(degrees, n * 1000, 1000);
    gpu_laws::law_quotient(power, w * 1_000_000, 1_000_000);
    assert(seq![sensor][0] == sensor);
}

/// A card shows the temperature and the power of its monitors.
pub proof fn law_card_monitors(index: usize, files: CardFiles)
    ensures
        linux::card_view(index, files).temperature_celsius == linux::hwmon_metrics(
            files.sensors@,
        ).0,
        linux::card_view(index, files).power_watts == linux::hwmon_metrics(files.sensors@).1,
{
}

/// A directory entry is a card exactly where it is called `card` and a number;
/// that is its number.
pub proof fn law_card_number(n: nat, name: Seq<char>, i: int)
    ensures
        n <= usize::MAX ==> linux::card_number("card"@ + text::decimal(n)) == Some(n),
        0 <= i < name.len() && name[i] == '-' ==> linux::card_number(name) is None,
        (forall|end: Seq<char>| name != #[trigger] ("card"@ + end)) ==> linux::card_number(
            name,
        ) is None,
        4 <= i < name.len() && !('0' <= name[i] <= '9') && (i > 4 || name[4] != '+')
            ==> linux::card_number(name) is None,
{
    reveal_strlit("card");
    let s = "card"@ + text::decimal(n);
    assert(s.subrange(0, 4) =~= "card"@);
    assert(s.subrange(4, s.len() as int) =~= text::decimal(n));
    text_laws::law_number_read(n, usize::MAX as nat, Seq::empty(), Seq::empty());
    text_laws::lemma_decimal_bare(n);
    assert forall|j: int| 0 <= j < s.len() implies s[j] != '-' by {
        if j >= 4 {
            assert(s[j] == text::decimal(n)[j - 4]);
        } else {
            assert(s[j] == "card"@[j]);
        }
    }
    assert(!s.contains('-'));
    assert(text::stands_at(s, "card"@, 0));
    if text::stands_at(name, "card"@, 0) {
        let rest = name.subrange(4, name.len() as int);
        assert(name =~= "card"@ + rest);
        if 4 <= i < name.len() && !('0' <= name[i] <= '9') && (i > 4 || name[4] != '+') {
            assert(rest[i - 4] == name[i]);
            text_laws::law_no_number(rest, usize::MAX as nat, i - 4);
        }
    }
}

/// The cards are taken by their numbers, each once: of two, the one with the
/// lower number first, and of two with the same number the one listed first.
pub proof fn law_card_order(names: Seq<Seq<char>>, order: Seq<usize>, i: int, j: int)
    requires
        linux::is_card_order(names, order),
        0 <= i < j < order.len(),
    ensures
        order[i] < names.len() && order[j] < names.len(),
        order[i] != order[j],
        ({
            let first = linux::card_number(names[order[i] as int]);
            let second = linux::card_number(names[order[j] as int]);
            &&& first matches Some(lower) && second matches Some(higher) && (lower < higher || lower
                == higher && order[i] < order[j])
        }),
{
    assert(linux::comes_before(names, order[i], order[j]));
}

/// No card is left out.
pub proof fn law_card_order_complete(names: Seq<Seq<char>>, order: Seq<usize>, position: usize)
    requires
        linux::is_card_order(names, order),
        position < names.len(),
    ensures
        linux::card_number(names[position as int]) is Some <==> exists|i: int|
            0 <= i < order.len() && order[i] == position,
{
    if linux::card_number(names[position as int]) is Some {
        assert(order.contains(position));
    }
}

/// Without NVIDIA devices, the GPUs of a machine are its cards, each in its
/// place; where the cards cannot be listed there is none, whatever devices there
/// are.
pub proof fn law_machine(
    cards: Vec<CardFiles>,
    nvml: Seq<NvmlDevice>,
    i: int,
)
    ensures
        linux::machine_views(None, nvml) == Seq::<GpuView>::empty(),
        linux::machine_views(Some(cards), Seq::empty()).len() == cards@.len(),
        0 <= i < cards@.len() ==> linux::machine_views(Some(cards), Seq::empty())[i]
            == linux::card_view(i as usize, cards@[i]),
{
}

/// One more NVIDIA device adds its telemetry, if it has any, to the GPUs of a
/// machine whose cards can be listed.
pub proof fn law_machine_device(
    cards: Vec<CardFiles>,
    nvml: Seq<NvmlDevice>,
    device: NvmlDevice,
)
    ensures
        gpu::nvml_record(device) matches Some(telemetry) ==> linux::machine_views(
            Some(cards),
            nvml.push(device),
        ) == gpu::with_nvml(linux::machine_views(Some(cards), nvml), telemetry),
        gpu::nvml_record(device) is None ==> linux::machine_views(Some(cards), nvml.push(device))
            == linux::machine_views(Some(cards), nvml),
{
    assert(nvml.push(device).drop_last() =~= nvml);
    let records = gpu::nvml_records(nvml);
    if let Some(telemetry) = gpu::nvml_record(device) {
        assert(records.push(telemetry).drop_last() =~= records);
    }
}

} // verus!

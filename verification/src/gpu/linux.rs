//! Graphics processors on Linux, as the direct rendering manager lists them.

use crate::float::Single;
use crate::gpu;
use crate::gpu::{GpuInfo, GpuView, NvmlDevice};
use crate::text;
use vstd::prelude::*;

verus! {

/// What the files of a graphics card hold; a file that cannot be read is
/// absent.
#[derive(Debug)]
pub struct CardFiles {
    pub vendor: Option<String>,
    pub label: Option<String>,
    pub product_name: Option<String>,
    pub memory_total: Option<String>,
    pub memory_used: Option<String>,
    pub busy_percent: Option<Single>,
    pub sensors: Vec<HwmonFiles>,
}

/// What the files of a hardware monitor hold: thousandths of a degree Celsius
/// and millionths of a watt.
#[derive(Clone, Copy, Debug)]
pub struct HwmonFiles {
    pub temperature: Option<Single>,
    pub power_average: Option<Single>,
    pub power_input: Option<Single>,
}

/// The text in a file without white space around it, if there is any.
pub open spec fn trimmed_contents(contents: Option<String>) -> Option<Seq<char>> {
    match contents {
        Some(value) => if text::trimmed(value@).len() > 0 {
            Some(text::trimmed(value@))
        } else {
            None
        },
        None => None,
    }
}

/// The number in a file.
pub open spec fn number_contents(contents: Option<String>) -> Option<nat> {
    match trimmed_contents(contents) {
        Some(value) => text::parsed(value, u64::MAX as nat),
        None => None,
    }
}

/// The vendor with a hexadecimal PCI identifier.
pub open spec fn vendor_of(vendor_id: Seq<char>) -> Option<Seq<char>> {
    let code = text::lowercase(text::without_prefixes(vendor_id, "0x"@));
    if code == "1002"@ {
        Some("AMD"@)
    } else if code == "10de"@ {
        Some("NVIDIA"@)
    } else if code == "8086"@ {
        Some("Intel"@)
    } else if code == "106b"@ {
        Some("Apple"@)
    } else {
        None
    }
}

/// The number of a card, from the name of its directory entry; connectors,
/// whose names go on with a hyphen, are no cards.
pub open spec fn card_number(name: Seq<char>) -> Option<nat> {
    if text::stands_at(name, "card"@, 0) && !name.contains('-') {
        text::parsed(name.subrange(4, name.len() as int), usize::MAX as nat)
    } else {
        None
    }
}

/// Whether the entry at position `i` comes before the one at `j`: its card has
/// the lower number, or the same number and it was listed before.
pub open spec fn comes_before(names: Seq<Seq<char>>, i: usize, j: usize) -> bool {
    let first = card_number(names[i as int])->0;
    let second = card_number(names[j as int])->0;
    first < second || (first == second && i < j)
}

/// Whether `order` holds the positions of the cards among directory entries,
/// by number.
pub open spec fn is_card_order(names: Seq<Seq<char>>, order: Seq<usize>) -> bool {
    &&& forall|i: int|
        0 <= i < order.len() ==> (#[trigger] order[i]) < names.len() && card_number(
            names[order[i] as int],
        ) is Some
    &&& forall|position: usize|
        position < names.len() && card_number(names[position as int]) is Some
            ==> #[trigger] order.contains(position)
    &&& forall|i: int, j: int|
        0 <= i < j < order.len() ==> comes_before(names, #[trigger] order[i], #[trigger] order[j])
}

/// A sensor value divided by a factor.
pub open spec fn scaled(value: Option<Single>, factor: int) -> Option<Single> {
    match value {
        Some(number) => Some(number.quotient(Single::of_int(factor))),
        None => None,
    }
}

/// The first of two values that is there.
pub open spec fn first_of<T>(first: Option<T>, second: Option<T>) -> Option<T> {
    match first {
        Some(value) => Some(value),
        None => second,
    }
}

/// The degrees Celsius and the watts of the first monitor that has either.
pub open spec fn hwmon_metrics(sensors: Seq<HwmonFiles>) -> (Option<Single>, Option<Single>)
    decreases sensors.len(),
{
    if sensors.len() == 0 {
        (None, None)
    } else {
        let temperature = scaled(sensors[0].temperature, 1000);
        let power = scaled(
            first_of(sensors[0].power_average, sensors[0].power_input),
            1_000_000,
        );
        if temperature is Some || power is Some {
            (temperature, power)
        } else {
            hwmon_metrics(sensors.subrange(1, sensors.len() as int))
        }
    }
}

/// The GPU that the files of a card describe.
pub open spec fn card_view(index: usize, files: CardFiles) -> GpuView {
    let sensors = hwmon_metrics(files.sensors@);
    GpuView {
        index,
        name: first_of(
            first_of(trimmed_contents(files.label), trimmed_contents(files.product_name)),
            Some("GPU "@ + text::decimal(index as nat)),
        ),
        vendor: match trimmed_contents(files.vendor) {
            Some(id) => vendor_of(id),
            None => None,
        },
        memory_total_bytes: match number_contents(files.memory_total) {
            Some(bytes) => Some(bytes as u64),
            None => None,
        },
        memory_used_bytes: match number_contents(files.memory_used) {
            Some(bytes) => Some(bytes as u64),
            None => None,
        },
        utilization_percent: files.busy_percent,
        temperature_celsius: sensors.0,
        power_watts: sensors.1,
    }
}

/// The GPUs that the files of the cards describe, in their order.
pub open spec fn card_views(cards: Seq<CardFiles>) -> Seq<GpuView> {
    Seq::new(cards.len(), |i: int| card_view(i as usize, cards[i]))
}

/// The text in a file without white space around it, if there is any.
pub fn read_trimmed(contents: &Option<String>) -> (inner: Option<String>)
    ensures
        inner.deep_view() == trimmed_contents(*contents),
{
    match contents {
        Some(value) => {
            let inner = text::trim(value.as_str());
            if inner.is_empty() {
                None
            } else {
                Some(inner.to_owned())
            }
        },
        None => None,
    }
}

/// The number in a file.
pub fn read_u64(contents: &Option<String>) -> (number: Option<u64>)
    ensures
        match number {
            Some(n) => number_contents(*contents) == Some(n as nat),
            None => number_contents(*contents) is None,
        },
{
    match read_trimmed(contents) {
        Some(value) => text::parse_up_to(value.as_str(), u64::MAX),
        None => None,
    }
}

/// The vendor with a hexadecimal PCI identifier.
pub fn vendor_name(vendor_id: &str) -> (name: Option<String>)
    ensures
        name.deep_view() == vendor_of(vendor_id@),
{
    proof {
        reveal_strlit("0x");
    }
    let code = text::to_ascii_lowercase(text::trim_start_matches(vendor_id, "0x"));
    let name = if text::same_text(code.as_str(), "1002") {
        "AMD"
    } else if text::same_text(code.as_str(), "10de") {
        "NVIDIA"
    } else if text::same_text(code.as_str(), "8086") {
        "Intel"
    } else if text::same_text(code.as_str(), "106b") {
        "Apple"
    } else {
        return None;
    };
    Some(name.to_owned())
}

fn contains_hyphen(name: &str) -> (found: bool)
    ensures
        found == name@.contains('-'),
{
    let chars = text::chars_of(name);
    let mut i: usize = 0;
    while i < chars.len()
        invariant
            i <= chars.len(),
            chars@ == name@,
            forall|j: int| 0 <= j < i ==> name@[j] != '-',
        decreases chars.len() - i,
    {
        if chars[i] == '-' {
            assert(name@[i as int] == '-');
            return true;
        }
        i = i + 1;
    }
    false
}

/// The number of a card, from the name of its directory entry.
pub fn card_index(name: &str) -> (index: Option<usize>)
    ensures
        match index {
            Some(n) => card_number(name@) == Some(n as nat),
            None => card_number(name@) is None,
        },
{
    proof {
        reveal_strlit("card");
    }
    let rest = match text::strip_prefix(name, "card") {
        Some(rest) => rest,
        None => return None,
    };
    if contains_hyphen(name) {
        return None;
    }
    match text::parse_up_to(rest, usize::MAX as u64) {
        Some(n) => Some(n as usize),
        None => None,
    }
}

/// The positions of the cards among directory entries, by number.
pub fn card_order(names: &Vec<String>) -> (order: Vec<usize>)
    ensures
        is_card_order(names.deep_view(), order@),
{
    let ghost views = names.deep_view();
    let mut order: Vec<usize> = Vec::new();
    let mut numbers: Vec<usize> = Vec::new();
    let mut position: usize = 0;
    while position < names.len()
        invariant
            position <= names.len(),
            views == names.deep_view(),
            numbers.len() == order.len(),
            forall|i: int|
                0 <= i < order.len() ==> (#[trigger] order[i]) < position && card_number(
                    views[order[i] as int],
                ) == Some(numbers[i] as nat),
            forall|earlier: usize|
                earlier < position && card_number(views[earlier as int]) is Some
                    ==> #[trigger] order@.contains(earlier),
            forall|i: int, j: int|
                0 <= i < j < order.len() ==> comes_before(
                    views,
                    #[trigger] order[i],
                    #[trigger] order[j],
                ),
        decreases names.len() - position,
    {
        assert(views[position as int] == names[position as int]@);
        if let Some(number) = card_index(names[position].as_str()) {
            let mut at: usize = order.len();
            while at > 0 && numbers[at - 1] > number
                invariant
                    at <= order.len(),
                    numbers.len() == order.len(),
                    forall|i: int| at <= i < order.len() ==> numbers[i] > number,
                decreases at,
            {
                at = at - 1;
            }
            let ghost before = order@;
            let ghost numbers_before = numbers@;
            proof {
                assert forall|i: int| 0 <= i < at implies numbers_before[i] <= number by {
                    if i < at - 1 {
                        assert(comes_before(views, before[i], before[at - 1]));
                    }
                    assert(before[at - 1] < position);
                    assert(before[i] < position);
                }
            }
            order.insert(at, position);
            numbers.insert(at, number);
            proof {
                assert(order@ =~= before.insert(at as int, position));
                assert forall|i: int| 0 <= i < order.len() implies (#[trigger] order[i]) < position
                    + 1 && card_number(views[order[i] as int]) == Some(numbers[i] as nat) by {
                    if i < at {
                        assert(order[i] == before[i]);
                    } else if i > at {
                        assert(order[i] == before[i - 1]);
                    }
                }
                assert forall|earlier: usize|
                    earlier < position + 1 && card_number(
                        views[earlier as int],
                    ) is Some implies #[trigger] order@.contains(earlier) by {
                    if earlier == position {
                        assert(order@[at as int] == position);
                    } else {
                        assert(before.contains(earlier));
                        let i = choose|i: int| 0 <= i < before.len() && before[i] == earlier;
                        if i < at {
                            assert(order@[i] == earlier);
                        } else {
                            assert(order@[i + 1] == earlier);
                        }
                    }
                }
                assert forall|i: int, j: int| 0 <= i < j < order.len() implies comes_before(
                    views,
                    #[trigger] order[i],
                    #[trigger] order[j],
                ) by {
                    if i < at {
                        assert(order[i] == before[i]);
                        if j < at {
                            assert(order[j] == before[j]);
                        } else if j > at {
                            assert(order[j] == before[j - 1]);
                        }
                    } else if i == at {
                        assert(order[j] == before[j - 1]);
                        assert(numbers_before[j - 1] > number);
                    } else {
                        assert(order[i] == before[i - 1]);
                        assert(order[j] == before[j - 1]);
                    }
                }
            }
        }
        position = position + 1;
    }
    order
}

fn divided(value: Option<Single>, factor: u32) -> (quotient: Option<Single>)
    requires
        0 < factor < 0x100_0000,
    ensures
        quotient == scaled(value, factor as int),
{
    match value {
        Some(number) => {
            proof {
                Single::lemma_of_int(factor as int);
            }
            Some(number.divided_by(Single::from_u32(factor)))
        },
        None => None,
    }
}

/// The degrees Celsius and the watts of the first monitor that has either.
pub fn read_hwmon(sensors: &Vec<HwmonFiles>) -> (metrics: (Option<Single>, Option<Single>))
    ensures
        metrics == hwmon_metrics(sensors@),
{
    let mut i: usize = 0;
    assert(sensors@.subrange(0, sensors.len() as int) =~= sensors@);
    while i < sensors.len()
        invariant
            i <= sensors.len(),
            hwmon_metrics(sensors@) == hwmon_metrics(
                sensors@.subrange(i as int, sensors.len() as int),
            ),
        decreases sensors.len() - i,
    {
        let sensor = sensors[i];
        proof {
            let rest = sensors@.subrange(i as int, sensors.len() as int);
            assert(rest[0] == sensor);
            assert(rest.subrange(1, rest.len() as int) =~= sensors@.subrange(
                i + 1,
                sensors.len() as int,
            ));
        }
        let temperature = divided(sensor.temperature, 1000);
        let watts = match sensor.power_average {
            Some(average) => Some(average),
            None => sensor.power_input,
        };
        let power = divided(watts, 1_000_000);
        if temperature.is_some() || power.is_some() {
            return (temperature, power);
        }
        i = i + 1;
    }
    (None, None)
}

/// The GPU that the files of a card describe.
pub fn collect_card(index: usize, files: &CardFiles) -> (gpu: GpuInfo)
    ensures
        gpu.deep_view() == card_view(index, *files),
{
    let vendor = match read_trimmed(&files.vendor) {
        Some(id) => vendor_name(id.as_str()),
        None => None,
    };
    let name = match read_trimmed(&files.label) {
        Some(label) => label,
        None => match read_trimmed(&files.product_name) {
            Some(product_name) => product_name,
            None => {
                let mut numbered = "GPU ".to_owned();
                text::push_decimal(&mut numbered, index as u64);
                numbered
            },
        },
    };
    let (temperature_celsius, power_watts) = read_hwmon(&files.sensors);
    GpuInfo {
        index,
        name: Some(name),
        vendor,
        memory_total_bytes: read_u64(&files.memory_total),
        memory_used_bytes: read_u64(&files.memory_used),
        utilization_percent: files.busy_percent,
        temperature_celsius,
        power_watts,
    }
}

/// The GPUs of a machine: those of the cards, in their order, with the
/// telemetry of the NVIDIA devices added; none at all where the cards cannot be
/// listed.
pub open spec fn machine_views(
    cards: Option<Vec<CardFiles>>,
    nvml: Seq<NvmlDevice>,
) -> Seq<GpuView> {
    match cards {
        Some(listed) => gpu::with_all_nvml(card_views(listed@), gpu::nvml_records(nvml)),
        None => Seq::empty(),
    }
}

fn card_gpus(cards: &Vec<CardFiles>) -> (gpus: Vec<GpuInfo>)
    ensures
        gpus.deep_view() == card_views(cards@),
{
    let mut gpus: Vec<GpuInfo> = Vec::new();
    let mut i: usize = 0;
    while i < cards.len()
        invariant
            i <= cards.len(),
            gpus.len() == i,
            forall|j: int| 0 <= j < i ==> gpus[j].deep_view() == #[trigger] card_views(cards@)[j],
        decreases cards.len() - i,
    {
        gpus.push(collect_card(i, &cards[i]));
        i = i + 1;
    }
    assert(gpus.deep_view() =~= card_views(cards@));
    gpus
}

/// The GPUs of a machine, given the files of its cards by number, or nothing
/// where the cards cannot be listed.
pub fn collect(cards: &Option<Vec<CardFiles>>, nvml: &Vec<NvmlDevice>) -> (gpus: Vec<GpuInfo>)
    ensures
        gpus.deep_view() == machine_views(*cards, nvml@),
{
    match cards {
        Some(listed) => {
            let mut gpus = card_gpus(listed);
            let telemetry = gpu::collect_nvml(nvml);
            gpu::merge_nvml_metrics(&mut gpus, &telemetry);
            gpus
        },
        None => {
            let gpus: Vec<GpuInfo> = Vec::new();
            assert(gpus.deep_view() =~= Seq::empty());
            gpus
        },
    }
}

/// The GPUs of a Linux machine are counted from zero.
pub proof fn lemma_collect_counted(cards: Option<Vec<CardFiles>>, nvml: Seq<NvmlDevice>)
    ensures
        gpu::counted(machine_views(cards, nvml)),
{
    if let Some(listed) = cards {
        gpu::lemma_nvml_keeps_all(card_views(listed@), gpu::nvml_records(nvml));
    }
}

/// Two orders of the same directory entries are the same.
pub proof fn lemma_card_order_unique(names: Seq<Seq<char>>, left: Seq<usize>, right: Seq<usize>)
    requires
        is_card_order(names, left),
        is_card_order(names, right),
    ensures
        left == right,
{
    lemma_card_order_prefix(names, left, right, left.len());
    lemma_card_order_prefix(names, right, left, right.len());
    assert(left =~= right);
}

/// Two orders agree as far as the first one goes.
proof fn lemma_card_order_prefix(
    names: Seq<Seq<char>>,
    left: Seq<usize>,
    right: Seq<usize>,
    n: nat,
)
    requires
        is_card_order(names, left),
        is_card_order(names, right),
        n <= left.len(),
    ensures
        n <= right.len(),
        forall|i: int| 0 <= i < n ==> left[i] == right[i],
    decreases n,
{
    if n > 0 {
        lemma_card_order_prefix(names, left, right, (n - 1) as nat);
        let last = n - 1;
        let position = left[last];
        assert(right.contains(position));
        let i = choose|i: int| 0 <= i < right.len() && right[i] == position;
        if i < last {
            assert(left[i] == position);
            assert(comes_before(names, left[i], left[last]));
        }
        if i > last {
            let other = right[last];
            assert(comes_before(names, right[last], right[i]));
            assert(left.contains(other));
            let j = choose|j: int| 0 <= j < left.len() && left[j] == other;
            if j < last {
                assert(right[j] == other);
                assert(comes_before(names, right[j], right[last]));
            } else if j > last {
                assert(comes_before(names, left[last], left[j]));
            }
        }
    }
}

} // verus!

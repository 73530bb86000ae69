//! Graphics processors and their telemetry.

pub mod linux;
pub mod macos;
pub mod windows;

use crate::float::{Double, Single};
use crate::metrics;
use crate::text;
use vstd::prelude::*;

verus! {

/// Best-effort GPU information. Unsupported metrics are absent.
#[derive(Debug)]
pub struct GpuInfo {
    pub index: usize,
    pub name: Option<String>,
    pub vendor: Option<String>,
    pub memory_total_bytes: Option<u64>,
    pub memory_used_bytes: Option<u64>,
    pub utilization_percent: Option<Single>,
    pub temperature_celsius: Option<Single>,
    pub power_watts: Option<Single>,
}

impl Clone for GpuInfo {
    fn clone(&self) -> (copy: Self)
        ensures
            copy == *self,
    {
        GpuInfo {
            index: self.index,
            name: self.name.clone(),
            vendor: self.vendor.clone(),
            memory_total_bytes: self.memory_total_bytes,
            memory_used_bytes: self.memory_used_bytes,
            utilization_percent: self.utilization_percent,
            temperature_celsius: self.temperature_celsius,
            power_watts: self.power_watts,
        }
    }
}

/// A GPU with its texts as sequences of characters.
pub struct GpuView {
    pub index: usize,
    pub name: Option<Seq<char>>,
    pub vendor: Option<Seq<char>>,
    pub memory_total_bytes: Option<u64>,
    pub memory_used_bytes: Option<u64>,
    pub utilization_percent: Option<Single>,
    pub temperature_celsius: Option<Single>,
    pub power_watts: Option<Single>,
}

impl DeepView for GpuInfo {
    type V = GpuView;

    open spec fn deep_view(&self) -> GpuView {
        GpuView {
            index: self.index,
            name: self.name.deep_view(),
            vendor: self.vendor.deep_view(),
            memory_total_bytes: self.memory_total_bytes,
            memory_used_bytes: self.memory_used_bytes,
            utilization_percent: self.utilization_percent,
            temperature_celsius: self.temperature_celsius,
            power_watts: self.power_watts,
        }
    }
}

/// What the NVIDIA management library says of one device; what cannot be
/// read is absent.
#[derive(Debug)]
pub struct NvmlDevice {
    pub name: Option<String>,
    pub memory: Option<NvmlMemory>,
    pub utilization_percent: Option<u32>,
    pub temperature_celsius: Option<u32>,
    pub power_milliwatts: Option<u32>,
}

/// The memory of an NVIDIA device, in bytes.
#[derive(Clone, Copy, Debug)]
pub struct NvmlMemory {
    pub total: u64,
    pub used: u64,
}

/// The telemetry of an NVIDIA device.
#[derive(Debug)]
pub struct NvmlGpuInfo {
    pub name: String,
    pub memory_total_bytes: Option<u64>,
    pub memory_used_bytes: Option<u64>,
    pub utilization_percent: Option<Single>,
    pub temperature_celsius: Option<Single>,
    pub power_watts: Option<Single>,
}

/// The telemetry of an NVIDIA device, with its name as characters.
pub struct NvmlView {
    pub name: Seq<char>,
    pub memory_total_bytes: Option<u64>,
    pub memory_used_bytes: Option<u64>,
    pub utilization_percent: Option<Single>,
    pub temperature_celsius: Option<Single>,
    pub power_watts: Option<Single>,
}

impl DeepView for NvmlGpuInfo {
    type V = NvmlView;

    open spec fn deep_view(&self) -> NvmlView {
        NvmlView {
            name: self.name@,
            memory_total_bytes: self.memory_total_bytes,
            memory_used_bytes: self.memory_used_bytes,
            utilization_percent: self.utilization_percent,
            temperature_celsius: self.temperature_celsius,
            power_watts: self.power_watts,
        }
    }
}

/// An integer metric as a number.
pub open spec fn whole_number(metric: Option<u32>) -> Option<Single> {
    match metric {
        Some(n) => Some(Single::of_int(n as int)),
        None => None,
    }
}

/// Milliwatts in watts.
pub open spec fn watts(milliwatts: Option<u32>) -> Option<Single> {
    match milliwatts {
        Some(n) => Some(Single::of_int(n as int).quotient(Single::of_int(1000))),
        None => None,
    }
}

/// The telemetry of a device whose name is not blank.
pub open spec fn nvml_record(device: NvmlDevice) -> Option<NvmlView> {
    match device.name {
        Some(name) => {
            let trimmed = text::trimmed(name@);
            if trimmed.len() == 0 {
                None
            } else {
                Some(
                    NvmlView {
                        name: trimmed,
                        memory_total_bytes: match device.memory {
                            Some(memory) => Some(memory.total),
                            None => None,
                        },
                        memory_used_bytes: match device.memory {
                            Some(memory) => Some(memory.used),
                            None => None,
                        },
                        utilization_percent: whole_number(device.utilization_percent),
                        temperature_celsius: whole_number(device.temperature_celsius),
                        power_watts: watts(device.power_milliwatts),
                    },
                )
            }
        },
        None => None,
    }
}

/// The telemetry of the devices that have any, in their order.
pub open spec fn nvml_records(devices: Seq<NvmlDevice>) -> Seq<NvmlView>
    decreases devices.len(),
{
    if devices.len() == 0 {
        Seq::empty()
    } else {
        let before = nvml_records(devices.drop_last());
        match nvml_record(devices.last()) {
            Some(record) => before.push(record),
            None => before,
        }
    }
}

/// Whether telemetry belongs to a GPU: by its name, or, for an NVIDIA GPU, by
/// the size of its memory.
pub open spec fn nvml_matches(gpu: GpuView, telemetry: NvmlView) -> bool {
    ||| is_named(gpu, telemetry.name)
    ||| gpu.vendor == Some("NVIDIA"@) && gpu.memory_total_bytes == telemetry.memory_total_bytes
}

/// The first position, from `i` on, of a GPU with the property; the length if
/// there is none.
pub open spec fn position(gpus: Seq<GpuView>, property: spec_fn(GpuView) -> bool, i: nat) -> nat
    decreases gpus.len() - i,
{
    if i >= gpus.len() {
        gpus.len()
    } else if property(gpus[i as int]) {
        i
    } else {
        position(gpus, property, i + 1)
    }
}

/// The GPUs after telemetry was added to the first one that it belongs to, or
/// as a new one.
pub open spec fn with_nvml(gpus: Seq<GpuView>, telemetry: NvmlView) -> Seq<GpuView> {
    let i = position(gpus, |gpu: GpuView| nvml_matches(gpu, telemetry), 0) as int;
    if i < gpus.len() {
        gpus.update(
            i,
            GpuView {
                memory_total_bytes: match telemetry.memory_total_bytes {
                    Some(bytes) => Some(bytes),
                    None => gpus[i].memory_total_bytes,
                },
                memory_used_bytes: telemetry.memory_used_bytes,
                utilization_percent: telemetry.utilization_percent,
                temperature_celsius: telemetry.temperature_celsius,
                power_watts: telemetry.power_watts,
                ..gpus[i]
            },
        )
    } else {
        gpus.push(
            GpuView {
                index: gpus.len() as usize,
                name: Some(telemetry.name),
                vendor: Some("NVIDIA"@),
                memory_total_bytes: telemetry.memory_total_bytes,
                memory_used_bytes: telemetry.memory_used_bytes,
                utilization_percent: telemetry.utilization_percent,
                temperature_celsius: telemetry.temperature_celsius,
                power_watts: telemetry.power_watts,
            },
        )
    }
}

/// The GPUs after each telemetry was added in turn.
pub open spec fn with_all_nvml(gpus: Seq<GpuView>, telemetry: Seq<NvmlView>) -> Seq<GpuView>
    decreases telemetry.len(),
{
    if telemetry.len() == 0 {
        gpus
    } else {
        with_nvml(with_all_nvml(gpus, telemetry.drop_last()), telemetry.last())
    }
}

fn whole_number_of(metric: Option<u32>) -> (number: Option<Single>)
    ensures
        number == whole_number(metric),
{
    match metric {
        Some(n) => Some(Single::from_u32(n)),
        None => None,
    }
}

fn watts_of(milliwatts: Option<u32>) -> (number: Option<Single>)
    ensures
        number == watts(milliwatts),
{
    match milliwatts {
        Some(n) => {
            proof {
                Single::lemma_of_int(1000);
            }
            Some(Single::from_u32(n).divided_by(Single::from_u32(1000)))
        },
        None => None,
    }
}

fn nvml_info(device: &NvmlDevice) -> (info: Option<NvmlGpuInfo>)
    ensures
        info.deep_view() == nvml_record(*device),
{
    let name = match &device.name {
        Some(name) => text::trim(name.as_str()).to_owned(),
        None => return None,
    };
    if name.as_str().is_empty() {
        return None;
    }
    let (memory_total_bytes, memory_used_bytes) = match device.memory {
        Some(memory) => (Some(memory.total), Some(memory.used)),
        None => (None, None),
    };
    Some(
        NvmlGpuInfo {
            name,
            memory_total_bytes,
            memory_used_bytes,
            utilization_percent: whole_number_of(device.utilization_percent),
            temperature_celsius: whole_number_of(device.temperature_celsius),
            power_watts: watts_of(device.power_milliwatts),
        },
    )
}

/// The telemetry of the NVIDIA devices whose name can be read and is not blank.
pub fn collect_nvml(devices: &Vec<NvmlDevice>) -> (telemetry: Vec<NvmlGpuInfo>)
    ensures
        telemetry.deep_view() == nvml_records(devices@),
{
    let mut telemetry: Vec<NvmlGpuInfo> = Vec::new();
    let mut i: usize = 0;
    assert(devices@.take(0) =~= Seq::empty());
    assert(telemetry.deep_view() =~= Seq::empty());
    while i < devices.len()
        invariant
            i <= devices.len(),
            telemetry.deep_view() == nvml_records(devices@.take(i as int)),
        decreases devices.len() - i,
    {
        let ghost before = telemetry.deep_view();
        assert(devices@.take(i + 1).drop_last() =~= devices@.take(i as int));
        if let Some(info) = nvml_info(&devices[i]) {
            telemetry.push(info);
            assert(telemetry.deep_view() =~= before.push(info.deep_view()));
        }
        i = i + 1;
    }
    assert(devices@.take(i as int) =~= devices@);
    telemetry
}

fn has_vendor(gpu: &GpuInfo, vendor: &str) -> (has: bool)
    ensures
        has == (gpu.deep_view().vendor == Some(vendor@)),
{
    match &gpu.vendor {
        Some(name) => text::same_text(name.as_str(), vendor),
        None => false,
    }
}

/// Whether a GPU's name, without white space around it, is the given one in
/// any case.
pub open spec fn is_named(gpu: GpuView, sought: Seq<char>) -> bool {
    gpu.name matches Some(name) && text::lowercase(text::trimmed(name)) == text::lowercase(sought)
}

fn has_name(gpu: &GpuInfo, sought: &str) -> (has: bool)
    ensures
        has == is_named(gpu.deep_view(), sought@),
{
    match &gpu.name {
        Some(name) => text::eq_ignore_ascii_case(text::trim(name.as_str()), sought),
        None => false,
    }
}

fn same_bytes(left: Option<u64>, right: Option<u64>) -> (same: bool)
    ensures
        same == (left == right),
{
    match (left, right) {
        (Some(left_bytes), Some(right_bytes)) => left_bytes == right_bytes,
        (None, None) => true,
        _ => false,
    }
}

fn nvml_position(gpus: &Vec<GpuInfo>, telemetry: &NvmlGpuInfo) -> (i: usize)
    ensures
        i == position(
            gpus.deep_view(),
            |gpu: GpuView| nvml_matches(gpu, telemetry.deep_view()),
            0,
        ),
        i <= gpus.len(),
{
    let ghost property = |gpu: GpuView| nvml_matches(gpu, telemetry.deep_view());
    let mut i: usize = 0;
    while i < gpus.len()
        invariant
            i <= gpus.len(),
            property == |gpu: GpuView| nvml_matches(gpu, telemetry.deep_view()),
            position(gpus.deep_view(), property, 0) == position(
                gpus.deep_view(),
                property,
                i as nat,
            ),
        decreases gpus.len() - i,
    {
        let gpu = &gpus[i];
        assert(gpus.deep_view()[i as int] == gpu.deep_view());
        if has_name(gpu, telemetry.name.as_str()) || (has_vendor(gpu, "NVIDIA") && same_bytes(
            gpu.memory_total_bytes,
            telemetry.memory_total_bytes,
        )) {
            return i;
        }
        i = i + 1;
    }
    i
}

fn add_nvml(gpus: &mut Vec<GpuInfo>, telemetry: &NvmlGpuInfo)
    ensures
        final(gpus).deep_view() == with_nvml(old(gpus).deep_view(), telemetry.deep_view()),
{
    let i: usize = nvml_position(gpus, telemetry);
    if i < gpus.len() {
        let gpu = &gpus[i];
        let updated = GpuInfo {
            memory_total_bytes: match telemetry.memory_total_bytes {
                Some(bytes) => Some(bytes),
                None => gpu.memory_total_bytes,
            },
            memory_used_bytes: telemetry.memory_used_bytes,
            utilization_percent: telemetry.utilization_percent,
            temperature_celsius: telemetry.temperature_celsius,
            power_watts: telemetry.power_watts,
            ..gpu.clone()
        };
        let ghost view = updated.deep_view();
        assert(old(gpus).deep_view()[i as int] == gpu.deep_view());
        gpus.set(i, updated);
        assert(gpus.deep_view() =~= old(gpus).deep_view().update(i as int, view));
    } else {
        let added = GpuInfo {
            index: gpus.len(),
            name: Some(telemetry.name.clone()),
            vendor: Some("NVIDIA".to_owned()),
            memory_total_bytes: telemetry.memory_total_bytes,
            memory_used_bytes: telemetry.memory_used_bytes,
            utilization_percent: telemetry.utilization_percent,
            temperature_celsius: telemetry.temperature_celsius,
            power_watts: telemetry.power_watts,
        };
        let ghost view = added.deep_view();
        gpus.push(added);
        assert(gpus.deep_view() =~= old(gpus).deep_view().push(view));
    }
}

/// Adds the telemetry of NVIDIA devices to the GPUs that it belongs to, and a
/// GPU for each that belongs to none.
pub fn merge_nvml_metrics(gpus: &mut Vec<GpuInfo>, telemetry: &Vec<NvmlGpuInfo>)
    ensures
        final(gpus).deep_view() == with_all_nvml(old(gpus).deep_view(), telemetry.deep_view()),
{
    let mut i: usize = 0;
    let ghost all = telemetry.deep_view();
    assert(all.take(0) =~= Seq::empty());
    while i < telemetry.len()
        invariant
            i <= telemetry.len(),
            all == telemetry.deep_view(),
            gpus.deep_view() == with_all_nvml(old(gpus).deep_view(), all.take(i as int)),
        decreases telemetry.len() - i,
    {
        assert(all.take(i + 1).drop_last() =~= all.take(i as int));
        assert(all.take(i + 1).last() == telemetry[i as int].deep_view());
        add_nvml(gpus, &telemetry[i]);
        i = i + 1;
    }
    assert(all.take(i as int) =~= all);
}

/// What the AMD device library says of one device; what cannot be read is
/// absent.
#[derive(Debug)]
pub struct AdlxDevice {
    pub name: Option<String>,
    pub usage: Option<Double>,
    pub temperature: Option<Double>,
    pub power: Option<Double>,
}

/// The telemetry of an AMD device.
#[derive(Debug)]
pub struct AdlxGpuInfo {
    pub name: String,
    pub utilization_percent: Option<Single>,
    pub temperature_celsius: Option<Single>,
    pub power_watts: Option<Single>,
}

/// The telemetry of an AMD device, with its name as characters.
pub struct AdlxView {
    pub name: Seq<char>,
    pub utilization_percent: Option<Single>,
    pub temperature_celsius: Option<Single>,
    pub power_watts: Option<Single>,
}

impl DeepView for AdlxGpuInfo {
    type V = AdlxView;

    open spec fn deep_view(&self) -> AdlxView {
        AdlxView {
            name: self.name@,
            utilization_percent: self.utilization_percent,
            temperature_celsius: self.temperature_celsius,
            power_watts: self.power_watts,
        }
    }
}

/// A metric that was read and is plausible.
pub open spec fn plausible_metric(
    metric: Option<Double>,
    minimum: int,
    maximum: int,
) -> Option<Single> {
    match metric {
        Some(value) => metrics::plausible(value, minimum, maximum),
        None => None,
    }
}

/// The telemetry of a device whose name is not blank.
pub open spec fn adlx_record(device: AdlxDevice) -> Option<AdlxView> {
    match device.name {
        Some(name) => {
            let trimmed = text::trimmed(name@);
            if trimmed.len() == 0 {
                None
            } else {
                Some(
                    AdlxView {
                        name: trimmed,
                        utilization_percent: plausible_metric(device.usage, 0, 100),
                        temperature_celsius: plausible_metric(device.temperature, -50, 200),
                        power_watts: plausible_metric(device.power, 0, 10_000),
                    },
                )
            }
        },
        None => None,
    }
}

/// The telemetry of the devices that have any, in their order.
pub open spec fn adlx_records(devices: Seq<AdlxDevice>) -> Seq<AdlxView>
    decreases devices.len(),
{
    if devices.len() == 0 {
        Seq::empty()
    } else {
        let before = adlx_records(devices.drop_last());
        match adlx_record(devices.last()) {
            Some(record) => before.push(record),
            None => before,
        }
    }
}

/// Where telemetry of an AMD device belongs: to the first AMD GPU of its name,
/// else to the first AMD GPU without a temperature. The length stands for no
/// place.
pub open spec fn adlx_position(gpus: Seq<GpuView>, telemetry: AdlxView) -> nat {
    let exact = position(
        gpus,
        |gpu: GpuView| gpu.vendor == Some("AMD"@) && is_named(gpu, telemetry.name),
        0,
    );
    if exact < gpus.len() {
        exact
    } else {
        position(
            gpus,
            |gpu: GpuView| gpu.vendor == Some("AMD"@) && gpu.temperature_celsius is None,
            0,
        )
    }
}

/// The GPUs after telemetry was added where it belongs, or as a new one.
pub open spec fn with_adlx(gpus: Seq<GpuView>, telemetry: AdlxView) -> Seq<GpuView> {
    let i = adlx_position(gpus, telemetry) as int;
    if i < gpus.len() {
        gpus.update(
            i,
            GpuView {
                utilization_percent: telemetry.utilization_percent,
                temperature_celsius: telemetry.temperature_celsius,
                power_watts: telemetry.power_watts,
                ..gpus[i]
            },
        )
    } else {
        gpus.push(
            GpuView {
                index: gpus.len() as usize,
                name: Some(telemetry.name),
                vendor: Some("AMD"@),
                memory_total_bytes: None,
                memory_used_bytes: None,
                utilization_percent: telemetry.utilization_percent,
                temperature_celsius: telemetry.temperature_celsius,
                power_watts: telemetry.power_watts,
            },
        )
    }
}

/// The GPUs after each telemetry was added in turn.
pub open spec fn with_all_adlx(gpus: Seq<GpuView>, telemetry: Seq<AdlxView>) -> Seq<GpuView>
    decreases telemetry.len(),
{
    if telemetry.len() == 0 {
        gpus
    } else {
        with_adlx(with_all_adlx(gpus, telemetry.drop_last()), telemetry.last())
    }
}

fn adlx_info(device: &AdlxDevice) -> (info: Option<AdlxGpuInfo>)
    ensures
        info.deep_view() == adlx_record(*device),
{
    let name = match &device.name {
        Some(name) => text::trim(name.as_str()).to_owned(),
        None => return None,
    };
    if name.as_str().is_empty() {
        return None;
    }
    let utilization_percent = match device.usage {
        Some(value) => metrics::valid_percent(value),
        None => None,
    };
    let temperature_celsius = match device.temperature {
        Some(value) => metrics::valid_temperature(value),
        None => None,
    };
    let power_watts = match device.power {
        Some(value) => metrics::valid_power(value),
        None => None,
    };
    Some(AdlxGpuInfo { name, utilization_percent, temperature_celsius, power_watts })
}

/// The telemetry of the AMD devices whose name can be read and is not blank.
pub fn collect_adlx(devices: &Vec<AdlxDevice>) -> (telemetry: Vec<AdlxGpuInfo>)
    ensures
        telemetry.deep_view() == adlx_records(devices@),
{
    let mut telemetry: Vec<AdlxGpuInfo> = Vec::new();
    let mut i: usize = 0;
    assert(devices@.take(0) =~= Seq::empty());
    assert(telemetry.deep_view() =~= Seq::empty());
    while i < devices.len()
        invariant
            i <= devices.len(),
            telemetry.deep_view() == adlx_records(devices@.take(i as int)),
        decreases devices.len() - i,
    {
        let ghost before = telemetry.deep_view();
        assert(devices@.take(i + 1).drop_last() =~= devices@.take(i as int));
        if let Some(info) = adlx_info(&devices[i]) {
            telemetry.push(info);
            assert(telemetry.deep_view() =~= before.push(info.deep_view()));
        }
        i = i + 1;
    }
    assert(devices@.take(i as int) =~= devices@);
    telemetry
}

fn exact_adlx_position(gpus: &Vec<GpuInfo>, name: &str) -> (i: usize)
    ensures
        i == position(
            gpus.deep_view(),
            |gpu: GpuView| gpu.vendor == Some("AMD"@) && is_named(gpu, name@),
            0,
        ),
        i <= gpus.len(),
{
    let ghost property = |gpu: GpuView| gpu.vendor == Some("AMD"@) && is_named(gpu, name@);
    let mut i: usize = 0;
    while i < gpus.len()
        invariant
            i <= gpus.len(),
            property == |gpu: GpuView| gpu.vendor == Some("AMD"@) && is_named(gpu, name@),
            position(gpus.deep_view(), property, 0) == position(
                gpus.deep_view(),
                property,
                i as nat,
            ),
        decreases gpus.len() - i,
    {
        let gpu = &gpus[i];
        assert(gpus.deep_view()[i as int] == gpu.deep_view());
        if has_vendor(gpu, "AMD") && has_name(gpu, name) {
            return i;
        }
        i = i + 1;
    }
    i
}

fn fallback_adlx_position(gpus: &Vec<GpuInfo>) -> (i: usize)
    ensures
        i == position(
            gpus.deep_view(),
            |gpu: GpuView| gpu.vendor == Some("AMD"@) && gpu.temperature_celsius is None,
            0,
        ),
        i <= gpus.len(),
{
    let ghost property = |gpu: GpuView|
        gpu.vendor == Some("AMD"@) && gpu.temperature_celsius is None;
    let mut i: usize = 0;
    while i < gpus.len()
        invariant
            i <= gpus.len(),
            property == |gpu: GpuView|
                gpu.vendor == Some("AMD"@) && gpu.temperature_celsius is None,
            position(gpus.deep_view(), property, 0) == position(
                gpus.deep_view(),
                property,
                i as nat,
            ),
        decreases gpus.len() - i,
    {
        let gpu = &gpus[i];
        assert(gpus.deep_view()[i as int] == gpu.deep_view());
        if has_vendor(gpu, "AMD") && gpu.temperature_celsius.is_none() {
            return i;
        }
        i = i + 1;
    }
    i
}

fn add_adlx(gpus: &mut Vec<GpuInfo>, telemetry: &AdlxGpuInfo)
    ensures
        final(gpus).deep_view() == with_adlx(old(gpus).deep_view(), telemetry.deep_view()),
{
    let exact: usize = exact_adlx_position(gpus, telemetry.name.as_str());
    let i: usize = if exact < gpus.len() {
        exact
    } else {
        fallback_adlx_position(gpus)
    };
    if i < gpus.len() {
        let gpu = &gpus[i];
        let updated = GpuInfo {
            utilization_percent: telemetry.utilization_percent,
            temperature_celsius: telemetry.temperature_celsius,
            power_watts: telemetry.power_watts,
            ..gpu.clone()
        };
        let ghost view = updated.deep_view();
        assert(old(gpus).deep_view()[i as int] == gpu.deep_view());
        gpus.set(i, updated);
        assert(gpus.deep_view() =~= old(gpus).deep_view().update(i as int, view));
    } else {
        let added = GpuInfo {
            index: gpus.len(),
            name: Some(telemetry.name.clone()),
            vendor: Some("AMD".to_owned()),
            memory_total_bytes: None,
            memory_used_bytes: None,
            utilization_percent: telemetry.utilization_percent,
            temperature_celsius: telemetry.temperature_celsius,
            power_watts: telemetry.power_watts,
        };
        let ghost view = added.deep_view();
        gpus.push(added);
        assert(gpus.deep_view() =~= old(gpus).deep_view().push(view));
    }
}

/// Adds the telemetry of AMD devices to the GPUs that it belongs to, and a GPU
/// for each that belongs to none.
pub fn merge_adlx_metrics(gpus: &mut Vec<GpuInfo>, telemetry: &Vec<AdlxGpuInfo>)
    ensures
        final(gpus).deep_view() == with_all_adlx(old(gpus).deep_view(), telemetry.deep_view()),
{
    let mut i: usize = 0;
    let ghost all = telemetry.deep_view();
    assert(all.take(0) =~= Seq::empty());
    while i < telemetry.len()
        invariant
            i <= telemetry.len(),
            all == telemetry.deep_view(),
            gpus.deep_view() == with_all_adlx(old(gpus).deep_view(), all.take(i as int)),
        decreases telemetry.len() - i,
    {
        assert(all.take(i + 1).drop_last() =~= all.take(i as int));
        assert(all.take(i + 1).last() == telemetry[i as int].deep_view());
        add_adlx(gpus, &telemetry[i]);
        i = i + 1;
    }
    assert(all.take(i as int) =~= all);
}

/// Whether each GPU's index is its position.
pub open spec fn counted(gpus: Seq<GpuView>) -> bool {
    forall|i: int| 0 <= i < gpus.len() && i <= usize::MAX ==> (#[trigger] gpus[i]).index == i
}

/// Whether every GPU of `before` is still in its place, under its name and
/// vendor.
pub open spec fn keeps_all(before: Seq<GpuView>, after: Seq<GpuView>) -> bool {
    &&& before.len() <= after.len()
    &&& forall|i: int|
        0 <= i < before.len() ==> {
            &&& (#[trigger] after[i]).index == before[i].index
            &&& after[i].name == before[i].name
            &&& after[i].vendor == before[i].vendor
        }
}

/// Telemetry of NVIDIA devices removes, moves and renames no GPU.
pub proof fn lemma_nvml_keeps_all(gpus: Seq<GpuView>, telemetry: Seq<NvmlView>)
    ensures
        keeps_all(gpus, with_all_nvml(gpus, telemetry)),
        counted(gpus) ==> counted(with_all_nvml(gpus, telemetry)),
    decreases telemetry.len(),
{
    if telemetry.len() > 0 {
        lemma_nvml_keeps_all(gpus, telemetry.drop_last());
    }
}

/// Telemetry of AMD devices removes, moves and renames no GPU.
pub proof fn lemma_adlx_keeps_all(gpus: Seq<GpuView>, telemetry: Seq<AdlxView>)
    ensures
        keeps_all(gpus, with_all_adlx(gpus, telemetry)),
        counted(gpus) ==> counted(with_all_adlx(gpus, telemetry)),
    decreases telemetry.len(),
{
    if telemetry.len() > 0 {
        lemma_adlx_keeps_all(gpus, telemetry.drop_last());
    }
}

/// A position that was found has the property, and none before it has.
pub proof fn lemma_position(gpus: Seq<GpuView>, property: spec_fn(GpuView) -> bool, i: nat)
    requires
        i <= gpus.len(),
    ensures
        i <= position(gpus, property, i) <= gpus.len(),
        position(gpus, property, i) < gpus.len() ==> property(
            gpus[position(gpus, property, i) as int],
        ),
        forall|j: int| i <= j < position(gpus, property, i) ==> !property(#[trigger] gpus[j]),
    decreases gpus.len() - i,
{
    if i < gpus.len() && !property(gpus[i as int]) {
        lemma_position(gpus, property, i + 1);
    }
}

/// Telemetry of an NVIDIA device shows on one GPU, and on no other.
pub proof fn lemma_nvml_shows_once(gpus: Seq<GpuView>, telemetry: NvmlView)
    ensures
        ({
            let after = with_nvml(gpus, telemetry);
            let i = position(gpus, |gpu: GpuView| nvml_matches(gpu, telemetry), 0) as int;
            &&& 0 <= i < after.len()
            &&& after[i].memory_used_bytes == telemetry.memory_used_bytes
            &&& after[i].utilization_percent == telemetry.utilization_percent
            &&& after[i].temperature_celsius == telemetry.temperature_celsius
            &&& after[i].power_watts == telemetry.power_watts
            &&& forall|j: int| 0 <= j < gpus.len() && j != i ==> after[j] == #[trigger] gpus[j]
        }),
{
    lemma_position(gpus, |gpu: GpuView| nvml_matches(gpu, telemetry), 0);
}

/// Telemetry has a name without white space around it.
pub proof fn lemma_telemetry_named(nvidia: NvmlDevice, amd: AdlxDevice)
    ensures
        nvml_record(nvidia) matches Some(record) ==> record.name.len() > 0 && text::trimmed(
            record.name,
        ) == record.name,
        adlx_record(amd) matches Some(record) ==> record.name.len() > 0 && text::trimmed(
            record.name,
        ) == record.name,
{
    if let Some(name) = nvidia.name {
        text::lemma_trimmed(name@);
    }
    if let Some(name) = amd.name {
        text::lemma_trimmed(name@);
    }
}

/// Telemetry of an NVIDIA device that was added finds its GPU again: to add it
/// once more changes nothing.
pub proof fn lemma_nvml_added_twice(gpus: Seq<GpuView>, telemetry: NvmlView)
    requires
        text::trimmed(telemetry.name) == telemetry.name,
    ensures
        with_nvml(with_nvml(gpus, telemetry), telemetry) == with_nvml(gpus, telemetry),
{
    let property = |gpu: GpuView| nvml_matches(gpu, telemetry);
    let after = with_nvml(gpus, telemetry);
    let i = position(gpus, property, 0);
    let again = position(after, property, 0);
    lemma_position(gpus, property, 0);
    lemma_position(after, property, 0);
    assert(property(after[i as int]));
    assert forall|j: int| 0 <= j < i implies !property(#[trigger] after[j]) by {
        assert(after[j] == gpus[j]);
    }
    assert(again == i);
    assert(with_nvml(after, telemetry) =~= after);
}

/// Telemetry of an AMD device shows on one GPU, and on no other. It touches no
/// GPU of another vendor.
pub proof fn lemma_adlx_shows_once(gpus: Seq<GpuView>, telemetry: AdlxView)
    ensures
        ({
            let after = with_adlx(gpus, telemetry);
            let i = adlx_position(gpus, telemetry) as int;
            &&& 0 <= i < after.len()
            &&& after[i].vendor == Some("AMD"@)
            &&& after[i].utilization_percent == telemetry.utilization_percent
            &&& after[i].temperature_celsius == telemetry.temperature_celsius
            &&& after[i].power_watts == telemetry.power_watts
            &&& forall|j: int| 0 <= j < gpus.len() && j != i ==> after[j] == #[trigger] gpus[j]
        }),
{
    lemma_position(
        gpus,
        |gpu: GpuView| gpu.vendor == Some("AMD"@) && is_named(gpu, telemetry.name),
        0,
    );
    lemma_position(
        gpus,
        |gpu: GpuView| gpu.vendor == Some("AMD"@) && gpu.temperature_celsius is None,
        0,
    );
}

/// Whether telemetry of an AMD device goes to a GPU of another name, for want of
/// one of its own.
pub open spec fn falls_back(gpus: Seq<GpuView>, telemetry: AdlxView) -> bool {
    let i = adlx_position(gpus, telemetry) as int;
    i < gpus.len() && !is_named(gpus[i], telemetry.name)
}

/// Telemetry of an AMD device that was added to a GPU of its name, or as a new
/// one, finds it again: to add it once more changes nothing. So it is with
/// telemetry without a temperature.
pub proof fn lemma_adlx_added_twice(gpus: Seq<GpuView>, telemetry: AdlxView)
    requires
        text::trimmed(telemetry.name) == telemetry.name,
        !falls_back(gpus, telemetry) || telemetry.temperature_celsius is None,
    ensures
        with_adlx(with_adlx(gpus, telemetry), telemetry) == with_adlx(gpus, telemetry),
{
    let named = |gpu: GpuView| gpu.vendor == Some("AMD"@) && is_named(gpu, telemetry.name);
    let untold = |gpu: GpuView|
        gpu.vendor == Some("AMD"@) && gpu.temperature_celsius is None;
    let after = with_adlx(gpus, telemetry);
    let i = adlx_position(gpus, telemetry);
    lemma_position(gpus, named, 0);
    lemma_position(gpus, untold, 0);
    lemma_position(after, named, 0);
    lemma_position(after, untold, 0);
    assert forall|j: int| 0 <= j < gpus.len() implies named(#[trigger] after[j]) == named(
        gpus[j],
    ) by {}
    assert forall|j: int| 0 <= j < i implies after[j] == #[trigger] gpus[j] by {}
    if falls_back(gpus, telemetry) {
        assert(untold(after[i as int]));
        assert forall|j: int| 0 <= j < i implies !untold(#[trigger] after[j]) by {
            assert(!untold(gpus[j]));
        }
        assert forall|j: int| 0 <= j < after.len() implies !named(#[trigger] after[j]) by {
            assert(!named(gpus[j]));
        }
    } else {
        assert(named(after[i as int]));
        assert forall|j: int| 0 <= j < i implies !named(#[trigger] after[j]) by {
            assert(!named(gpus[j]));
        }
    }
    assert(adlx_position(after, telemetry) == i);
    assert(with_adlx(after, telemetry) =~= after);
}

} // verus!

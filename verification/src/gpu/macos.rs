//! Graphics processors on macOS.

use crate::float::Single;
use crate::gpu;
use crate::gpu::{GpuInfo, GpuView};
use crate::text;
use vstd::prelude::*;

verus! {

/// What the graphics system says of a device.
#[derive(Debug)]
pub struct MetalDevice {
    pub name: String,
    pub recommended_max_working_set_size: u64,
    pub current_allocated_size: u64,
}

/// The vendor that a device's name tells.
pub open spec fn vendor_of(name: Seq<char>) -> Option<Seq<char>> {
    let lower = text::lowercase(name);
    if text::contains(lower, "intel"@) {
        Some("Intel"@)
    } else if text::contains(lower, "amd"@) || text::contains(lower, "radeon"@) {
        Some("AMD"@)
    } else if text::contains(lower, "nvidia"@) || text::contains(lower, "geforce"@) {
        Some("NVIDIA"@)
    } else if text::contains(lower, "apple"@) {
        Some("Apple"@)
    } else {
        None
    }
}

/// The GPU that a device is, with the given index.
pub open spec fn device_view(index: usize, device: MetalDevice) -> GpuView {
    GpuView {
        index,
        name: Some(device.name@),
        vendor: vendor_of(device.name@),
        memory_total_bytes: Some(device.recommended_max_working_set_size),
        memory_used_bytes: Some(device.current_allocated_size),
        utilization_percent: None,
        temperature_celsius: None,
        power_watts: None,
    }
}

/// The GPUs that the devices are, in their order.
pub open spec fn device_views(devices: Seq<MetalDevice>) -> Seq<GpuView> {
    Seq::new(devices.len(), |i: int| device_view(i as usize, devices[i]))
}

/// The GPUs after the controller's temperature and power were given to the
/// first one.
pub open spec fn with_smc(
    gpus: Seq<GpuView>,
    metrics: (Option<Single>, Option<Single>),
) -> Seq<GpuView> {
    if gpus.len() > 0 {
        gpus.update(
            0,
            GpuView { temperature_celsius: metrics.0, power_watts: metrics.1, ..gpus[0] },
        )
    } else {
        gpus
    }
}

/// The GPUs that the devices are, in their order, with the controller's
/// temperature and power on the first one.
pub open spec fn machine_views(
    devices: Seq<MetalDevice>,
    metrics: (Option<Single>, Option<Single>),
) -> Seq<GpuView> {
    with_smc(device_views(devices), metrics)
}

/// The vendor that a device's name tells.
pub fn macos_vendor_from_name(name: &str) -> (vendor: Option<String>)
    ensures
        vendor.deep_view() == vendor_of(name@),
{
    let lower = text::to_ascii_lowercase(name);
    let vendor = if text::contains_text(lower.as_str(), "intel") {
        "Intel"
    } else if text::contains_text(lower.as_str(), "amd") || text::contains_text(
        lower.as_str(),
        "radeon",
    ) {
        "AMD"
    } else if text::contains_text(lower.as_str(), "nvidia") || text::contains_text(
        lower.as_str(),
        "geforce",
    ) {
        "NVIDIA"
    } else if text::contains_text(lower.as_str(), "apple") {
        "Apple"
    } else {
        return None;
    };
    Some(vendor.to_owned())
}

/// Gives the controller's temperature and power to the first GPU.
pub fn apply_smc_metrics(gpus: &mut Vec<GpuInfo>, metrics: (Option<Single>, Option<Single>))
    ensures
        final(gpus).deep_view() == with_smc(old(gpus).deep_view(), metrics),
{
    if gpus.len() > 0 {
        let gpu = &gpus[0];
        let updated = GpuInfo {
            temperature_celsius: metrics.0,
            power_watts: metrics.1,
            ..gpu.clone()
        };
        let ghost view = updated.deep_view();
        assert(old(gpus).deep_view()[0] == gpu.deep_view());
        gpus.set(0, updated);
        assert(gpus.deep_view() =~= old(gpus).deep_view().update(0, view));
    }
}

/// The GPUs that the devices are, in their order, with the controller's
/// temperature and power on the first one.
pub fn collect(devices: &Vec<MetalDevice>, metrics: (Option<Single>, Option<Single>)) -> (gpus: Vec<
    GpuInfo,
>)
    ensures
        gpus.deep_view() == machine_views(devices@, metrics),
{
    let mut gpus: Vec<GpuInfo> = Vec::new();
    let mut i: usize = 0;
    while i < devices.len()
        invariant
            i <= devices.len(),
            gpus.len() == i,
            forall|j: int|
                0 <= j < i ==> gpus[j].deep_view() == #[trigger] device_views(devices@)[j],
        decreases devices.len() - i,
    {
        let device = &devices[i];
        gpus.push(
            GpuInfo {
                index: i,
                name: Some(device.name.clone()),
                vendor: macos_vendor_from_name(device.name.as_str()),
                memory_total_bytes: Some(device.recommended_max_working_set_size),
                memory_used_bytes: Some(device.current_allocated_size),
                utilization_percent: None,
                temperature_celsius: None,
                power_watts: None,
            },
        );
        i = i + 1;
    }
    assert(gpus.deep_view() =~= device_views(devices@));
    apply_smc_metrics(&mut gpus, metrics);
    gpus
}

/// The GPUs of an Apple machine are counted from zero.
pub proof fn lemma_collect_counted(
    devices: Seq<MetalDevice>,
    metrics: (Option<Single>, Option<Single>),
)
    ensures
        gpu::counted(machine_views(devices, metrics)),
{
}

} // verus!

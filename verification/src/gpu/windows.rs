//! Graphics processors on Windows, as the graphics infrastructure lists them.

use crate::gpu;
use crate::gpu::{AdlxDevice, GpuInfo, GpuView, NvmlDevice};
use crate::text;
use vstd::prelude::*;

verus! {

/// The flag of adapters that are implemented in software.
pub const SOFTWARE_ADAPTER: u32 = 2;

/// What the graphics infrastructure says of an adapter.
#[derive(Debug)]
pub struct AdapterDescription {
    /// The name in UTF-16, up to the first zero or the end.
    pub description: Vec<u16>,
    pub vendor_id: u32,
    pub dedicated_video_memory: usize,
    pub flags: u32,
}

/// The vendor with a PCI identifier.
pub open spec fn vendor_of(vendor_id: u32) -> Option<Seq<char>> {
    if vendor_id == 0x1002 {
        Some("AMD"@)
    } else if vendor_id == 0x10DE {
        Some("NVIDIA"@)
    } else if vendor_id == 0x8086 {
        Some("Intel"@)
    } else if vendor_id == 0x106B {
        Some("Apple"@)
    } else {
        None
    }
}

/// The code units before the first zero.
pub open spec fn before_zero(units: Seq<u16>) -> Seq<u16>
    decreases units.len(),
{
    if units.len() == 0 || units[0] == 0 {
        Seq::empty()
    } else {
        seq![units[0]] + before_zero(units.subrange(1, units.len() as int))
    }
}

/// The GPU that an adapter is, with the given index.
pub open spec fn adapter_view(index: usize, adapter: AdapterDescription) -> GpuView {
    let name = text::utf16_text(before_zero(adapter.description@));
    GpuView {
        index,
        name: if name.len() > 0 {
            Some(name)
        } else {
            None
        },
        vendor: vendor_of(adapter.vendor_id),
        memory_total_bytes: Some(adapter.dedicated_video_memory as u64),
        memory_used_bytes: None,
        utilization_percent: None,
        temperature_celsius: None,
        power_watts: None,
    }
}

/// Whether an adapter can be described and is not implemented in software.
pub open spec fn is_hardware(adapter: Option<AdapterDescription>) -> bool {
    adapter matches Some(description) && description.flags & SOFTWARE_ADAPTER == 0
}

/// The GPUs among the adapters, in their order and counted from zero.
pub open spec fn adapter_views(adapters: Seq<Option<AdapterDescription>>) -> Seq<GpuView>
    decreases adapters.len(),
{
    if adapters.len() == 0 {
        Seq::empty()
    } else {
        let before = adapter_views(adapters.drop_last());
        if is_hardware(adapters.last()) {
            before.push(adapter_view(before.len() as usize, adapters.last()->0))
        } else {
            before
        }
    }
}

/// The vendor with a PCI identifier.
pub fn vendor_name(vendor_id: u32) -> (name: Option<String>)
    ensures
        name.deep_view() == vendor_of(vendor_id),
{
    let name = if vendor_id == 0x1002 {
        "AMD"
    } else if vendor_id == 0x10DE {
        "NVIDIA"
    } else if vendor_id == 0x8086 {
        "Intel"
    } else if vendor_id == 0x106B {
        "Apple"
    } else {
        return None;
    };
    Some(name.to_owned())
}

fn units_before_zero(units: &Vec<u16>) -> (name: Vec<u16>)
    ensures
        name@ == before_zero(units@),
{
    let mut name: Vec<u16> = Vec::new();
    let mut i: usize = 0;
    assert(units@.subrange(0, units.len() as int) =~= units@);
    while i < units.len() && units[i] != 0
        invariant
            i <= units.len(),
            before_zero(units@) == name@ + before_zero(
                units@.subrange(i as int, units.len() as int),
            ),
        decreases units.len() - i,
    {
        let ghost before = name@;
        proof {
            let rest = units@.subrange(i as int, units.len() as int);
            assert(rest.subrange(1, rest.len() as int) =~= units@.subrange(
                i + 1,
                units.len() as int,
            ));
            let after = before_zero(units@.subrange(i + 1, units.len() as int));
            assert(before + (seq![units[i as int]] + after) =~= before.push(units[i as int])
                + after);
        }
        name.push(units[i]);
        i = i + 1;
    }
    assert(name@ + Seq::<u16>::empty() =~= name@);
    name
}

fn adapter_gpu(index: usize, adapter: &AdapterDescription) -> (gpu: GpuInfo)
    ensures
        gpu.deep_view() == adapter_view(index, *adapter),
{
    let name = text::utf16_lossy(&units_before_zero(&adapter.description));
    GpuInfo {
        index,
        name: if name.as_str().is_empty() {
            None
        } else {
            Some(name)
        },
        vendor: vendor_name(adapter.vendor_id),
        memory_total_bytes: Some(adapter.dedicated_video_memory as u64),
        memory_used_bytes: None,
        utilization_percent: None,
        temperature_celsius: None,
        power_watts: None,
    }
}

/// The GPUs among the adapters. An adapter that cannot be described is absent.
pub fn collect_adapters(adapters: &Vec<Option<AdapterDescription>>) -> (gpus: Vec<GpuInfo>)
    ensures
        gpus.deep_view() == adapter_views(adapters@),
{
    let mut gpus: Vec<GpuInfo> = Vec::new();
    let mut i: usize = 0;
    assert(adapters@.take(0) =~= Seq::empty());
    assert(gpus.deep_view() =~= Seq::empty());
    while i < adapters.len()
        invariant
            i <= adapters.len(),
            gpus.deep_view() == adapter_views(adapters@.take(i as int)),
        decreases adapters.len() - i,
    {
        let ghost before = gpus.deep_view();
        assert(adapters@.take(i + 1).drop_last() =~= adapters@.take(i as int));
        if let Some(adapter) = &adapters[i] {
            if adapter.flags & SOFTWARE_ADAPTER == 0 {
                let gpu = adapter_gpu(gpus.len(), adapter);
                gpus.push(gpu);
                assert(gpus.deep_view() =~= before.push(gpu.deep_view()));
            }
        }
        i = i + 1;
    }
    assert(adapters@.take(i as int) =~= adapters@);
    gpus
}

/// The GPUs among the adapters, with the telemetry of the NVIDIA devices and
/// then that of the AMD devices added.
pub open spec fn machine_views(
    adapters: Seq<Option<AdapterDescription>>,
    nvml: Seq<NvmlDevice>,
    adlx: Seq<AdlxDevice>,
) -> Seq<GpuView> {
    gpu::with_all_adlx(
        gpu::with_all_nvml(adapter_views(adapters), gpu::nvml_records(nvml)),
        gpu::adlx_records(adlx),
    )
}

/// The GPUs among the adapters, with the telemetry of the NVIDIA devices and
/// then that of the AMD devices added.
pub fn collect(
    adapters: &Vec<Option<AdapterDescription>>,
    nvml: &Vec<NvmlDevice>,
    adlx: &Vec<AdlxDevice>,
) -> (gpus: Vec<GpuInfo>)
    ensures
        gpus.deep_view() == machine_views(adapters@, nvml@, adlx@),
{
    let mut gpus = collect_adapters(adapters);
    let nvidia = gpu::collect_nvml(nvml);
    gpu::merge_nvml_metrics(&mut gpus, &nvidia);
    let amd = gpu::collect_adlx(adlx);
    gpu::merge_adlx_metrics(&mut gpus, &amd);
    gpus
}

proof fn lemma_adapters_counted(adapters: Seq<Option<AdapterDescription>>)
    ensures
        gpu::counted(adapter_views(adapters)),
    decreases adapters.len(),
{
    if adapters.len() > 0 {
        lemma_adapters_counted(adapters.drop_last());
    }
}

/// The GPUs of a Windows machine are counted from zero.
pub proof fn lemma_collect_counted(
    adapters: Seq<Option<AdapterDescription>>,
    nvml: Seq<NvmlDevice>,
    adlx: Seq<AdlxDevice>,
)
    ensures
        gpu::counted(machine_views(adapters, nvml, adlx)),
{
    let gpus = adapter_views(adapters);
    lemma_adapters_counted(adapters);
    gpu::lemma_nvml_keeps_all(gpus, gpu::nvml_records(nvml));
    gpu::lemma_adlx_keeps_all(
        gpu::with_all_nvml(gpus, gpu::nvml_records(nvml)),
        gpu::adlx_records(adlx),
    );
}

} // verus!

//! Laws of graphics processors on Windows.

use crate::gpu;
use crate::gpu::windows;
use crate::gpu::windows::AdapterDescription;
use crate::gpu::{AdlxDevice, GpuView, NvmlDevice};
use crate::laws::text as text_laws;
use crate::text;
use vstd::prelude::*;

verus! {

/// An adapter is a GPU unless it cannot be described or its second flag, that of
/// software, is set; its other flags are of no account.
pub proof fn law_hardware(adapter: AdapterDescription)
    ensures
        windows::is_hardware(Some(adapter)) <==> (adapter.flags / 2) % 2 == 0,
        !windows::is_hardware(None),
{
    let flags: u32 = adapter.flags;
    assert(flags & 2 == 0 <==> (flags / 2) % 2 == 0) by (bit_vector);
}

/// The GPUs among adapters are counted from zero, in the order of the adapters.
pub proof fn law_adapters(adapters: Seq<Option<AdapterDescription>>, adapter: Option<AdapterDescription>)
    requires
        windows::adapter_views(adapters).len() <= usize::MAX,
    ensures
        windows::adapter_views(Seq::empty()) == Seq::<GpuView>::empty(),
        !windows::is_hardware(adapter) ==> windows::adapter_views(adapters.push(adapter))
            == windows::adapter_views(adapters),
        windows::is_hardware(adapter) ==> ({
            let before = windows::adapter_views(adapters);
            let after = windows::adapter_views(adapters.push(adapter));
            &&& after.len() == before.len() + 1
            &&& after.drop_last() == before
            &&& after.last() == windows::adapter_view(before.len() as usize, adapter->0)
            &&& after.last().index == before.len()
        }),
{
    assert(adapters.push(adapter).drop_last() =~= adapters);
    let before = windows::adapter_views(adapters);
    if windows::is_hardware(adapter) {
        assert(windows::adapter_views(adapters.push(adapter)).drop_last() =~= before);
    }
}

/// An adapter stands under its index, with its own memory. What is used of it,
/// and the other metrics, are not known.
pub proof fn law_adapter(index: usize, adapter: AdapterDescription)
    ensures
        windows::adapter_view(index, adapter).index == index,
        windows::adapter_view(index, adapter).memory_total_bytes == Some(
            adapter.dedicated_video_memory as u64,
        ),
        windows::adapter_view(index, adapter).memory_used_bytes is None,
        windows::adapter_view(index, adapter).utilization_percent is None,
        windows::adapter_view(index, adapter).temperature_celsius is None,
        windows::adapter_view(index, adapter).power_watts is None,
        windows::adapter_view(index, adapter).vendor == windows::vendor_of(adapter.vendor_id),
{
}

/// The name of an adapter ends before the first zero, or with the description.
pub proof fn law_adapter_name(
    index: usize,
    adapter: AdapterDescription,
    name: Seq<u16>,
    rest: Seq<u16>,
)
    requires
        forall|i: int| 0 <= i < name.len() ==> #[trigger] name[i] != 0,
        adapter.description@ == name || adapter.description@ == name + seq![0u16] + rest,
    ensures
        name.len() == 0 ==> windows::adapter_view(index, adapter).name is None,
        text::utf16_text(name).len() > 0 ==> windows::adapter_view(index, adapter).name == Some(
            text::utf16_text(name),
        ),
{
    lemma_before_zero(name, rest);
}

proof fn lemma_before_zero(name: Seq<u16>, rest: Seq<u16>)
    requires
        forall|i: int| 0 <= i < name.len() ==> #[trigger] name[i] != 0,
    ensures
        windows::before_zero(name) == name,
        windows::before_zero(name + seq![0u16] + rest) == name,
    decreases name.len(),
{
    let all = name + seq![0u16] + rest;
    if name.len() == 0 {
        assert(all[0] == 0);
        assert(windows::before_zero(all) =~= name);
        assert(windows::before_zero(name) =~= name);
    } else {
        let shorter = name.subrange(1, name.len() as int);
        assert(all[0] == name[0]);
        assert(all.subrange(1, all.len() as int) =~= shorter + seq![0u16] + rest);
        assert forall|i: int| 0 <= i < shorter.len() implies #[trigger] shorter[i] != 0 by {
            assert(shorter[i] == name[i + 1]);
        }
        lemma_before_zero(shorter, rest);
        assert(windows::before_zero(all) =~= name);
        assert(windows::before_zero(name) =~= name);
    }
}

/// A name without surrogates has the characters with the codes of its units.
pub proof fn law_adapter_name_plain(
    index: usize,
    adapter: AdapterDescription,
    name: Seq<u16>,
    rest: Seq<u16>,
    i: int,
)
    requires
        forall|j: int|
            0 <= j < name.len() ==> #[trigger] name[j] != 0 && !(0xD800 <= name[j] <= 0xDFFF),
        adapter.description@ == name || adapter.description@ == name + seq![0u16] + rest,
        0 <= i < name.len(),
    ensures
        windows::adapter_view(index, adapter).name matches Some(shown) && shown.len() == name.len()
            && shown[i] as u32 == name[i],
{
    text_laws::law_utf16_plain(name);
    law_adapter_name(index, adapter, name, rest);
}

/// The four vendors go by their numbers; other numbers are nobody's.
pub proof fn law_vendor(id: u32)
    ensures
        windows::vendor_of(4098) == Some("AMD"@),
        windows::vendor_of(4318) == Some("NVIDIA"@),
        windows::vendor_of(32902) == Some("Intel"@),
        windows::vendor_of(4203) == Some("Apple"@),
        id != 4098 && id != 4318 && id != 32902 && id != 4203 ==> windows::vendor_of(id) is None,
{
}

/// Without NVIDIA and AMD devices, the GPUs of a machine are those among its
/// adapters. The telemetry of one more NVIDIA device goes before that of the AMD
/// devices, that of one more AMD device after all the rest.
pub proof fn law_machine(
    adapters: Seq<Option<AdapterDescription>>,
    nvml: Seq<NvmlDevice>,
    adlx: Seq<AdlxDevice>,
    nvidia: NvmlDevice,
    amd: AdlxDevice,
)
    ensures
        windows::machine_views(adapters, Seq::empty(), Seq::empty()) == windows::adapter_views(
            adapters,
        ),
        gpu::nvml_record(nvidia) matches Some(telemetry) ==> windows::machine_views(
            adapters,
            nvml.push(nvidia),
            Seq::empty(),
        ) == gpu::with_nvml(windows::machine_views(adapters, nvml, Seq::empty()), telemetry),
        gpu::nvml_record(nvidia) is None ==> windows::machine_views(
            adapters,
            nvml.push(nvidia),
            adlx,
        ) == windows::machine_views(adapters, nvml, adlx),
        gpu::adlx_record(amd) matches Some(telemetry) ==> windows::machine_views(
            adapters,
            nvml,
            adlx.push(amd),
        ) == gpu::with_adlx(windows::machine_views(adapters, nvml, adlx), telemetry),
        gpu::adlx_record(amd) is None ==> windows::machine_views(adapters, nvml, adlx.push(amd))
            == windows::machine_views(adapters, nvml, adlx),
{
    assert(nvml.push(nvidia).drop_last() =~= nvml);
    assert(adlx.push(amd).drop_last() =~= adlx);
    let records = gpu::nvml_records(nvml);
    let amd_records = gpu::adlx_records(adlx);
    if let Some(telemetry) = gpu::nvml_record(nvidia) {
        assert(records.push(telemetry).drop_last() =~= records);
    }
    if let Some(telemetry) = gpu::adlx_record(amd) {
        assert(amd_records.push(telemetry).drop_last() =~= amd_records);
    }
}

} // verus!

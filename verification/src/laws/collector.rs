//! Laws of the collection.

use crate::collector::{
    CollectionError, Collector, ComponentReading, CoreReadings, DiskReading, DiskRefresh,
    HostReading, NetworkReading, SupplementalReadings,
};
use crate::collector;
use crate::float::{Double, Single};
use crate::laws::metrics::{is_percentage, is_rate};
use crate::laws::{metrics as metric_laws, text as text_laws};
use crate::metrics;
use crate::snapshot::{SystemInfo, SystemSnapshot};
use crate::text;
use crate::time::{Instant, NANOS_PER_SECOND};
use vstd::arithmetic::div_mod::*;
use vstd::arithmetic::power2::*;
use vstd::prelude::*;

verus! {

/// A collection succeeds exactly where there are cores, every usage is a number
/// and there is memory. Where the CPU is readable, it fails for want of memory.
pub proof fn law_outcome(
    before: Collector,
    after: Collector,
    now: Instant,
    supplemental: SupplementalReadings,
    readings: CoreReadings,
    result: Result<SystemSnapshot, CollectionError>,
)
    requires
        before.collects(after, now, supplemental, readings, result),
    ensures
        before.logical_cores == 0 ==> result == Err::<SystemSnapshot, _>(CollectionError::Cpu),
        !readings.global_cpu_usage.finite() ==> result == Err::<SystemSnapshot, _>(
            CollectionError::Cpu,
        ),
        (exists|i: int|
            0 <= i < readings.cpus@.len()
                && !(#[trigger] readings.cpus@[i]).usage_percent.finite()) ==> result == Err::<
            SystemSnapshot,
            _,
        >(CollectionError::Cpu),
        before.logical_cores > 0 && readings.global_cpu_usage.finite() && (forall|i: int|
            0 <= i < readings.cpus@.len() ==> (
            #[trigger] readings.cpus@[i]).usage_percent.finite()) ==> match result {
            Ok(_) => readings.total_memory > 0,
            Err(error) => readings.total_memory == 0 && error == CollectionError::Memory,
        },
{
}

/// A snapshot shows the memory that is in use, of the memory that there is:
/// both, and the part that the one is of the other.
pub proof fn law_memory_shown(
    before: Collector,
    after: Collector,
    now: Instant,
    supplemental: SupplementalReadings,
    readings: CoreReadings,
    snapshot: SystemSnapshot,
)
    requires
        before.collects(after, now, supplemental, readings, Ok(snapshot)),
    ensures
        snapshot.memory.total_bytes == readings.total_memory,
        snapshot.memory.used_bytes == readings.used_memory,
        snapshot.memory.available_bytes == readings.available_memory,
        readings.used_memory + readings.available_memory == readings.total_memory ==>
            snapshot.memory.used_bytes == snapshot.memory.total_bytes - readings.available_memory,
        snapshot.memory.usage_percent == metrics::percentage_of(
            snapshot.memory.used_bytes as nat,
            snapshot.memory.total_bytes as nat,
        ),
        readings.used_memory < pow2(53) && readings.total_memory < pow2(53) ==> is_percentage(
            snapshot.memory.usage_percent,
            readings.used_memory as nat,
            readings.total_memory as nat,
        ),
{
    if readings.used_memory < pow2(53) && readings.total_memory < pow2(53) {
        metric_laws::law_percentage(readings.used_memory, readings.total_memory);
    }
}

/// A snapshot shows the swap that is in use, of the swap that there is: both,
/// and the part that the one is of the other. Without swap, nothing is in use.
pub proof fn law_swap_shown(
    before: Collector,
    after: Collector,
    now: Instant,
    supplemental: SupplementalReadings,
    readings: CoreReadings,
    snapshot: SystemSnapshot,
)
    requires
        before.collects(after, now, supplemental, readings, Ok(snapshot)),
    ensures
        snapshot.swap.total_bytes == readings.total_swap,
        snapshot.swap.used_bytes == readings.used_swap,
        snapshot.swap.available_bytes == readings.free_swap,
        readings.used_swap + readings.free_swap == readings.total_swap ==> snapshot.swap.used_bytes
            == snapshot.swap.total_bytes - readings.free_swap,
        snapshot.swap.usage_percent == metrics::percentage_of(
            snapshot.swap.used_bytes as nat,
            snapshot.swap.total_bytes as nat,
        ),
        readings.total_swap == 0 ==> snapshot.swap.usage_percent.units() == 0,
        readings.used_swap < pow2(53) && 0 < readings.total_swap < pow2(53) ==> is_percentage(
            snapshot.swap.usage_percent,
            readings.used_swap as nat,
            readings.total_swap as nat,
        ),
{
    Double::lemma_size_zero(Double { bits: 0 });
    if readings.used_swap < pow2(53) && 0 < readings.total_swap < pow2(53) {
        metric_laws::law_percentage(readings.used_swap, readings.total_swap);
    }
}

/// A snapshot shows every core under its position, as it was read, and the
/// processor as a whole.
pub proof fn law_cpu_shown(
    before: Collector,
    after: Collector,
    now: Instant,
    supplemental: SupplementalReadings,
    readings: CoreReadings,
    snapshot: SystemSnapshot,
    i: int,
)
    requires
        before.collects(after, now, supplemental, readings, Ok(snapshot)),
    ensures
        snapshot.cpu.per_core@.len() == readings.cpus@.len(),
        0 <= i < readings.cpus@.len() && i <= usize::MAX ==> {
            &&& snapshot.cpu.per_core@[i].index == i
            &&& snapshot.cpu.per_core@[i].usage_percent.bits == readings.cpus@[i].usage_percent.bits
            &&& snapshot.cpu.per_core@[i].frequency_mhz == readings.cpus@[i].frequency_mhz
        },
        snapshot.cpu.usage_percent.bits == readings.global_cpu_usage.bits,
        snapshot.cpu.logical_cores == before.logical_cores,
        snapshot.cpu.physical_cores == before.physical_cores,
{
}

/// A snapshot shows when it was taken, in full seconds since the epoch, how long
/// the system has been running and what the system is.
pub proof fn law_host_shown(
    before: Collector,
    after: Collector,
    now: Instant,
    supplemental: SupplementalReadings,
    readings: CoreReadings,
    snapshot: SystemSnapshot,
)
    requires
        before.collects(after, now, supplemental, readings, Ok(snapshot)),
    ensures
        snapshot.uptime.seconds == readings.uptime,
        snapshot.system == before.system_info,
        match readings.since_epoch {
            Some(span) => snapshot.timestamp * 1_000_000_000 <= span.as_nanos() < (
            snapshot.timestamp + 1) * 1_000_000_000,
            None => snapshot.timestamp == 0,
        },
{
    if let Some(span) = readings.since_epoch {
        lemma_fundamental_div_mod(span.as_nanos() as int, 1_000_000_000);
    }
}

/// The CPU package temperature of a snapshot is the one last read: at this
/// collection where five seconds have passed, else before it.
pub proof fn law_temperature_shown(
    before: Collector,
    after: Collector,
    now: Instant,
    supplemental: SupplementalReadings,
    readings: CoreReadings,
    snapshot: SystemSnapshot,
)
    requires
        before.collects(after, now, supplemental, readings, Ok(snapshot)),
    ensures
        now.nanos() >= before.last_temperature_refresh.nanos() + 5_000_000_000 ==>
            snapshot.cpu.package_temperature_celsius == supplemental.package_temperature_celsius,
        now.nanos() < before.last_temperature_refresh.nanos() + 5_000_000_000 ==>
            snapshot.cpu.package_temperature_celsius == before.package_temperature_celsius,
{
}

/// The GPUs of a snapshot are those last read: at this collection where a
/// minute has passed, else before it.
pub proof fn law_gpus_shown(
    before: Collector,
    after: Collector,
    now: Instant,
    supplemental: SupplementalReadings,
    readings: CoreReadings,
    snapshot: SystemSnapshot,
)
    requires
        before.collects(after, now, supplemental, readings, Ok(snapshot)),
    ensures
        now.nanos() >= before.last_gpu_refresh.nanos() + 60_000_000_000 ==> snapshot.gpus@
            == supplemental.gpus@,
        now.nanos() < before.last_gpu_refresh.nanos() + 60_000_000_000 ==> snapshot.gpus@
            == before.gpu_metrics@,
{
}

/// The disks of a snapshot are those last read. Where five seconds have passed
/// since the throughput was read, or thirty since the disks were listed, that is
/// at this collection, and the rates are over the time since the throughput was
/// read.
pub proof fn law_disks_shown(
    before: Collector,
    after: Collector,
    now: Instant,
    supplemental: SupplementalReadings,
    readings: CoreReadings,
    snapshot: SystemSnapshot,
    i: int,
)
    requires
        before.collects(after, now, supplemental, readings, Ok(snapshot)),
    ensures
        ({
            let listed = before.last_disk_capacity_refresh.nanos() + 30_000_000_000;
            let read = before.last_disk_io_refresh.nanos() + 5_000_000_000;
            if now.nanos() >= listed || now.nanos() >= read {
                &&& snapshot.disks@.len() == supplemental.disks@.len()
                &&& 0 <= i < supplemental.disks@.len() ==> snapshot.disks@[i]
                    == collector::disk_info(
                    supplemental.disks@[i],
                    now.nanos_since(before.last_disk_io_refresh),
                )
            } else {
                snapshot.disks@ == before.disk_metrics@
            }
        }),
{
}

/// The networks of a snapshot are those last read. Where five seconds have
/// passed, that is at this collection, and the rates are over the time since
/// the last reading.
pub proof fn law_networks_shown(
    before: Collector,
    after: Collector,
    now: Instant,
    supplemental: SupplementalReadings,
    readings: CoreReadings,
    snapshot: SystemSnapshot,
    i: int,
)
    requires
        before.collects(after, now, supplemental, readings, Ok(snapshot)),
    ensures
        if now.nanos() >= before.last_network_refresh.nanos() + 5_000_000_000 {
            &&& snapshot.networks@.len() == supplemental.networks@.len()
            &&& 0 <= i < supplemental.networks@.len() ==> snapshot.networks@[i]
                == collector::network_info(
                supplemental.networks@[i],
                now.nanos_since(before.last_network_refresh),
            )
        } else {
            snapshot.networks@ == before.network_metrics@
        },
{
}

/// Each kind of reading is asked for once its seconds have passed: ten for the
/// CPU frequencies, five for networks, temperature and disk throughput, thirty
/// for the list of disks, sixty for the GPUs.
pub proof fn law_schedule(collector: Collector, now: Instant)
    ensures
        ({
            let plan = collector.plan_at(now);
            let at = now.nanos();
            &&& plan.cpu_frequency <==> at >= collector.last_cpu_frequency_refresh.nanos()
                + 10_000_000_000
            &&& plan.networks <==> at >= collector.last_network_refresh.nanos() + 5_000_000_000
            &&& plan.temperature <==> at >= collector.last_temperature_refresh.nanos()
                + 5_000_000_000
            &&& plan.gpus <==> at >= collector.last_gpu_refresh.nanos() + 60_000_000_000
            &&& plan.disks == DiskRefresh::Everything <==> at
                >= collector.last_disk_capacity_refresh.nanos() + 30_000_000_000
            &&& plan.disks == DiskRefresh::Skip <==> at
                < collector.last_disk_capacity_refresh.nanos() + 30_000_000_000 && at
                < collector.last_disk_io_refresh.nanos() + 5_000_000_000
        }),
{
}

/// A collection notes the time of what it has asked for, and of nothing else.
pub proof fn law_times_noted(
    before: Collector,
    after: Collector,
    now: Instant,
    supplemental: SupplementalReadings,
    readings: CoreReadings,
    result: Result<SystemSnapshot, CollectionError>,
)
    requires
        before.collects(after, now, supplemental, readings, result),
    ensures
        ({
            let plan = before.plan_at(now);
            &&& after.last_cpu_frequency_refresh == if plan.cpu_frequency {
                now
            } else {
                before.last_cpu_frequency_refresh
            }
            &&& after.last_network_refresh == if plan.networks {
                now
            } else {
                before.last_network_refresh
            }
            &&& after.last_gpu_refresh == if plan.gpus {
                now
            } else {
                before.last_gpu_refresh
            }
            &&& after.last_temperature_refresh == if plan.temperature {
                now
            } else {
                before.last_temperature_refresh
            }
            &&& match plan.disks {
                DiskRefresh::Everything => after.last_disk_io_refresh == now
                    && after.last_disk_capacity_refresh == now,
                DiskRefresh::Throughput => after.last_disk_io_refresh == now
                    && after.last_disk_capacity_refresh == before.last_disk_capacity_refresh,
                DiskRefresh::Skip => after.last_disk_io_refresh == before.last_disk_io_refresh
                    && after.last_disk_capacity_refresh == before.last_disk_capacity_refresh,
            }
            &&& after.system_info == before.system_info
            &&& after.logical_cores == before.logical_cores
            &&& after.physical_cores == before.physical_cores
        }),
{
}

/// A collection that fails keeps what it has read: a collection right after it,
/// with the memory and the CPU readable, shows it.
pub proof fn law_failure_loses_nothing(
    before: Collector,
    between: Collector,
    after: Collector,
    now: Instant,
    supplemental: SupplementalReadings,
    other: SupplementalReadings,
    unreadable: CoreReadings,
    readings: CoreReadings,
    error: CollectionError,
    snapshot: SystemSnapshot,
)
    requires
        before.collects(between, now, supplemental, unreadable, Err(error)),
        between.collects(after, now, other, readings, Ok(snapshot)),
    ensures
        before.plan_at(now).gpus ==> snapshot.gpus@ == supplemental.gpus@,
        before.plan_at(now).temperature ==> snapshot.cpu.package_temperature_celsius
            == supplemental.package_temperature_celsius,
        before.plan_at(now).disks != DiskRefresh::Skip ==> snapshot.disks@.len()
            == supplemental.disks@.len(),
        before.plan_at(now).networks ==> snapshot.networks@.len() == supplemental.networks@.len(),
{
}

/// A disk is shown under its name, with its size, its space and its kind, as
/// they were read.
pub proof fn law_disk_described(disk: DiskReading, nanos: nat)
    ensures
        collector::disk_info(disk, nanos).name@ == disk.name@,
        collector::disk_info(disk, nanos).mount_point@ == disk.mount_point@,
        collector::disk_info(disk, nanos).file_system@ == disk.file_system@,
        collector::disk_info(disk, nanos).total_bytes == disk.total_bytes,
        collector::disk_info(disk, nanos).available_bytes == disk.available_bytes,
        collector::disk_info(disk, nanos).read_only == disk.read_only,
        collector::disk_info(disk, nanos).removable == disk.removable,
{
}

/// What is used of a disk and what is available add up to the disk. So it is at
/// zero percent only where all of it is available, at a hundred where none of
/// it is, and in between by the part that is used.
pub proof fn law_disk_usage(disk: DiskReading, nanos: nat)
    ensures
        disk.available_bytes <= disk.total_bytes ==> collector::occupied(
            disk.total_bytes,
            disk.available_bytes,
        ) + disk.available_bytes == disk.total_bytes,
        collector::disk_info(disk, nanos).usage_percent.units() == 0 <==> disk.total_bytes
            <= disk.available_bytes,
        disk.total_bytes > 0 && disk.available_bytes == 0 ==> collector::disk_info(
            disk,
            nanos,
        ).usage_percent.units() == 100 * Double::one(),
        disk.available_bytes <= disk.total_bytes && 0 < disk.total_bytes < pow2(53)
            ==> is_percentage(
            collector::disk_info(disk, nanos).usage_percent,
            (disk.total_bytes - disk.available_bytes) as nat,
            disk.total_bytes as nat,
        ),
{
    let used = collector::occupied(disk.total_bytes, disk.available_bytes) as u64;
    Double::lemma_size_zero(Double { bits: 0 });
    if disk.total_bytes > 0 {
        metric_laws::law_percentage_zero(used, disk.total_bytes);
        metrics::lemma_percentage_of_whole(disk.total_bytes);
        lemma2_to64();
        lemma2_to64_rest();
        metrics::lemma_of_nat_exact(100);
        if disk.total_bytes < pow2(53) {
            metric_laws::law_percentage(used, disk.total_bytes);
        }
    }
}

/// Of two disks of one size, the one with less space available is no less used.
pub proof fn law_disk_usage_ordered(
    fuller: DiskReading,
    emptier: DiskReading,
    nanos: nat,
    other_nanos: nat,
)
    requires
        fuller.total_bytes == emptier.total_bytes,
        fuller.available_bytes <= emptier.available_bytes,
    ensures
        collector::disk_info(fuller, nanos).usage_percent.units() >= collector::disk_info(
            emptier,
            other_nanos,
        ).usage_percent.units(),
{
    metrics::lemma_percentage_ordered(
        collector::occupied(emptier.total_bytes, emptier.available_bytes) as u64,
        collector::occupied(fuller.total_bytes, fuller.available_bytes) as u64,
        fuller.total_bytes,
    );
}

/// The rates of a disk are those of the bytes read and of the bytes written, in
/// the seconds since the previous reading.
pub proof fn law_disk_rates(disk: DiskReading, secs: u64)
    requires
        0 < secs < pow2(53),
        disk.read_bytes < pow2(53),
        disk.written_bytes < pow2(53),
    ensures
        ({
            let info = collector::disk_info(disk, secs as nat * NANOS_PER_SECOND as nat);
            &&& is_rate(info.read_bytes_per_sec, disk.read_bytes as nat, secs as nat)
            &&& is_rate(info.write_bytes_per_sec, disk.written_bytes as nat, secs as nat)
        }),
{
    metric_laws::law_rate(disk.read_bytes, secs);
    metric_laws::law_rate(disk.written_bytes, secs);
}

/// A network interface is shown under its name, with all the bytes received and
/// all the bytes transmitted, as they were read.
pub proof fn law_network_described(network: NetworkReading, nanos: nat)
    ensures
        collector::network_info(network, nanos).name@ == network.name@,
        collector::network_info(network, nanos).total_received_bytes
            == network.total_received_bytes,
        collector::network_info(network, nanos).total_transmitted_bytes
            == network.total_transmitted_bytes,
{
}

/// The rates of a network interface are those of the bytes received and of the
/// bytes transmitted, in the seconds since the previous reading.
pub proof fn law_network_rates(network: NetworkReading, secs: u64)
    requires
        0 < secs < pow2(53),
        network.received_bytes < pow2(53),
        network.transmitted_bytes < pow2(53),
    ensures
        ({
            let info = collector::network_info(network, secs as nat * NANOS_PER_SECOND as nat);
            &&& is_rate(info.received_bytes_per_sec, network.received_bytes as nat, secs as nat)
            &&& is_rate(
                info.transmitted_bytes_per_sec,
                network.transmitted_bytes as nat,
                secs as nat,
            )
        }),
{
    metric_laws::law_rate(network.received_bytes, secs);
    metric_laws::law_rate(network.transmitted_bytes, secs);
}

/// Over any span, a disk or an interface is idle in one direction exactly where
/// no bytes went that way, and more bytes are no lower a rate.
pub proof fn law_rates_by_direction(
    disk: DiskReading,
    busier: DiskReading,
    network: NetworkReading,
    busier_network: NetworkReading,
    nanos: nat,
)
    requires
        0 < nanos < 0x1_0000_0000_0000_0000 * NANOS_PER_SECOND,
    ensures
        collector::disk_info(disk, nanos).read_bytes_per_sec.units() == 0 <==> disk.read_bytes
            == 0,
        collector::disk_info(disk, nanos).write_bytes_per_sec.units() == 0 <==> disk.written_bytes
            == 0,
        collector::network_info(network, nanos).received_bytes_per_sec.units() == 0
            <==> network.received_bytes == 0,
        collector::network_info(network, nanos).transmitted_bytes_per_sec.units() == 0
            <==> network.transmitted_bytes == 0,
        disk.read_bytes <= busier.read_bytes ==> collector::disk_info(
            disk,
            nanos,
        ).read_bytes_per_sec.units() <= collector::disk_info(
            busier,
            nanos,
        ).read_bytes_per_sec.units(),
        disk.written_bytes <= busier.written_bytes ==> collector::disk_info(
            disk,
            nanos,
        ).write_bytes_per_sec.units() <= collector::disk_info(
            busier,
            nanos,
        ).write_bytes_per_sec.units(),
        network.received_bytes <= busier_network.received_bytes ==> collector::network_info(
            network,
            nanos,
        ).received_bytes_per_sec.units() <= collector::network_info(
            busier_network,
            nanos,
        ).received_bytes_per_sec.units(),
        network.transmitted_bytes <= busier_network.transmitted_bytes ==> collector::network_info(
            network,
            nanos,
        ).transmitted_bytes_per_sec.units() <= collector::network_info(
            busier_network,
            nanos,
        ).transmitted_bytes_per_sec.units(),
{
    metric_laws::law_rate_zero(disk.read_bytes, nanos);
    metric_laws::law_rate_zero(disk.written_bytes, nanos);
    metric_laws::law_rate_zero(network.received_bytes, nanos);
    metric_laws::law_rate_zero(network.transmitted_bytes, nanos);
    if disk.read_bytes <= busier.read_bytes {
        metrics::lemma_rate_ordered(disk.read_bytes, busier.read_bytes, nanos);
    }
    if disk.written_bytes <= busier.written_bytes {
        metrics::lemma_rate_ordered(disk.written_bytes, busier.written_bytes, nanos);
    }
    if network.received_bytes <= busier_network.received_bytes {
        metrics::lemma_rate_ordered(network.received_bytes, busier_network.received_bytes, nanos);
    }
    if network.transmitted_bytes <= busier_network.transmitted_bytes {
        metrics::lemma_rate_ordered(
            network.transmitted_bytes,
            busier_network.transmitted_bytes,
            nanos,
        );
    }
}

/// Every disk and every interface that was read is shown, in its place.
pub proof fn law_all_shown(
    disks: Seq<DiskReading>,
    networks: Seq<NetworkReading>,
    nanos: nat,
    i: int,
)
    ensures
        collector::disk_infos(disks, nanos).len() == disks.len(),
        collector::network_infos(networks, nanos).len() == networks.len(),
        0 <= i < disks.len() ==> collector::disk_infos(disks, nanos)[i] == collector::disk_info(
            disks[i],
            nanos,
        ),
        0 <= i < networks.len() ==> collector::network_infos(networks, nanos)[i]
            == collector::network_info(networks[i], nanos),
{
}

/// A new collector has the host, the cores and what was read, all at the time of
/// its making, and no rates yet.
pub proof fn law_beginning(
    made: Collector,
    host: HostReading,
    logical_cores: usize,
    physical_cores: Option<usize>,
    readings: SupplementalReadings,
    now: Instant,
    i: int,
)
    requires
        made.begins(host, logical_cores, physical_cores, readings, now),
    ensures
        made.logical_cores == logical_cores,
        made.physical_cores == physical_cores,
        made.gpu_metrics@ == readings.gpus@,
        made.package_temperature_celsius == readings.package_temperature_celsius,
        made.disk_metrics@.len() == readings.disks@.len(),
        made.network_metrics@.len() == readings.networks@.len(),
        0 <= i < readings.disks@.len() ==> made.disk_metrics@[i].name@ == readings.disks@[i].name@
            && made.disk_metrics@[i].total_bytes == readings.disks@[i].total_bytes
            && made.disk_metrics@[i].available_bytes == readings.disks@[i].available_bytes
            && made.disk_metrics@[i].read_bytes_per_sec.units() == 0
            && made.disk_metrics@[i].write_bytes_per_sec.units() == 0,
        0 <= i < readings.networks@.len() ==> made.network_metrics@[i].name@
            == readings.networks@[i].name@
            && made.network_metrics@[i].received_bytes_per_sec.units() == 0
            && made.network_metrics@[i].transmitted_bytes_per_sec.units() == 0,
        made.last_cpu_frequency_refresh == now,
        made.last_disk_io_refresh == now,
        made.last_disk_capacity_refresh == now,
        made.last_network_refresh == now,
        made.last_gpu_refresh == now,
        made.last_temperature_refresh == now,
{
    Double::lemma_size_zero(Double { bits: 0 });
}

/// What the system knows of the host is shown as it is; what it does not know is
/// `unknown`, but for the name of the system, which the platform gives.
pub proof fn law_host(host: HostReading, info: SystemInfo)
    requires
        info.deep_view() == collector::host_view(host),
    ensures
        info.architecture@ == host.architecture@,
        host.host_name matches Some(name) ==> info.hostname@ == name@,
        host.host_name is None ==> info.hostname@ == "unknown"@,
        host.name matches Some(name) ==> info.os@ == name@,
        host.name is None && host.platform@ == "macos"@ ==> info.os@ == "macOS"@,
        host.name is None && host.platform@ == "windows"@ ==> info.os@ == "Windows"@,
        host.name is None && host.platform@ == "linux"@ ==> info.os@ == "Linux"@,
        host.name is None && host.platform@ != "macos"@ && host.platform@ != "windows"@
            && host.platform@ != "linux"@ ==> info.os@ == host.platform@,
        host.long_os_version matches Some(version) ==> info.os_version@ == version@,
        host.long_os_version is None ==> (host.os_version matches Some(version)
            ==> info.os_version@ == version@),
        host.long_os_version is None && host.os_version is None ==> info.os_version@
            == "unknown"@,
        host.kernel_version matches Some(version) ==> info.kernel_version@ == version@,
        host.kernel_version is None ==> info.kernel_version@ == "unknown"@,
        host.cpu_brand is None ==> info.cpu_model@ == "unknown"@,
        host.cpu_brand matches Some(brand) ==> (text_laws::blank(brand@) ==> info.cpu_model@
            == "unknown"@),
{
    reveal_strlit("macos");
    reveal_strlit("windows");
    reveal_strlit("linux");
    assert("macos"@.len() != "windows"@.len());
    assert("macos"@[0] != "linux"@[0]);
    assert("linux"@.len() != "windows"@.len());
    if let Some(brand) = host.cpu_brand {
        text_laws::law_trimmed_bare(brand@);
    }
}

/// The model of the CPU is the brand without the white space around it.
pub proof fn law_cpu_model(
    host: HostReading,
    info: SystemInfo,
    before: Seq<char>,
    model: Seq<char>,
    after: Seq<char>,
)
    requires
        info.deep_view() == collector::host_view(host),
        host.cpu_brand matches Some(brand) && brand@ == before + model + after,
        text_laws::blank(before),
        text_laws::blank(after),
        text_laws::bare(model),
        model.len() > 0,
    ensures
        info.cpu_model@ == model,
{
    text_laws::law_trimmed(before, model, after);
}

proof fn lemma_lower_words()
    ensures
        text::lowercase("package"@) == "package"@,
        text::lowercase("computer"@) == "computer"@,
        text::lowercase("cpu"@) == "cpu"@,
        text::lowercase("core"@) == "core"@,
{
    reveal_strlit("package");
    reveal_strlit("computer");
    reveal_strlit("cpu");
    reveal_strlit("core");
    assert(text::lowercase("package"@) =~= "package"@);
    assert(text::lowercase("computer"@) =~= "computer"@);
    assert(text::lowercase("cpu"@) =~= "cpu"@);
    assert(text::lowercase("core"@) =~= "core"@);
}

/// A sensor measures the CPU package exactly where its label or its identifier
/// mentions a package or is `computer`, or its label mentions a CPU but no core,
/// all in any case.
pub proof fn law_package_sensor(label: Seq<char>, id: Seq<char>)
    ensures
        collector::is_package_sensor(label, id) <==> {
            ||| text_laws::mentions(label, "package"@)
            ||| text_laws::mentions(id, "package"@)
            ||| text_laws::same_letters(label, "computer"@)
            ||| text_laws::same_letters(id, "computer"@)
            ||| text_laws::mentions(label, "cpu"@) && !text_laws::mentions(label, "core"@)
        },
{
    lemma_lower_words();
    text_laws::law_mentions(label, "package"@);
    text_laws::law_mentions(id, "package"@);
    text_laws::law_mentions(label, "cpu"@);
    text_laws::law_mentions(label, "core"@);
    text_laws::law_case_ignored(label, "computer"@);
    text_laws::law_case_ignored(id, "computer"@);
}

/// A sensor that gives a number and has `package` in its label or identifier, in
/// any case, gives the package temperature, whatever else stands there.
pub proof fn law_package_named(
    component: ComponentReading,
    celsius: Single,
    before: Seq<char>,
    word: Seq<char>,
    after: Seq<char>,
)
    requires
        component.temperature == Some(celsius),
        celsius.finite(),
        text_laws::same_letters(word, "package"@),
        component.label@ == before + word + after || (component.id matches Some(id) && id@ == before
            + word + after),
    ensures
        collector::package_reading(component) == Some(celsius),
{
    let s = before + word + after;
    let n = word.len();
    assert(s.subrange(before.len() as int, (before.len() + n) as int) =~= word);
    assert(text_laws::mentioned_at(s, "package"@, before.len() as int));
    law_package_sensor(component.label@, collector::text_or(component.id, Seq::empty()));
}

/// A label with `Package` in it is that of a package sensor, whatever stands
/// before and after it.
pub proof fn law_package_label(before: Seq<char>, after: Seq<char>, id: Seq<char>)
    ensures
        collector::is_package_sensor(before + "Package"@ + after, id),
{
    reveal_strlit("Package");
    reveal_strlit("package");
    let label = before + "Package"@ + after;
    let start = before.len() as int;
    assert(label.subrange(start, start + 7) =~= "Package"@);
    assert(text_laws::same_letters("Package"@, "package"@));
    assert(text_laws::mentioned_at(label, "package"@, start));
    law_package_sensor(label, id);
}

/// A sensor without a temperature, or with one that is not a number, gives none;
/// nor does one that does not measure the package. Any other gives its own.
pub proof fn law_package_reading(component: ComponentReading)
    ensures
        component.temperature is None ==> collector::package_reading(component) is None,
        component.temperature matches Some(celsius) ==> {
            &&& !celsius.finite() ==> collector::package_reading(component) is None
            &&& celsius.finite() && collector::is_package_sensor(
                component.label@,
                match component.id {
                    Some(id) => id@,
                    None => Seq::empty(),
                },
            ) ==> collector::package_reading(component) == Some(celsius)
        },
        !collector::is_package_sensor(
            component.label@,
            match component.id {
                Some(id) => id@,
                None => Seq::empty(),
            },
        ) ==> collector::package_reading(component) is None,
{
}

/// The first sensor that measures the package counts; sensors before it that do
/// not, and any after it, are of no account.
pub proof fn law_first_package_sensor(
    before: Seq<ComponentReading>,
    component: ComponentReading,
    after: Seq<ComponentReading>,
    celsius: Single,
)
    requires
        forall|i: int|
            0 <= i < before.len() ==> collector::package_reading(#[trigger] before[i]) is None,
        collector::package_reading(component) == Some(celsius),
    ensures
        collector::first_package_reading(before + seq![component] + after) == Some(celsius),
        collector::first_package_reading(before) is None,
    decreases before.len(),
{
    let all = before + seq![component] + after;
    if before.len() == 0 {
        assert(all[0] == component);
    } else {
        let rest = before.subrange(1, before.len() as int);
        assert(all[0] == before[0]);
        assert(all.subrange(1, all.len() as int) =~= rest + seq![component] + after);
        assert forall|i: int| 0 <= i < rest.len() implies collector::package_reading(
            #[trigger] rest[i],
        ) is None by {
            assert(rest[i] == before[i + 1]);
        }
        law_first_package_sensor(rest, component, after, celsius);
    }
}

/// A sensor goes before the thermal zone, and that before the controller.
pub proof fn law_package_temperature(
    components: Seq<ComponentReading>,
    zone: Option<Single>,
    controller: Option<Single>,
)
    ensures
        collector::first_package_reading(components) matches Some(celsius)
            ==> collector::package_temperature(components, zone, controller) == Some(celsius),
        collector::first_package_reading(components) is None && zone is Some
            ==> collector::package_temperature(components, zone, controller) == zone,
        collector::first_package_reading(components) is None && zone is None
            ==> collector::package_temperature(components, zone, controller) == controller,
{
}

} // verus!

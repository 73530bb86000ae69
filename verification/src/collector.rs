//! Collection of the metrics: what is read when, and what becomes of it.

use crate::float::{Double, Single};
use crate::gpu::GpuInfo;
use crate::metrics;
use crate::snapshot::{
    CpuCoreInfo, CpuInfo, DiskInfo, MemoryInfo, NetworkInfo, SwapInfo, SystemInfo, SystemSnapshot,
    UptimeInfo,
};
use crate::text;
use crate::time;
use crate::time::{Duration, Instant, NANOS_PER_SECOND};
use vstd::prelude::*;

verus! {

/// The seconds between two collections.
pub const COLLECTION_INTERVAL: u64 = 1;

/// The seconds after which the CPU frequencies are read again.
pub const CPU_FREQUENCY_REFRESH_INTERVAL: u64 = 10;

/// The seconds after which the disk throughput is read again.
pub const DISK_IO_REFRESH_INTERVAL: u64 = 5;

/// The seconds after which the disks are listed again.
pub const DISK_CAPACITY_REFRESH_INTERVAL: u64 = 30;

/// The seconds after which the network interfaces are read again.
pub const NETWORK_REFRESH_INTERVAL: u64 = 5;

/// The seconds after which the GPUs are read again.
pub const GPU_REFRESH_INTERVAL: u64 = 60;

/// The seconds after which the temperature is read again.
pub const TEMPERATURE_REFRESH_INTERVAL: u64 = 5;

/// What the system says of a disk.
#[derive(Debug)]
pub struct DiskReading {
    pub name: String,
    pub mount_point: String,
    pub file_system: String,
    pub total_bytes: u64,
    pub available_bytes: u64,
    /// The bytes read since the previous reading.
    pub read_bytes: u64,
    /// The bytes written since the previous reading.
    pub written_bytes: u64,
    pub read_only: bool,
    pub removable: bool,
}

/// What the system says of a network interface.
#[derive(Debug)]
pub struct NetworkReading {
    pub name: String,
    /// The bytes received since the previous reading.
    pub received_bytes: u64,
    /// The bytes transmitted since the previous reading.
    pub transmitted_bytes: u64,
    pub total_received_bytes: u64,
    pub total_transmitted_bytes: u64,
}

/// What the system says of a thermal sensor.
#[derive(Debug)]
pub struct ComponentReading {
    pub label: String,
    pub id: Option<String>,
    pub temperature: Option<Single>,
}

/// What the system says of a logical core.
#[derive(Clone, Copy, Debug)]
pub struct CpuReading {
    pub usage_percent: Single,
    pub frequency_mhz: u64,
}

/// What the system says of the host; what it does not know is absent.
#[derive(Debug)]
pub struct HostReading {
    pub host_name: Option<String>,
    pub name: Option<String>,
    pub long_os_version: Option<String>,
    pub os_version: Option<String>,
    pub kernel_version: Option<String>,
    /// The platform that the program was built for.
    pub platform: String,
    pub architecture: String,
    /// The brand of the first logical core.
    pub cpu_brand: Option<String>,
}

/// Readings that are not made at every collection. Those that a collection
/// does not ask for are not looked at.
#[derive(Debug)]
pub struct SupplementalReadings {
    pub disks: Vec<DiskReading>,
    pub networks: Vec<NetworkReading>,
    pub gpus: Vec<GpuInfo>,
    pub package_temperature_celsius: Option<Single>,
}

/// Readings that are made at every collection.
#[derive(Debug)]
pub struct CoreReadings {
    pub global_cpu_usage: Single,
    pub cpus: Vec<CpuReading>,
    pub total_memory: u64,
    pub used_memory: u64,
    pub available_memory: u64,
    pub total_swap: u64,
    pub used_swap: u64,
    pub free_swap: u64,
    pub uptime: u64,
    /// The time since the Unix epoch, if the clock is set after it.
    pub since_epoch: Option<Duration>,
}

/// Why a collection gave no snapshot.
#[derive(Clone, Copy, Debug, PartialEq, Eq, Structural)]
pub enum CollectionError {
    Cpu,
    Memory,
}

/// How the disks are to be read.
#[derive(Clone, Copy, Debug, PartialEq, Eq, Structural)]
pub enum DiskRefresh {
    /// Not at all.
    Skip,
    /// The throughput of the known disks.
    Throughput,
    /// All of it, and the list of the disks.
    Everything,
}

/// What a collection asks for beyond the readings of every collection.
#[derive(Clone, Copy, Debug, PartialEq, Eq, Structural)]
pub struct RefreshPlan {
    pub cpu_frequency: bool,
    pub disks: DiskRefresh,
    pub networks: bool,
    pub gpus: bool,
    pub temperature: bool,
}

/// A host with its texts as characters.
pub struct SystemInfoView {
    pub hostname: Seq<char>,
    pub os: Seq<char>,
    pub os_version: Seq<char>,
    pub kernel_version: Seq<char>,
    pub architecture: Seq<char>,
    pub cpu_model: Seq<char>,
}

impl DeepView for SystemInfo {
    type V = SystemInfoView;

    open spec fn deep_view(&self) -> SystemInfoView {
        SystemInfoView {
            hostname: self.hostname@,
            os: self.os@,
            os_version: self.os_version@,
            kernel_version: self.kernel_version@,
            architecture: self.architecture@,
            cpu_model: self.cpu_model@,
        }
    }
}

/// A text, or the given one where there is none.
pub open spec fn text_or(value: Option<String>, other: Seq<char>) -> Seq<char> {
    match value {
        Some(known) => known@,
        None => other,
    }
}

/// The name of a platform as its makers write it.
pub open spec fn platform_label(platform: Seq<char>) -> Seq<char> {
    if platform == "macos"@ {
        "macOS"@
    } else if platform == "windows"@ {
        "Windows"@
    } else if platform == "linux"@ {
        "Linux"@
    } else {
        platform
    }
}

/// The host that the readings describe.
pub open spec fn host_view(host: HostReading) -> SystemInfoView {
    SystemInfoView {
        hostname: text_or(host.host_name, "unknown"@),
        os: text_or(host.name, platform_label(host.platform@)),
        os_version: text_or(host.long_os_version, text_or(host.os_version, "unknown"@)),
        kernel_version: text_or(host.kernel_version, "unknown"@),
        architecture: host.architecture@,
        cpu_model: match host.cpu_brand {
            Some(brand) => if text::trimmed(brand@).len() > 0 {
                text::trimmed(brand@)
            } else {
                "unknown"@
            },
            None => "unknown"@,
        },
    }
}

/// The bytes of a disk that are not available.
pub open spec fn occupied(total: u64, available: u64) -> nat {
    if total >= available {
        (total - available) as nat
    } else {
        0
    }
}

/// The metrics of a disk, given the nanoseconds since the previous reading.
pub open spec fn disk_info(disk: DiskReading, nanos: nat) -> DiskInfo {
    DiskInfo {
        name: disk.name,
        mount_point: disk.mount_point,
        file_system: disk.file_system,
        total_bytes: disk.total_bytes,
        available_bytes: disk.available_bytes,
        usage_percent: metrics::percentage_of(
            occupied(disk.total_bytes, disk.available_bytes),
            disk.total_bytes as nat,
        ),
        read_bytes_per_sec: metrics::rate_of(disk.read_bytes as nat, nanos),
        write_bytes_per_sec: metrics::rate_of(disk.written_bytes as nat, nanos),
        read_only: disk.read_only,
        removable: disk.removable,
    }
}

/// The metrics of all disks, in their order.
pub open spec fn disk_infos(disks: Seq<DiskReading>, nanos: nat) -> Seq<DiskInfo> {
    Seq::new(disks.len(), |i: int| disk_info(disks[i], nanos))
}

/// The metrics of a network interface, given the nanoseconds since the
/// previous reading.
pub open spec fn network_info(network: NetworkReading, nanos: nat) -> NetworkInfo {
    NetworkInfo {
        name: network.name,
        received_bytes_per_sec: metrics::rate_of(network.received_bytes as nat, nanos),
        transmitted_bytes_per_sec: metrics::rate_of(network.transmitted_bytes as nat, nanos),
        total_received_bytes: network.total_received_bytes,
        total_transmitted_bytes: network.total_transmitted_bytes,
    }
}

/// The metrics of all network interfaces, in their order.
pub open spec fn network_infos(networks: Seq<NetworkReading>, nanos: nat) -> Seq<NetworkInfo> {
    Seq::new(networks.len(), |i: int| network_info(networks[i], nanos))
}

/// Whether a sensor measures the CPU package, by its label and identifier.
pub open spec fn is_package_sensor(label: Seq<char>, id: Seq<char>) -> bool {
    let lower_label = text::lowercase(label);
    let lower_id = text::lowercase(id);
    ||| text::contains(lower_label, "package"@)
    ||| text::contains(lower_id, "package"@)
    ||| lower_label == "computer"@
    ||| lower_id == "computer"@
    ||| text::contains(lower_label, "cpu"@) && !text::contains(lower_label, "core"@)
}

/// The temperature of a sensor, if it measures the CPU package.
pub open spec fn package_reading(component: ComponentReading) -> Option<Single> {
    if component.temperature matches Some(celsius) && celsius.finite() && is_package_sensor(
        component.label@,
        text_or(component.id, Seq::empty()),
    ) {
        component.temperature
    } else {
        None
    }
}

/// The temperature of the first sensor that measures the CPU package.
pub open spec fn first_package_reading(components: Seq<ComponentReading>) -> Option<Single>
    decreases components.len(),
{
    if components.len() == 0 {
        None
    } else {
        match package_reading(components[0]) {
            Some(celsius) => Some(celsius),
            None => first_package_reading(components.subrange(1, components.len() as int)),
        }
    }
}

/// The CPU package temperature: that of the first sensor, else that of the
/// thermal zone, else that of the management controller.
pub open spec fn package_temperature(
    components: Seq<ComponentReading>,
    thermal_zone: Option<Single>,
    controller: Option<Single>,
) -> Option<Single> {
    match first_package_reading(components) {
        Some(celsius) => Some(celsius),
        None => match thermal_zone {
            Some(celsius) => Some(celsius),
            None => controller,
        },
    }
}

/// Whether so many seconds have passed since the last reading.
pub open spec fn due(now: Instant, last: Instant, seconds: u64) -> bool {
    now.nanos_since(last) >= seconds * NANOS_PER_SECOND
}

fn is_due(now: Instant, last: Instant, seconds: u64) -> (is: bool)
    ensures
        is == due(now, last, seconds),
{
    now.duration_since(last).reaches_secs(seconds)
}

/// The name of a platform as its makers write it.
pub fn platform_name(platform: &str) -> (label: String)
    ensures
        label@ == platform_label(platform@),
{
    if text::same_text(platform, "macos") {
        "macOS".to_owned()
    } else if text::same_text(platform, "windows") {
        "Windows".to_owned()
    } else if text::same_text(platform, "linux") {
        "Linux".to_owned()
    } else {
        platform.to_owned()
    }
}

fn known_or(value: &Option<String>, other: &str) -> (known: String)
    ensures
        known@ == text_or(*value, other@),
{
    match value {
        Some(known) => known.clone(),
        None => other.to_owned(),
    }
}

/// The host that the readings describe.
pub fn system_info(host: &HostReading) -> (info: SystemInfo)
    ensures
        info.deep_view() == host_view(*host),
{
    let os = match &host.name {
        Some(name) => name.clone(),
        None => platform_name(host.platform.as_str()),
    };
    let os_version = match &host.long_os_version {
        Some(version) => version.clone(),
        None => known_or(&host.os_version, "unknown"),
    };
    let cpu_model = match &host.cpu_brand {
        Some(brand) => {
            let model = text::trim(brand.as_str());
            if model.is_empty() {
                "unknown".to_owned()
            } else {
                model.to_owned()
            }
        },
        None => "unknown".to_owned(),
    };
    SystemInfo {
        hostname: known_or(&host.host_name, "unknown"),
        os,
        os_version,
        kernel_version: known_or(&host.kernel_version, "unknown"),
        architecture: host.architecture.clone(),
        cpu_model,
    }
}

/// The metrics of all disks, given the time since the previous reading.
pub fn disk_metrics(disks: &Vec<DiskReading>, elapsed: Duration) -> (infos: Vec<DiskInfo>)
    ensures
        infos@ == disk_infos(disks@, elapsed.as_nanos()),
{
    let mut infos: Vec<DiskInfo> = Vec::new();
    let mut i: usize = 0;
    while i < disks.len()
        invariant
            i <= disks.len(),
            infos@ == disk_infos(disks@, elapsed.as_nanos()).take(i as int),
        decreases disks.len() - i,
    {
        let disk = &disks[i];
        let used: u64 = if disk.total_bytes >= disk.available_bytes {
            disk.total_bytes - disk.available_bytes
        } else {
            0
        };
        infos.push(
            DiskInfo {
                name: disk.name.clone(),
                mount_point: disk.mount_point.clone(),
                file_system: disk.file_system.clone(),
                total_bytes: disk.total_bytes,
                available_bytes: disk.available_bytes,
                usage_percent: metrics::percentage(used, disk.total_bytes),
                read_bytes_per_sec: metrics::bytes_per_second(disk.read_bytes, elapsed),
                write_bytes_per_sec: metrics::bytes_per_second(disk.written_bytes, elapsed),
                read_only: disk.read_only,
                removable: disk.removable,
            },
        );
        i = i + 1;
        assert(infos@ =~= disk_infos(disks@, elapsed.as_nanos()).take(i as int));
    }
    assert(infos@ =~= disk_infos(disks@, elapsed.as_nanos()));
    infos
}

/// The metrics of all network interfaces, given the time since the previous
/// reading.
pub fn network_metrics(networks: &Vec<NetworkReading>, elapsed: Duration) -> (infos: Vec<
    NetworkInfo,
>)
    ensures
        infos@ == network_infos(networks@, elapsed.as_nanos()),
{
    let mut infos: Vec<NetworkInfo> = Vec::new();
    let mut i: usize = 0;
    while i < networks.len()
        invariant
            i <= networks.len(),
            infos@ == network_infos(networks@, elapsed.as_nanos()).take(i as int),
        decreases networks.len() - i,
    {
        let network = &networks[i];
        infos.push(
            NetworkInfo {
                name: network.name.clone(),
                received_bytes_per_sec: metrics::bytes_per_second(network.received_bytes, elapsed),
                transmitted_bytes_per_sec: metrics::bytes_per_second(
                    network.transmitted_bytes,
                    elapsed,
                ),
                total_received_bytes: network.total_received_bytes,
                total_transmitted_bytes: network.total_transmitted_bytes,
            },
        );
        i = i + 1;
        assert(infos@ =~= network_infos(networks@, elapsed.as_nanos()).take(i as int));
    }
    assert(infos@ =~= network_infos(networks@, elapsed.as_nanos()));
    infos
}

fn measures_package(label: &str, id: &str) -> (measures: bool)
    ensures
        measures == is_package_sensor(label@, id@),
{
    let lower_label = text::to_ascii_lowercase(label);
    let lower_id = text::to_ascii_lowercase(id);
    text::contains_text(lower_label.as_str(), "package") || text::contains_text(
        lower_id.as_str(),
        "package",
    ) || text::same_text(lower_label.as_str(), "computer") || text::same_text(
        lower_id.as_str(),
        "computer",
    ) || (text::contains_text(lower_label.as_str(), "cpu") && !text::contains_text(
        lower_label.as_str(),
        "core",
    ))
}

/// The temperature of the first sensor that measures the CPU package.
pub fn component_temperature(components: &Vec<ComponentReading>) -> (celsius: Option<Single>)
    ensures
        celsius == first_package_reading(components@),
{
    let mut i: usize = 0;
    assert(components@.subrange(0, components.len() as int) =~= components@);
    while i < components.len()
        invariant
            i <= components.len(),
            first_package_reading(components@) == first_package_reading(
                components@.subrange(i as int, components.len() as int),
            ),
        decreases components.len() - i,
    {
        let component = &components[i];
        proof {
            let rest = components@.subrange(i as int, components.len() as int);
            assert(rest[0] == *component);
            assert(rest.subrange(1, rest.len() as int) =~= components@.subrange(
                i + 1,
                components.len() as int,
            ));
        }
        if let Some(temperature) = component.temperature {
            let measures: bool = match &component.id {
                Some(id) => measures_package(component.label.as_str(), id.as_str()),
                None => {
                    let no_id = String::new();
                    measures_package(component.label.as_str(), no_id.as_str())
                },
            };
            if temperature.is_finite() && measures {
                return Some(temperature);
            }
        }
        i = i + 1;
    }
    None
}

/// The CPU package temperature: that of the first sensor, else that of the
/// thermal zone, else that of the management controller.
pub fn cpu_package_temperature(
    components: &Vec<ComponentReading>,
    thermal_zone: Option<Single>,
    controller: Option<Single>,
) -> (celsius: Option<Single>)
    ensures
        celsius == package_temperature(components@, thermal_zone, controller),
{
    match component_temperature(components) {
        Some(celsius) => Some(celsius),
        None => match thermal_zone {
            Some(celsius) => Some(celsius),
            None => controller,
        },
    }
}

/// The metrics that are not read at every collection, and when each was last
/// read.
#[derive(Debug)]
pub struct Collector {
    pub system_info: SystemInfo,
    pub logical_cores: usize,
    pub physical_cores: Option<usize>,
    pub disk_metrics: Vec<DiskInfo>,
    pub network_metrics: Vec<NetworkInfo>,
    pub gpu_metrics: Vec<GpuInfo>,
    pub package_temperature_celsius: Option<Single>,
    pub last_cpu_frequency_refresh: Instant,
    pub last_disk_io_refresh: Instant,
    pub last_disk_capacity_refresh: Instant,
    pub last_network_refresh: Instant,
    pub last_gpu_refresh: Instant,
    pub last_temperature_refresh: Instant,
}

/// What a snapshot says of each core, in their order.
pub open spec fn core_infos(cpus: Seq<CpuReading>) -> Seq<CpuCoreInfo> {
    Seq::new(
        cpus.len(),
        |i: int|
            CpuCoreInfo {
                index: i as usize,
                usage_percent: cpus[i].usage_percent,
                frequency_mhz: cpus[i].frequency_mhz,
            },
    )
}

/// Whether the CPU was read: there are cores, and every usage is a number.
pub open spec fn cpu_readable(logical_cores: usize, readings: CoreReadings) -> bool {
    &&& logical_cores > 0
    &&& readings.global_cpu_usage.finite()
    &&& forall|i: int|
        0 <= i < readings.cpus@.len() ==> (#[trigger] readings.cpus@[i]).usage_percent.finite()
}

impl Collector {
    /// Whether nothing was read after the given time, and the disks were listed
    /// no later than their throughput was read.
    pub open spec fn well_timed(self, now: Instant) -> bool {
        &&& self.last_cpu_frequency_refresh.nanos() <= now.nanos()
        &&& self.last_disk_capacity_refresh.nanos() <= self.last_disk_io_refresh.nanos()
        &&& self.last_disk_io_refresh.nanos() <= now.nanos()
        &&& self.last_network_refresh.nanos() <= now.nanos()
        &&& self.last_gpu_refresh.nanos() <= now.nanos()
        &&& self.last_temperature_refresh.nanos() <= now.nanos()
    }

    /// What a collection at the given time asks for.
    pub open spec fn plan_at(self, now: Instant) -> RefreshPlan {
        RefreshPlan {
            cpu_frequency: due(
                now,
                self.last_cpu_frequency_refresh,
                CPU_FREQUENCY_REFRESH_INTERVAL,
            ),
            disks: if due(now, self.last_disk_capacity_refresh, DISK_CAPACITY_REFRESH_INTERVAL) {
                DiskRefresh::Everything
            } else if due(now, self.last_disk_io_refresh, DISK_IO_REFRESH_INTERVAL) {
                DiskRefresh::Throughput
            } else {
                DiskRefresh::Skip
            },
            networks: due(now, self.last_network_refresh, NETWORK_REFRESH_INTERVAL),
            gpus: due(now, self.last_gpu_refresh, GPU_REFRESH_INTERVAL),
            temperature: due(now, self.last_temperature_refresh, TEMPERATURE_REFRESH_INTERVAL),
        }
    }

    /// Whether `after` differs from `self` just in what a collection at the
    /// given time asks for, CPU frequencies aside.
    pub open spec fn supplemented(
        self,
        after: Collector,
        now: Instant,
        readings: SupplementalReadings,
    ) -> bool {
        let plan = self.plan_at(now);
        &&& after.system_info == self.system_info
        &&& after.logical_cores == self.logical_cores
        &&& after.physical_cores == self.physical_cores
        &&& after.disk_metrics@ == if plan.disks == DiskRefresh::Skip {
            self.disk_metrics@
        } else {
            disk_infos(readings.disks@, now.nanos_since(self.last_disk_io_refresh))
        }
        &&& after.last_disk_io_refresh == if plan.disks == DiskRefresh::Skip {
            self.last_disk_io_refresh
        } else {
            now
        }
        &&& after.last_disk_capacity_refresh == if plan.disks == DiskRefresh::Everything {
            now
        } else {
            self.last_disk_capacity_refresh
        }
        &&& after.network_metrics@ == if plan.networks {
            network_infos(readings.networks@, now.nanos_since(self.last_network_refresh))
        } else {
            self.network_metrics@
        }
        &&& after.last_network_refresh == if plan.networks {
            now
        } else {
            self.last_network_refresh
        }
        &&& after.gpu_metrics@ == if plan.gpus {
            readings.gpus@
        } else {
            self.gpu_metrics@
        }
        &&& after.last_gpu_refresh == if plan.gpus {
            now
        } else {
            self.last_gpu_refresh
        }
        &&& after.package_temperature_celsius == if plan.temperature {
            readings.package_temperature_celsius
        } else {
            self.package_temperature_celsius
        }
        &&& after.last_temperature_refresh == if plan.temperature {
            now
        } else {
            self.last_temperature_refresh
        }
    }

    /// Whether `after` differs from `self` just in what a collection at the
    /// given time asks for.
    pub open spec fn refreshed(
        self,
        after: Collector,
        now: Instant,
        readings: SupplementalReadings,
    ) -> bool {
        &&& self.supplemented(after, now, readings)
        &&& after.last_cpu_frequency_refresh == if self.plan_at(now).cpu_frequency {
            now
        } else {
            self.last_cpu_frequency_refresh
        }
    }

    /// Whether the snapshot holds the readings and the collector's metrics.
    pub open spec fn shows(self, snapshot: SystemSnapshot, readings: CoreReadings) -> bool {
        &&& snapshot.timestamp == match readings.since_epoch {
            Some(span) => span.as_nanos() / NANOS_PER_SECOND as nat,
            None => 0,
        }
        &&& snapshot.system == self.system_info
        &&& snapshot.cpu.usage_percent == readings.global_cpu_usage
        &&& snapshot.cpu.logical_cores == self.logical_cores
        &&& snapshot.cpu.physical_cores == self.physical_cores
        &&& snapshot.cpu.package_temperature_celsius == self.package_temperature_celsius
        &&& snapshot.cpu.per_core@ == core_infos(readings.cpus@)
        &&& snapshot.memory == (MemoryInfo {
            total_bytes: readings.total_memory,
            used_bytes: readings.used_memory,
            available_bytes: readings.available_memory,
            usage_percent: metrics::percentage_of(
                readings.used_memory as nat,
                readings.total_memory as nat,
            ),
        })
        &&& snapshot.swap == (SwapInfo {
            total_bytes: readings.total_swap,
            used_bytes: readings.used_swap,
            available_bytes: readings.free_swap,
            usage_percent: metrics::percentage_of(
                readings.used_swap as nat,
                readings.total_swap as nat,
            ),
        })
        &&& snapshot.uptime.seconds == readings.uptime
        &&& snapshot.disks@ == self.disk_metrics@
        &&& snapshot.networks@ == self.network_metrics@
        &&& snapshot.gpus@ == self.gpu_metrics@
    }

    /// Whether `self` is a collector that read everything at the given time.
    pub open spec fn begins(
        self,
        host: HostReading,
        logical_cores: usize,
        physical_cores: Option<usize>,
        readings: SupplementalReadings,
        now: Instant,
    ) -> bool {
        &&& self.system_info.deep_view() == host_view(host)
        &&& self.logical_cores == logical_cores
        &&& self.physical_cores == physical_cores
        &&& self.disk_metrics@ == disk_infos(readings.disks@, 0)
        &&& self.network_metrics@ == network_infos(readings.networks@, 0)
        &&& self.gpu_metrics@ == readings.gpus@
        &&& self.package_temperature_celsius == readings.package_temperature_celsius
        &&& self.last_cpu_frequency_refresh == now
        &&& self.last_disk_io_refresh == now
        &&& self.last_disk_capacity_refresh == now
        &&& self.last_network_refresh == now
        &&& self.last_gpu_refresh == now
        &&& self.last_temperature_refresh == now
    }

    /// Whether `after` and `result` are what a collection at the given time
    /// makes of the readings.
    pub open spec fn collects(
        self,
        after: Collector,
        now: Instant,
        supplemental: SupplementalReadings,
        readings: CoreReadings,
        result: Result<SystemSnapshot, CollectionError>,
    ) -> bool {
        &&& self.refreshed(after, now, supplemental)
        &&& match result {
            Ok(snapshot) => {
                &&& cpu_readable(self.logical_cores, readings)
                &&& readings.total_memory > 0
                &&& after.shows(snapshot, readings)
            },
            Err(CollectionError::Cpu) => !cpu_readable(self.logical_cores, readings),
            Err(CollectionError::Memory) => {
                &&& cpu_readable(self.logical_cores, readings)
                &&& readings.total_memory == 0
            },
        }
    }

    /// A collector that has just read everything.
    pub fn new(
        host: &HostReading,
        logical_cores: usize,
        physical_cores: Option<usize>,
        readings: SupplementalReadings,
        now: Instant,
    ) -> (collector: Collector)
        ensures
            collector.begins(*host, logical_cores, physical_cores, readings, now),
            collector.well_timed(now),
    {
        Collector {
            system_info: system_info(host),
            logical_cores,
            physical_cores,
            disk_metrics: disk_metrics(&readings.disks, Duration::zero()),
            network_metrics: network_metrics(&readings.networks, Duration::zero()),
            gpu_metrics: readings.gpus,
            package_temperature_celsius: readings.package_temperature_celsius,
            last_cpu_frequency_refresh: now,
            last_disk_io_refresh: now,
            last_disk_capacity_refresh: now,
            last_network_refresh: now,
            last_gpu_refresh: now,
            last_temperature_refresh: now,
        }
    }

    /// What a collection at the given time asks for.
    pub fn refresh_plan(&self, now: Instant) -> (plan: RefreshPlan)
        ensures
            plan == self.plan_at(now),
    {
        RefreshPlan {
            cpu_frequency: is_due(
                now,
                self.last_cpu_frequency_refresh,
                CPU_FREQUENCY_REFRESH_INTERVAL,
            ),
            disks: if is_due(
                now,
                self.last_disk_capacity_refresh,
                DISK_CAPACITY_REFRESH_INTERVAL,
            ) {
                DiskRefresh::Everything
            } else if is_due(now, self.last_disk_io_refresh, DISK_IO_REFRESH_INTERVAL) {
                DiskRefresh::Throughput
            } else {
                DiskRefresh::Skip
            },
            networks: is_due(now, self.last_network_refresh, NETWORK_REFRESH_INTERVAL),
            gpus: is_due(now, self.last_gpu_refresh, GPU_REFRESH_INTERVAL),
            temperature: is_due(now, self.last_temperature_refresh, TEMPERATURE_REFRESH_INTERVAL),
        }
    }

    /// Takes over the readings that are due.
    pub fn refresh_supplemental_metrics(&mut self, now: Instant, readings: SupplementalReadings)
        ensures
            old(self).supplemented(*final(self), now, readings),
            final(self).last_cpu_frequency_refresh == old(self).last_cpu_frequency_refresh,
    {
        let plan = self.refresh_plan(now);
        if plan.disks != DiskRefresh::Skip {
            let elapsed = now.duration_since(self.last_disk_io_refresh);
            self.disk_metrics = disk_metrics(&readings.disks, elapsed);
            self.last_disk_io_refresh = now;
            if plan.disks == DiskRefresh::Everything {
                self.last_disk_capacity_refresh = now;
            }
        }
        if plan.networks {
            let elapsed = now.duration_since(self.last_network_refresh);
            self.network_metrics = network_metrics(&readings.networks, elapsed);
            self.last_network_refresh = now;
        }
        if plan.gpus {
            self.gpu_metrics = readings.gpus;
            self.last_gpu_refresh = now;
        }
        if plan.temperature {
            self.package_temperature_celsius = readings.package_temperature_celsius;
            self.last_temperature_refresh = now;
        }
    }

    /// Takes over the readings that are due and makes a snapshot.
    pub fn collect(
        &mut self,
        now: Instant,
        supplemental: SupplementalReadings,
        readings: &CoreReadings,
    ) -> (result: Result<SystemSnapshot, CollectionError>)
        ensures
            old(self).collects(*final(self), now, supplemental, *readings, result),
    {
        if is_due(now, self.last_cpu_frequency_refresh, CPU_FREQUENCY_REFRESH_INTERVAL) {
            self.last_cpu_frequency_refresh = now;
        }
        self.refresh_supplemental_metrics(now, supplemental);
        if self.logical_cores == 0 || !readings.global_cpu_usage.is_finite() {
            return Err(CollectionError::Cpu);
        }
        let mut per_core: Vec<CpuCoreInfo> = Vec::new();
        let mut index: usize = 0;
        let cpus = &readings.cpus;
        while index < cpus.len()
            invariant
                index <= cpus.len(),
                cpus@ == readings.cpus@,
                old(self).refreshed(*self, now, supplemental),
                forall|i: int|
                    0 <= i < index ==> (#[trigger] readings.cpus@[i]).usage_percent.finite(),
                per_core@ == core_infos(readings.cpus@).take(index as int),
            decreases cpus.len() - index,
        {
            let cpu = cpus[index];
            if !cpu.usage_percent.is_finite() {
                assert(!readings.cpus@[index as int].usage_percent.finite());
                return Err(CollectionError::Cpu);
            }
            per_core.push(
                CpuCoreInfo {
                    index,
                    usage_percent: cpu.usage_percent,
                    frequency_mhz: cpu.frequency_mhz,
                },
            );
            index = index + 1;
            assert(per_core@ =~= core_infos(readings.cpus@).take(index as int));
        }
        assert(per_core@ =~= core_infos(readings.cpus@));
        if readings.total_memory == 0 {
            return Err(CollectionError::Memory);
        }
        let disks = self.disk_metrics.clone();
        let networks = self.network_metrics.clone();
        let gpus = self.gpu_metrics.clone();
        assert(disks@ =~= self.disk_metrics@);
        assert(networks@ =~= self.network_metrics@);
        assert(gpus@ =~= self.gpu_metrics@);
        Ok(
            SystemSnapshot {
                timestamp: time::unix_timestamp(readings.since_epoch),
                system: self.system_info.clone(),
                cpu: CpuInfo {
                    usage_percent: readings.global_cpu_usage,
                    logical_cores: self.logical_cores,
                    physical_cores: self.physical_cores,
                    package_temperature_celsius: self.package_temperature_celsius,
                    per_core,
                },
                memory: MemoryInfo {
                    total_bytes: readings.total_memory,
                    used_bytes: readings.used_memory,
                    available_bytes: readings.available_memory,
                    usage_percent: metrics::percentage(
                        readings.used_memory,
                        readings.total_memory,
                    ),
                },
                swap: SwapInfo {
                    total_bytes: readings.total_swap,
                    used_bytes: readings.used_swap,
                    available_bytes: readings.free_swap,
                    usage_percent: metrics::percentage(readings.used_swap, readings.total_swap),
                },
                uptime: UptimeInfo { seconds: readings.uptime },
                disks,
                networks,
                gpus,
            },
        )
    }
}

/// After a collection nothing is due at the same time again.
pub proof fn lemma_nothing_due_twice(
    before: Collector,
    after: Collector,
    now: Instant,
    readings: SupplementalReadings,
)
    requires
        before.refreshed(after, now, readings),
    ensures
        after.plan_at(now) == (RefreshPlan {
            cpu_frequency: false,
            disks: DiskRefresh::Skip,
            networks: false,
            gpus: false,
            temperature: false,
        }),
{
}

/// What a collection asked for is asked for again once its interval has passed,
/// and not before.
pub proof fn lemma_due_again(
    before: Collector,
    after: Collector,
    now: Instant,
    later: Instant,
    readings: SupplementalReadings,
)
    requires
        before.refreshed(after, now, readings),
        now.nanos() <= later.nanos(),
    ensures
        before.plan_at(now).cpu_frequency ==> (after.plan_at(later).cpu_frequency <==> due(
            later,
            now,
            CPU_FREQUENCY_REFRESH_INTERVAL,
        )),
        before.plan_at(now).networks ==> (after.plan_at(later).networks <==> due(
            later,
            now,
            NETWORK_REFRESH_INTERVAL,
        )),
        before.plan_at(now).gpus ==> (after.plan_at(later).gpus <==> due(
            later,
            now,
            GPU_REFRESH_INTERVAL,
        )),
        before.plan_at(now).temperature ==> (after.plan_at(later).temperature <==> due(
            later,
            now,
            TEMPERATURE_REFRESH_INTERVAL,
        )),
        before.plan_at(now).disks == DiskRefresh::Everything ==> (after.plan_at(later).disks
            == DiskRefresh::Everything <==> due(later, now, DISK_CAPACITY_REFRESH_INTERVAL)),
        before.plan_at(now).disks != DiskRefresh::Skip ==> match after.plan_at(later).disks {
            DiskRefresh::Skip => !due(later, now, DISK_IO_REFRESH_INTERVAL),
            DiskRefresh::Throughput => due(later, now, DISK_IO_REFRESH_INTERVAL),
            DiskRefresh::Everything => due(
                later,
                after.last_disk_capacity_refresh,
                DISK_CAPACITY_REFRESH_INTERVAL,
            ),
        },
{
}

/// What a collection did not ask for is left as it was, with the time of its
/// last reading.
pub proof fn lemma_not_due_unchanged(
    before: Collector,
    after: Collector,
    now: Instant,
    readings: SupplementalReadings,
)
    requires
        before.refreshed(after, now, readings),
    ensures
        after.system_info == before.system_info,
        !before.plan_at(now).networks ==> after.network_metrics@ == before.network_metrics@
            && after.last_network_refresh == before.last_network_refresh,
        !before.plan_at(now).gpus ==> after.gpu_metrics@ == before.gpu_metrics@
            && after.last_gpu_refresh == before.last_gpu_refresh,
        !before.plan_at(now).temperature ==> after.package_temperature_celsius
            == before.package_temperature_celsius && after.last_temperature_refresh
            == before.last_temperature_refresh,
        before.plan_at(now).disks == DiskRefresh::Skip ==> after.disk_metrics@
            == before.disk_metrics@ && after.last_disk_io_refresh == before.last_disk_io_refresh
            && after.last_disk_capacity_refresh == before.last_disk_capacity_refresh,
{
}

/// A collection leaves the times of the readings in order, and no reading
/// older than its interval.
pub proof fn lemma_stays_well_timed(
    before: Collector,
    after: Collector,
    now: Instant,
    readings: SupplementalReadings,
)
    requires
        before.well_timed(now),
        before.refreshed(after, now, readings),
    ensures
        after.well_timed(now),
        now.nanos_since(after.last_cpu_frequency_refresh) < CPU_FREQUENCY_REFRESH_INTERVAL
            * NANOS_PER_SECOND,
        now.nanos_since(after.last_disk_io_refresh) < DISK_IO_REFRESH_INTERVAL * NANOS_PER_SECOND,
        now.nanos_since(after.last_disk_capacity_refresh) < DISK_CAPACITY_REFRESH_INTERVAL
            * NANOS_PER_SECOND,
        now.nanos_since(after.last_network_refresh) < NETWORK_REFRESH_INTERVAL * NANOS_PER_SECOND,
        now.nanos_since(after.last_gpu_refresh) < GPU_REFRESH_INTERVAL * NANOS_PER_SECOND,
        now.nanos_since(after.last_temperature_refresh) < TEMPERATURE_REFRESH_INTERVAL
            * NANOS_PER_SECOND,
{
}

/// The occupied part of a disk is always between zero and a hundred percent.
pub proof fn lemma_disk_usage_bounded(disk: DiskReading, nanos: nat)
    ensures
        disk_info(disk, nanos).usage_percent.finite(),
        0 <= disk_info(disk, nanos).usage_percent.units() <= 100 * Double::one(),
{
    metrics::lemma_percentage_bounded(
        occupied(disk.total_bytes, disk.available_bytes) as u64,
        disk.total_bytes,
    );
}

/// In a snapshot, the usage of memory and swap is a number; where no more is
/// used than there is, it is between zero and a hundred percent.
pub proof fn lemma_memory_usage_bounded(
    collector: Collector,
    snapshot: SystemSnapshot,
    readings: CoreReadings,
)
    requires
        collector.shows(snapshot, readings),
    ensures
        snapshot.memory.usage_percent.finite(),
        snapshot.swap.usage_percent.finite(),
        readings.used_memory <= readings.total_memory ==> 0
            <= snapshot.memory.usage_percent.units() <= 100 * Double::one(),
        readings.used_swap <= readings.total_swap ==> 0 <= snapshot.swap.usage_percent.units()
            <= 100 * Double::one(),
{
    metrics::lemma_percentage_ordered(
        readings.used_memory,
        readings.used_memory,
        readings.total_memory,
    );
    metrics::lemma_percentage_ordered(
        readings.used_swap,
        readings.used_swap,
        readings.total_swap,
    );
    if readings.used_memory <= readings.total_memory {
        metrics::lemma_percentage_bounded(readings.used_memory, readings.total_memory);
    }
    if readings.used_swap <= readings.total_swap {
        metrics::lemma_percentage_bounded(readings.used_swap, readings.total_swap);
    }
}

/// A new collector shows no throughput: there is no span of time yet.
pub proof fn lemma_no_rate_at_first(disk: DiskReading, network: NetworkReading)
    ensures
        disk_info(disk, 0).read_bytes_per_sec == (Double { bits: 0 }),
        disk_info(disk, 0).write_bytes_per_sec == (Double { bits: 0 }),
        network_info(network, 0).received_bytes_per_sec == (Double { bits: 0 }),
        network_info(network, 0).transmitted_bytes_per_sec == (Double { bits: 0 }),
{
}

/// The package temperature that a sensor gives is a number.
pub proof fn lemma_package_reading_finite(components: Seq<ComponentReading>)
    ensures
        first_package_reading(components) matches Some(celsius) ==> celsius.finite(),
    decreases components.len(),
{
    if components.len() > 0 {
        lemma_package_reading_finite(components.subrange(1, components.len() as int));
    }
}

} // verus!

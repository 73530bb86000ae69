//! The metrics of one point in time.

use crate::float::{Double, Single};
use crate::gpu::GpuInfo;
use vstd::prelude::*;

verus! {

/// A point-in-time view of the metrics exposed by `/api/system`.
#[derive(Debug)]
pub struct SystemSnapshot {
    pub timestamp: u64,
    pub system: SystemInfo,
    pub cpu: CpuInfo,
    pub memory: MemoryInfo,
    pub swap: SwapInfo,
    pub uptime: UptimeInfo,
    pub disks: Vec<DiskInfo>,
    pub networks: Vec<NetworkInfo>,
    pub gpus: Vec<GpuInfo>,
}

impl SystemSnapshot {
    /// Whether two snapshots hold the same metrics.
    pub open spec fn same(self, other: SystemSnapshot) -> bool {
        &&& self.timestamp == other.timestamp
        &&& self.system == other.system
        &&& self.cpu.same(other.cpu)
        &&& self.memory == other.memory
        &&& self.swap == other.swap
        &&& self.uptime == other.uptime
        &&& self.disks@ == other.disks@
        &&& self.networks@ == other.networks@
        &&& self.gpus@ == other.gpus@
    }
}

impl Clone for SystemSnapshot {
    fn clone(&self) -> (copy: Self)
        ensures
            copy.same(*self),
    {
        let disks = self.disks.clone();
        let networks = self.networks.clone();
        let gpus = self.gpus.clone();
        assert(disks@ =~= self.disks@);
        assert(networks@ =~= self.networks@);
        assert(gpus@ =~= self.gpus@);
        SystemSnapshot {
            timestamp: self.timestamp,
            system: self.system.clone(),
            cpu: self.cpu.clone(),
            memory: self.memory,
            swap: self.swap,
            uptime: self.uptime,
            disks,
            networks,
            gpus,
        }
    }
}

/// What does not change while the system runs.
#[derive(Debug)]
pub struct SystemInfo {
    pub hostname: String,
    pub os: String,
    pub os_version: String,
    pub kernel_version: String,
    pub architecture: String,
    pub cpu_model: String,
}

impl Clone for SystemInfo {
    fn clone(&self) -> (copy: Self)
        ensures
            copy == *self,
    {
        SystemInfo {
            hostname: self.hostname.clone(),
            os: self.os.clone(),
            os_version: self.os_version.clone(),
            kernel_version: self.kernel_version.clone(),
            architecture: self.architecture.clone(),
            cpu_model: self.cpu_model.clone(),
        }
    }
}

/// The processor as a whole and core by core.
#[derive(Debug)]
pub struct CpuInfo {
    pub usage_percent: Single,
    pub logical_cores: usize,
    pub physical_cores: Option<usize>,
    pub package_temperature_celsius: Option<Single>,
    pub per_core: Vec<CpuCoreInfo>,
}

impl CpuInfo {
    /// Whether two processors have the same metrics.
    pub open spec fn same(self, other: CpuInfo) -> bool {
        &&& self.usage_percent == other.usage_percent
        &&& self.logical_cores == other.logical_cores
        &&& self.physical_cores == other.physical_cores
        &&& self.package_temperature_celsius == other.package_temperature_celsius
        &&& self.per_core@ == other.per_core@
    }
}

impl Clone for CpuInfo {
    fn clone(&self) -> (copy: Self)
        ensures
            copy.same(*self),
    {
        let per_core = self.per_core.clone();
        assert(per_core@ =~= self.per_core@);
        CpuInfo {
            usage_percent: self.usage_percent,
            logical_cores: self.logical_cores,
            physical_cores: self.physical_cores,
            package_temperature_celsius: self.package_temperature_celsius,
            per_core,
        }
    }
}

/// One logical core.
#[derive(Clone, Copy, Debug)]
pub struct CpuCoreInfo {
    pub index: usize,
    pub usage_percent: Single,
    pub frequency_mhz: u64,
}

/// The main memory.
#[derive(Clone, Copy, Debug)]
pub struct MemoryInfo {
    pub total_bytes: u64,
    pub used_bytes: u64,
    pub available_bytes: u64,
    pub usage_percent: Double,
}

/// The swap space.
#[derive(Clone, Copy, Debug)]
pub struct SwapInfo {
    pub total_bytes: u64,
    pub used_bytes: u64,
    pub available_bytes: u64,
    pub usage_percent: Double,
}

/// How long the system has been running.
#[derive(Clone, Copy, Debug)]
pub struct UptimeInfo {
    pub seconds: u64,
}

/// A mounted disk.
#[derive(Debug)]
pub struct DiskInfo {
    pub name: String,
    pub mount_point: String,
    pub file_system: String,
    pub total_bytes: u64,
    pub available_bytes: u64,
    pub usage_percent: Double,
    pub read_bytes_per_sec: Double,
    pub write_bytes_per_sec: Double,
    pub read_only: bool,
    pub removable: bool,
}

impl Clone for DiskInfo {
    fn clone(&self) -> (copy: Self)
        ensures
            copy == *self,
    {
        DiskInfo {
            name: self.name.clone(),
            mount_point: self.mount_point.clone(),
            file_system: self.file_system.clone(),
            total_bytes: self.total_bytes,
            available_bytes: self.available_bytes,
            usage_percent: self.usage_percent,
            read_bytes_per_sec: self.read_bytes_per_sec,
            write_bytes_per_sec: self.write_bytes_per_sec,
            read_only: self.read_only,
            removable: self.removable,
        }
    }
}

/// A network interface.
#[derive(Debug)]
pub struct NetworkInfo {
    pub name: String,
    pub received_bytes_per_sec: Double,
    pub transmitted_bytes_per_sec: Double,
    pub total_received_bytes: u64,
    pub total_transmitted_bytes: u64,
}

impl Clone for NetworkInfo {
    fn clone(&self) -> (copy: Self)
        ensures
            copy == *self,
    {
        NetworkInfo {
            name: self.name.clone(),
            received_bytes_per_sec: self.received_bytes_per_sec,
            transmitted_bytes_per_sec: self.transmitted_bytes_per_sec,
            total_received_bytes: self.total_received_bytes,
            total_transmitted_bytes: self.total_transmitted_bytes,
        }
    }
}

} // verus!

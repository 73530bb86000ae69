//! Cross-platform system monitoring for the API server.

pub mod collector;
pub mod float;
pub mod gpu;
pub mod laws;
pub mod macos_smc;
pub mod metrics;
pub mod snapshot;
pub mod system_monitor;
pub mod text;
pub mod thermal_zone;
pub mod time;

pub use gpu::GpuInfo;
pub use snapshot::{
    CpuCoreInfo, CpuInfo, DiskInfo, MemoryInfo, NetworkInfo, SwapInfo, SystemInfo, SystemSnapshot,
    UptimeInfo,
};
pub use system_monitor::{
    control_shutdown, get_system_snapshot, health, HealthResponse, MonitorState,
    SystemErrorResponse,
};

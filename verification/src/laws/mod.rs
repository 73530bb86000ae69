//! What the operations of the library are for, as laws over their inputs and
//! results.

pub mod collector;
pub mod gpu;
pub mod linux;
pub mod macos;
pub mod metrics;
pub mod monitor;
pub mod text;
pub mod thermal_zone;
pub mod time;
pub mod windows;

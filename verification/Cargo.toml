[package]
name = "background-system-monitor"
version = "0.1.0"
edition = "2021"
publish = false

[dependencies]
adlx = "=0.0.0-alpha.1"
axum = "=0.8.9"
metal = "=0.33.0"
nvml-wrapper = "=0.13.0"
serde = { version = "=1.0.229", features = ["derive"] }
smc-lib = "=0.1.2"
sysinfo = "=0.38.4"
tokio = { version = "=1.54.1", features = ["macros", "net", "rt-multi-thread", "signal", "sync", "time"] }
tracing = "=0.1.44"
tracing-subscriber = "=0.3.23"
windows = { version = "=0.62.2", features = ["Win32_Foundation", "Win32_Graphics_Dxgi", "Win32_Graphics_Dxgi_Common", "Win32_System_Com", "Win32_System_Performance"] }

//! Collection, health and answers.

use background_system_monitor::collector::{
    component_temperature, cpu_package_temperature, disk_metrics, network_metrics, platform_name,
    system_info, CollectionError, Collector, ComponentReading, CoreReadings, CpuReading,
    DiskReading, DiskRefresh, HostReading, NetworkReading, RefreshPlan, SupplementalReadings,
    COLLECTION_INTERVAL,
};
use background_system_monitor::float::{Double, Single};
use background_system_monitor::system_monitor::{Status, PROGRAM_NAME};
use background_system_monitor::time::{Duration, Instant};
use background_system_monitor::{
    control_shutdown, get_system_snapshot, health, CpuInfo, DiskInfo, GpuInfo, HealthResponse,
    MonitorState, SystemInfo, SystemSnapshot,
};
use sysinfo::{CpuRefreshKind, MemoryRefreshKind, RefreshKind, System};

fn single(value: f32) -> Single {
    Single { bits: value.to_bits() }
}

fn value(number: Double) -> f64 {
    f64::from_bits(number.bits)
}

fn at(secs: u64, nanos: u32) -> Instant {
    Instant { since_origin: Duration::new(secs, nanos) }
}

fn host() -> HostReading {
    HostReading {
        host_name: Some("box".to_owned()),
        name: None,
        long_os_version: None,
        os_version: Some("12".to_owned()),
        kernel_version: Some("6.1".to_owned()),
        platform: "linux".to_owned(),
        architecture: "x86_64".to_owned(),
        cpu_brand: Some("  Some CPU ".to_owned()),
    }
}

fn disk(read_bytes: u64) -> DiskReading {
    DiskReading {
        name: "sda".to_owned(),
        mount_point: "/".to_owned(),
        file_system: "ext4".to_owned(),
        total_bytes: 1_000,
        available_bytes: 250,
        read_bytes,
        written_bytes: 3_000,
        read_only: false,
        removable: true,
    }
}

fn network(received_bytes: u64) -> NetworkReading {
    NetworkReading {
        name: "eth0".to_owned(),
        received_bytes,
        transmitted_bytes: 500,
        total_received_bytes: 10_000,
        total_transmitted_bytes: 20_000,
    }
}

fn some_gpu(index: usize) -> GpuInfo {
    GpuInfo {
        index,
        name: None,
        vendor: None,
        memory_total_bytes: None,
        memory_used_bytes: None,
        utilization_percent: None,
        temperature_celsius: None,
        power_watts: None,
    }
}

fn supplemental(bytes: u64) -> SupplementalReadings {
    SupplementalReadings {
        disks: vec![disk(bytes)],
        networks: vec![network(bytes)],
        gpus: vec![some_gpu(0)],
        package_temperature_celsius: Some(single(bytes as f32)),
    }
}

fn core_readings() -> CoreReadings {
    CoreReadings {
        global_cpu_usage: single(12.5),
        cpus: vec![
            CpuReading { usage_percent: single(10.0), frequency_mhz: 3_000 },
            CpuReading { usage_percent: single(15.0), frequency_mhz: 3_100 },
        ],
        total_memory: 400,
        used_memory: 100,
        available_memory: 300,
        total_swap: 0,
        used_swap: 0,
        free_swap: 0,
        uptime: 99,
        since_epoch: Some(Duration::new(1_700_000_000, 5)),
    }
}

fn collector() -> Collector {
    Collector::new(&host(), 2, Some(1), supplemental(1_000), at(100, 0))
}

fn snapshot() -> SystemSnapshot {
    collector().collect(at(100, 0), supplemental(0), &core_readings()).expect("metrics should be available")
}

#[test]
fn initial_snapshot_is_serializable_and_has_platform_info() {
    let system = System::new_with_specifics(
        RefreshKind::nothing()
            .with_cpu(CpuRefreshKind::everything())
            .with_memory(MemoryRefreshKind::everything()),
    );
    let host = HostReading {
        host_name: System::host_name(),
        name: System::name(),
        long_os_version: System::long_os_version(),
        os_version: System::os_version(),
        kernel_version: System::kernel_version(),
        platform: "linux".to_owned(),
        architecture: "x86_64".to_owned(),
        cpu_brand: system.cpus().first().map(|cpu| cpu.brand().to_owned()),
    };
    let readings = SupplementalReadings {
        disks: vec![],
        networks: vec![],
        gpus: vec![],
        package_temperature_celsius: None,
    };
    let mut collector = Collector::new(
        &host,
        system.cpus().len(),
        System::physical_core_count(),
        readings,
        at(0, 0),
    );
    let core = CoreReadings {
        global_cpu_usage: single(system.global_cpu_usage()),
        cpus: system
            .cpus()
            .iter()
            .map(|cpu| CpuReading {
                usage_percent: single(cpu.cpu_usage()),
                frequency_mhz: cpu.frequency(),
            })
            .collect(),
        total_memory: system.total_memory(),
        used_memory: system.used_memory(),
        available_memory: system.available_memory(),
        total_swap: system.total_swap(),
        used_swap: system.used_swap(),
        free_swap: system.free_swap(),
        uptime: System::uptime(),
        since_epoch: Some(Duration::from_secs(1_700_000_000)),
    };
    let snapshot = collector
        .collect(at(0, 1), supplemental(0), &core)
        .expect("metrics should be available");

    assert_eq!(snapshot.timestamp, 1_700_000_000);
    assert!(!snapshot.system.os.is_empty());
    assert!(!snapshot.system.kernel_version.is_empty());
    assert_eq!(snapshot.cpu.logical_cores, system.cpus().len());
    assert_eq!(snapshot.cpu.package_temperature_celsius, None);
    assert_eq!(snapshot.cpu.per_core.len(), system.cpus().len());
    assert_eq!(snapshot.memory.total_bytes, system.total_memory());
    assert_eq!(snapshot.swap.total_bytes, system.total_swap());
    assert!(snapshot.disks.is_empty());
    assert!(snapshot.networks.is_empty());
    assert!(snapshot.gpus.is_empty());
}

#[test]
fn snapshot_shows_what_was_read() {
    let snapshot = snapshot();
    // Naming every field shows that there is no other one, such as a list of processes.
    let SystemSnapshot {
        timestamp,
        system,
        cpu,
        memory,
        swap,
        uptime,
        disks,
        networks,
        gpus,
    } = snapshot;
    let SystemInfo { hostname, os, os_version, kernel_version, architecture, cpu_model } = system;
    let CpuInfo {
        usage_percent,
        logical_cores,
        physical_cores,
        package_temperature_celsius,
        per_core,
    } = cpu;

    assert_eq!(timestamp, 1_700_000_000);
    assert_eq!(hostname, "box");
    assert_eq!(os, "Linux");
    assert_eq!(os_version, "12");
    assert_eq!(kernel_version, "6.1");
    assert_eq!(architecture, "x86_64");
    assert_eq!(cpu_model, "Some CPU");
    assert_eq!(usage_percent, single(12.5));
    assert_eq!(logical_cores, 2);
    assert_eq!(physical_cores, Some(1));
    assert_eq!(package_temperature_celsius, Some(single(1_000.0)));
    assert_eq!(per_core.len(), 2);
    assert_eq!(per_core[1].index, 1);
    assert_eq!(per_core[1].usage_percent, single(15.0));
    assert_eq!(per_core[1].frequency_mhz, 3_100);
    assert_eq!(memory.total_bytes, 400);
    assert_eq!(memory.used_bytes, 100);
    assert_eq!(memory.available_bytes, 300);
    assert_eq!(value(memory.usage_percent), 25.0);
    assert_eq!(value(swap.usage_percent), 0.0);
    assert_eq!(uptime.seconds, 99);
    assert_eq!(disks.len(), 1);
    assert_eq!(networks.len(), 1);
    assert_eq!(gpus.len(), 1);
}

#[test]
fn failed_collection_is_not_healthy() {
    let state = MonitorState::from_result(Err(CollectionError::Cpu), at(0, 0));

    assert!(!state.is_healthy(at(0, 0)));
    assert_eq!(state.last_updated_at(), None);
}

#[test]
fn health_response_contains_program_name_and_status() {
    let response = HealthResponse {
        name: PROGRAM_NAME,
        status: "OK",
    };
    assert_eq!(response.name, "Background_System_Monitor");
    assert_eq!(response.status, "OK");

    let state = MonitorState::from_result(Ok(snapshot()), at(5, 0));
    let (status, response) = health(&state, at(5, 0));
    assert_eq!(status.code(), 200);
    assert_eq!(response.name, "Background_System_Monitor");
    assert_eq!(response.status, "OK");
}

#[test]
fn snapshot_is_served_until_it_is_three_seconds_old() {
    let state = MonitorState::from_result(Ok(snapshot()), at(10, 500));
    for now in [at(10, 500), at(12, 0), at(13, 499), at(9, 0)] {
        assert!(state.is_healthy(now));
        let served = get_system_snapshot(&state, now).expect("healthy");
        assert_eq!(served.timestamp, 1_700_000_000);
        assert_eq!(served.disks[0].name, "sda");
        assert_eq!(health(&state, now).0, Status::Success);
    }
    for now in [at(13, 500), at(14, 0), at(1_000_000, 0)] {
        assert!(!state.is_healthy(now));
        let (status, error) = get_system_snapshot(&state, now).expect_err("stale");
        assert_eq!(status, Status::ServiceUnavailable);
        assert_eq!(status.code(), 503);
        assert_eq!(error.error, "system_metrics_unavailable");
        assert_eq!(error.message, "System metrics are temporarily unavailable");
        assert_eq!(error.last_updated_at, Some(1_700_000_000));
        let (status, response) = health(&state, now);
        assert_eq!(status, Status::ServiceUnavailable);
        assert_eq!(response.status, "UNAVAILABLE");
        assert_eq!(response.name, PROGRAM_NAME);
    }
}

#[test]
fn failure_is_noted_once_and_keeps_the_time_stamp() {
    let mut state = MonitorState::from_result(Ok(snapshot()), at(10, 0));
    assert!(state.publish(Err(CollectionError::Memory), at(11, 0)));
    assert!(!state.is_healthy(at(11, 0)));
    assert_eq!(state.last_updated_at(), Some(1_700_000_000));
    assert!(!state.publish(Err(CollectionError::Memory), at(12, 0)));
    assert_eq!(state.snapshot(at(12, 0)).err(), Some(Some(1_700_000_000)));
    assert!(!state.publish(Ok(snapshot()), at(13, 0)));
    assert!(state.is_healthy(at(13, 0)));
    state.set_failure();
    assert!(!state.is_healthy(at(13, 0)));
    state.set_success(snapshot(), at(14, 0));
    assert!(state.snapshot(at(14, 0)).is_ok());
    // A failure that comes when the snapshot is already too old is no news.
    assert!(!state.publish(Err(CollectionError::Cpu), at(20, 0)));
}

#[test]
fn shutdown_is_confirmed() {
    let (status, body) = control_shutdown();
    assert_eq!(status.code(), 200);
    assert_eq!(body, "OK");
}

#[test]
fn unreadable_metrics_are_errors() {
    let collect = |cores: usize, readings: CoreReadings| {
        let mut collector = Collector::new(&host(), cores, None, supplemental(0), at(0, 0));
        collector.collect(at(1, 0), supplemental(0), &readings).err()
    };
    assert_eq!(collect(2, core_readings()), None);
    assert_eq!(collect(0, core_readings()), Some(CollectionError::Cpu));
    let mut readings = core_readings();
    readings.global_cpu_usage = single(f32::NAN);
    assert_eq!(collect(2, readings), Some(CollectionError::Cpu));
    let mut readings = core_readings();
    readings.cpus[1].usage_percent = single(f32::INFINITY);
    readings.total_memory = 0;
    assert_eq!(collect(2, readings), Some(CollectionError::Cpu));
    let mut readings = core_readings();
    readings.total_memory = 0;
    assert_eq!(collect(2, readings), Some(CollectionError::Memory));
    let mut readings = core_readings();
    readings.since_epoch = None;
    assert_eq!(collect(2, readings), None);
}

#[test]
fn readings_are_taken_over_when_they_are_due() {
    let mut collector = collector();
    let nothing = RefreshPlan {
        cpu_frequency: false,
        disks: DiskRefresh::Skip,
        networks: false,
        gpus: false,
        temperature: false,
    };
    assert_eq!(collector.refresh_plan(at(104, 999_999_999)), nothing);
    assert_eq!(collector.refresh_plan(at(50, 0)), nothing);
    let first = RefreshPlan {
        disks: DiskRefresh::Throughput,
        networks: true,
        temperature: true,
        ..nothing
    };
    assert_eq!(collector.refresh_plan(at(105, 0)), first);
    assert_eq!(value(collector.disk_metrics[0].read_bytes_per_sec), 0.0);

    let snapshot = collector.collect(at(105, 0), supplemental(2_000), &core_readings()).expect("metrics");
    assert_eq!(value(snapshot.disks[0].read_bytes_per_sec), 400.0);
    assert_eq!(value(snapshot.disks[0].write_bytes_per_sec), 600.0);
    assert_eq!(value(snapshot.networks[0].received_bytes_per_sec), 400.0);
    assert_eq!(snapshot.cpu.package_temperature_celsius, Some(single(2_000.0)));
    assert_eq!(collector.refresh_plan(at(105, 0)), nothing);

    // Readings that are not due are not looked at.
    let snapshot = collector.collect(at(106, 0), supplemental(9), &core_readings()).expect("metrics");
    assert_eq!(value(snapshot.disks[0].read_bytes_per_sec), 400.0);
    assert_eq!(snapshot.cpu.package_temperature_celsius, Some(single(2_000.0)));

    let plan = collector.refresh_plan(at(130, 0));
    assert_eq!(plan.disks, DiskRefresh::Everything);
    assert!(plan.cpu_frequency);
    assert!(!plan.gpus);
    let _ = collector.collect(at(130, 0), supplemental(50), &core_readings());
    assert_eq!(value(collector.disk_metrics[0].read_bytes_per_sec), 2.0);
    assert_eq!(collector.refresh_plan(at(130, 0)), nothing);
    assert_eq!(collector.refresh_plan(at(135, 0)).disks, DiskRefresh::Throughput);
    assert!(collector.refresh_plan(at(160, 0)).gpus);
    let mut readings = supplemental(1);
    readings.gpus.push(some_gpu(1));
    collector.refresh_supplemental_metrics(at(160, 0), readings);
    assert_eq!(collector.gpu_metrics.len(), 2);
    assert_eq!(COLLECTION_INTERVAL, 1);
}

#[test]
fn no_reading_is_older_than_its_interval() {
    let mut collector = collector();
    for second in 100..400u64 {
        let now = at(second, 0);
        let _ = collector.collect(now, supplemental(1), &core_readings());
        let age = |last: Instant| now.duration_since(last).as_secs();
        assert!(age(collector.last_cpu_frequency_refresh) < 10);
        assert!(age(collector.last_disk_io_refresh) < 5);
        assert!(age(collector.last_disk_capacity_refresh) < 30);
        assert!(age(collector.last_network_refresh) < 5);
        assert!(age(collector.last_gpu_refresh) < 60);
        assert!(age(collector.last_temperature_refresh) < 5);
    }
}

#[test]
fn failed_collection_still_takes_readings_over() {
    let mut collector = collector();
    let mut readings = core_readings();
    readings.total_memory = 0;
    assert!(collector.collect(at(110, 0), supplemental(10), &readings).is_err());
    assert_eq!(value(collector.disk_metrics[0].read_bytes_per_sec), 1.0);
    assert!(!collector.refresh_plan(at(110, 0)).cpu_frequency);
}

#[test]
fn disk_usage_counts_what_is_not_available() {
    let infos = disk_metrics(&vec![disk(10)], Duration::from_secs(4));
    let DiskInfo { name, mount_point, file_system, total_bytes, available_bytes, .. } = &infos[0];
    assert_eq!((name.as_str(), mount_point.as_str(), file_system.as_str()), ("sda", "/", "ext4"));
    assert_eq!((*total_bytes, *available_bytes), (1_000, 250));
    assert_eq!(value(infos[0].usage_percent), 75.0);
    assert_eq!(value(infos[0].read_bytes_per_sec), 2.5);
    assert!(!infos[0].read_only);
    assert!(infos[0].removable);
    let mut odd = disk(0);
    odd.available_bytes = 2_000;
    assert_eq!(value(disk_metrics(&vec![odd], Duration::zero())[0].usage_percent), 0.0);
    let infos = network_metrics(&vec![network(30)], Duration::from_secs(4));
    assert_eq!(infos[0].name, "eth0");
    assert_eq!(value(infos[0].received_bytes_per_sec), 7.5);
    assert_eq!(value(infos[0].transmitted_bytes_per_sec), 125.0);
    assert_eq!(infos[0].total_received_bytes, 10_000);
    assert_eq!(infos[0].total_transmitted_bytes, 20_000);
}

#[test]
fn package_sensor_is_found_by_label_or_id() {
    let component = |label: &str, id: Option<&str>, celsius: Option<f32>| ComponentReading {
        label: label.to_owned(),
        id: id.map(str::to_owned),
        temperature: celsius.map(single),
    };
    let found = |components: Vec<ComponentReading>| component_temperature(&components);
    assert_eq!(found(vec![component("Package id 0", None, Some(1.0))]), Some(single(1.0)));
    assert_eq!(found(vec![component("x", Some("pkg-PACKAGE"), Some(2.0))]), Some(single(2.0)));
    assert_eq!(found(vec![component("Computer", None, Some(3.0))]), Some(single(3.0)));
    assert_eq!(found(vec![component("x", Some("COMPUTER"), Some(4.0))]), Some(single(4.0)));
    assert_eq!(found(vec![component("CPU", None, Some(5.0))]), Some(single(5.0)));
    assert_eq!(found(vec![component("cpu core 1", None, Some(6.0))]), None);
    assert_eq!(found(vec![component("computers", None, Some(6.0))]), None);
    assert_eq!(found(vec![component("nvme", Some("cpu"), Some(7.0))]), None);
    assert_eq!(
        found(vec![
            component("CPU", None, None),
            component("CPU", None, Some(f32::NAN)),
            component("CPU die", None, Some(8.0)),
            component("CPU", None, Some(9.0)),
        ]),
        Some(single(8.0))
    );
    let (zone, controller) = (Some(single(20.0)), Some(single(30.0)));
    let none = vec![];
    let one = vec![component("CPU", None, Some(5.0))];
    assert_eq!(cpu_package_temperature(&one, zone, controller), Some(single(5.0)));
    assert_eq!(cpu_package_temperature(&none, zone, controller), zone);
    assert_eq!(cpu_package_temperature(&none, None, controller), controller);
    assert_eq!(cpu_package_temperature(&none, None, None), None);
}

#[test]
fn unknown_host_facts_have_defaults() {
    assert_eq!(platform_name("macos"), "macOS");
    assert_eq!(platform_name("windows"), "Windows");
    assert_eq!(platform_name("linux"), "Linux");
    assert_eq!(platform_name("freebsd"), "freebsd");
    let info = system_info(&HostReading {
        host_name: None,
        name: Some("Debian".to_owned()),
        long_os_version: Some("Linux 12".to_owned()),
        os_version: Some("12".to_owned()),
        kernel_version: None,
        platform: "linux".to_owned(),
        architecture: "arm".to_owned(),
        cpu_brand: Some(" ".to_owned()),
    });
    assert_eq!(info.hostname, "unknown");
    assert_eq!(info.os, "Debian");
    assert_eq!(info.os_version, "Linux 12");
    assert_eq!(info.kernel_version, "unknown");
    assert_eq!(info.cpu_model, "unknown");
    let mut reading = host();
    reading.os_version = None;
    reading.cpu_brand = None;
    let info = system_info(&reading);
    assert_eq!(info.os_version, "unknown");
    assert_eq!(info.cpu_model, "unknown");
}

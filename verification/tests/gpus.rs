//! Graphics processors on every platform.

use background_system_monitor::float::{Double, Single};
use background_system_monitor::gpu::linux::{
    card_index, card_order, collect_card, read_hwmon, read_trimmed, read_u64, CardFiles, HwmonFiles,
};
use background_system_monitor::gpu::macos::{
    apply_smc_metrics, macos_vendor_from_name, MetalDevice,
};
use background_system_monitor::gpu::windows::{collect_adapters, AdapterDescription};
use background_system_monitor::gpu::{
    collect_adlx, collect_nvml, linux, macos, merge_adlx_metrics, merge_nvml_metrics, windows,
    AdlxDevice, AdlxGpuInfo, GpuInfo, NvmlDevice, NvmlGpuInfo, NvmlMemory,
};
use background_system_monitor::macos_smc::{
    cpu_package_temperature, decode_value, gpu_metrics, hex_digit, read_sensor, SmcValue,
    CPU_TEMPERATURE_KEYS, GPU_POWER_KEYS, GPU_TEMPERATURE_KEYS,
};
use background_system_monitor::thermal_zone::{counter_value, ThermalZoneStep};

fn single(value: f32) -> Single {
    Single { bits: value.to_bits() }
}

fn value(number: Option<Single>) -> Option<f32> {
    number.map(|n| f32::from_bits(n.bits))
}

fn gpu(name: &str, vendor: &str, memory: Option<u64>) -> GpuInfo {
    GpuInfo {
        index: 0,
        name: Some(name.to_owned()),
        vendor: Some(vendor.to_owned()),
        memory_total_bytes: memory,
        memory_used_bytes: None,
        utilization_percent: None,
        temperature_celsius: None,
        power_watts: None,
    }
}

fn nvml(name: &str, memory: Option<u64>) -> NvmlGpuInfo {
    NvmlGpuInfo {
        name: name.to_owned(),
        memory_total_bytes: memory,
        memory_used_bytes: Some(5),
        utilization_percent: Some(single(40.0)),
        temperature_celsius: Some(single(60.0)),
        power_watts: Some(single(80.0)),
    }
}

fn adlx(name: &str) -> AdlxGpuInfo {
    AdlxGpuInfo {
        name: name.to_owned(),
        utilization_percent: Some(single(12.0)),
        temperature_celsius: Some(single(50.0)),
        power_watts: None,
    }
}

#[test]
fn gpu_schema_uses_null_for_unsupported_metrics_and_has_no_driver_fields() {
    let gpu = GpuInfo {
        index: 0,
        name: Some("Test GPU".to_owned()),
        vendor: Some("Test Vendor".to_owned()),
        memory_total_bytes: Some(1024),
        memory_used_bytes: None,
        utilization_percent: None,
        temperature_celsius: None,
        power_watts: None,
    };
    // Naming every field shows that there is no other one.
    let GpuInfo {
        index,
        name,
        vendor,
        memory_total_bytes,
        memory_used_bytes,
        utilization_percent,
        temperature_celsius,
        power_watts,
    } = gpu.clone();

    assert_eq!(index, 0);
    assert_eq!(name.as_deref(), Some("Test GPU"));
    assert_eq!(vendor.as_deref(), Some("Test Vendor"));
    assert_eq!(memory_total_bytes, Some(1024));
    assert!(memory_used_bytes.is_none());
    assert!(utilization_percent.is_none());
    assert!(temperature_celsius.is_none());
    assert!(power_watts.is_none());
}

#[test]
fn macos_vendor_is_inferred_from_the_metal_device_name() {
    assert_eq!(
        macos_vendor_from_name("Intel Iris Plus"),
        Some("Intel".to_owned())
    );
    assert_eq!(
        macos_vendor_from_name("Apple M-series GPU"),
        Some("Apple".to_owned())
    );
    assert_eq!(macos_vendor_from_name("Unknown GPU"), None);
}

#[test]
fn further_macos_vendors_are_inferred() {
    assert_eq!(macos_vendor_from_name("Radeon Pro 560"), Some("AMD".to_owned()));
    assert_eq!(macos_vendor_from_name("amd something"), Some("AMD".to_owned()));
    assert_eq!(macos_vendor_from_name("GEFORCE GT"), Some("NVIDIA".to_owned()));
    assert_eq!(macos_vendor_from_name("NVIDIA with Intel"), Some("Intel".to_owned()));
    assert_eq!(macos_vendor_from_name(""), None);
}

#[test]
fn decodes_signed_fixed_point_temperature() {
    let value = decode_value(b"sp78", &[0x37, 0x80], single(-50.0), single(200.0));
    assert_eq!(value, Some(single(55.5)));
}

#[test]
fn accepts_both_float_byte_orders() {
    assert_eq!(
        decode_value(b"flt ", &[0x00, 0x00, 0x48, 0x42], single(0.0), single(100.0)),
        Some(single(50.0))
    );
    assert_eq!(
        decode_value(b"flt ", &[0x42, 0x48, 0x00, 0x00], single(0.0), single(100.0)),
        Some(single(50.0))
    );
}

#[test]
fn rejects_out_of_range_sensor_values() {
    assert!(decode_value(b"sp78", &[0xCD, 0x00], single(-50.0), single(200.0)).is_none());
}

#[test]
fn fixed_point_values_are_exact() {
    let (low, high) = (single(-40_000.0), single(70_000.0));
    for raw in 0..=u16::MAX {
        let bytes = raw.to_be_bytes();
        for (data_type, fraction) in [(b"sp78", 8), (b"spf0", 0), (b"sp0F", 15), (b"sp4b", 11)] {
            let expected = f32::from(raw as i16) / (1u32 << fraction) as f32;
            assert_eq!(decode_value(data_type, &bytes, low, high), Some(single(expected)));
        }
        for (data_type, fraction) in [(b"fp88", 8), (b"fp1f", 15), (b"fpF1", 1)] {
            let expected = f32::from(raw) / (1u32 << fraction) as f32;
            assert_eq!(decode_value(data_type, &bytes, low, high), Some(single(expected)));
        }
    }
}

#[test]
fn malformed_sensor_values_are_rejected() {
    let (low, high) = (single(-50.0), single(200.0));
    assert!(decode_value(b"sp79", &[1, 2], low, high).is_none());
    assert!(decode_value(b"fp78", &[1, 2], low, high).is_none());
    assert!(decode_value(b"spg8", &[1, 2], low, high).is_none());
    assert!(decode_value(b"sp7g", &[1, 2], low, high).is_none());
    assert!(decode_value(b"ui16", &[1, 2], low, high).is_none());
    assert!(decode_value(b"sp78", &[1], low, high).is_none());
    assert!(decode_value(b"flt ", &[0, 0, 0x48], low, high).is_none());
    let nan = f32::NAN.to_bits().to_le_bytes();
    assert!(decode_value(b"flt ", &nan, single(1.0), high).is_none());
}

#[test]
fn larger_float_byte_order_is_taken() {
    let bytes = [0x41, 0x20, 0x20, 0x42];
    let little = f32::from_le_bytes(bytes);
    let big = f32::from_be_bytes(bytes);
    assert!(little.abs() > big.abs());
    assert_eq!(decode_value(b"flt ", &bytes, single(0.0), single(200.0)), Some(single(little)));
    let equal = [0x42, 0x48, 0x48, 0x42];
    assert_eq!(
        decode_value(b"flt ", &equal, single(0.0), single(200.0)),
        Some(single(f32::from_be_bytes(equal)))
    );
}

#[test]
fn hexadecimal_digits_have_both_cases() {
    assert_eq!(hex_digit(b'0'), Some(0));
    assert_eq!(hex_digit(b'9'), Some(9));
    assert_eq!(hex_digit(b'a'), Some(10));
    assert_eq!(hex_digit(b'F'), Some(15));
    assert_eq!(hex_digit(b'g'), None);
    assert_eq!(hex_digit(b'/'), None);
    for byte in 0..=u8::MAX {
        assert_eq!(hex_digit(byte).map(u32::from), (byte as char).to_digit(16));
    }
}

#[test]
fn sensors_fall_back_to_later_keys() {
    let cold = || SmcValue { data_type: *b"sp78", bytes: vec![0xCD, 0x00] };
    let warm = || SmcValue { data_type: *b"sp78", bytes: vec![0x37, 0x80] };
    let readings = vec![None, Some(cold()), Some(warm())];
    assert_eq!(read_sensor(&readings, single(-50.0), single(200.0)), Some(single(55.5)));
    assert_eq!(cpu_package_temperature(Some(&readings)), Some(single(55.5)));
    assert_eq!(cpu_package_temperature(None), None);
    let power = vec![Some(SmcValue { data_type: *b"fp88", bytes: vec![20, 0] })];
    assert_eq!(gpu_metrics(Some((&readings, &power))), (Some(single(55.5)), Some(single(20.0))));
    let negative = vec![Some(SmcValue { data_type: *b"sp78", bytes: vec![0xFF, 0] })];
    assert_eq!(gpu_metrics(Some((&negative, &negative))), (Some(single(-1.0)), None));
    assert_eq!(gpu_metrics(None), (None, None));
    assert_eq!(CPU_TEMPERATURE_KEYS, [*b"TC0P", *b"TC0F"]);
    assert_eq!(GPU_TEMPERATURE_KEYS, [*b"TG0P", *b"TGDD"]);
    assert_eq!(GPU_POWER_KEYS, [*b"PG0R"]);
}

#[test]
fn vendors_have_pci_identifiers() {
    assert_eq!(linux::vendor_name("0x10de"), Some("NVIDIA".to_owned()));
    assert_eq!(linux::vendor_name("0x0x10DE"), Some("NVIDIA".to_owned()));
    assert_eq!(linux::vendor_name("1002"), Some("AMD".to_owned()));
    assert_eq!(linux::vendor_name("0x8086"), Some("Intel".to_owned()));
    assert_eq!(linux::vendor_name("0x106B"), Some("Apple".to_owned()));
    assert_eq!(linux::vendor_name("0X10de"), None);
    assert_eq!(linux::vendor_name("0x1af4"), None);
    assert_eq!(windows::vendor_name(0x1002), Some("AMD".to_owned()));
    assert_eq!(windows::vendor_name(0x10DE), Some("NVIDIA".to_owned()));
    assert_eq!(windows::vendor_name(0x8086), Some("Intel".to_owned()));
    assert_eq!(windows::vendor_name(0x106B), Some("Apple".to_owned()));
    assert_eq!(windows::vendor_name(0x1414), None);
}

#[test]
fn cards_are_ordered_by_number() {
    assert_eq!(card_index("card0"), Some(0));
    assert_eq!(card_index("card+7"), Some(7));
    assert_eq!(card_index("card0-DP-1"), None);
    assert_eq!(card_index("card"), None);
    assert_eq!(card_index("renderD128"), None);
    assert_eq!(card_index("card99999999999999999999"), None);
    let names = ["card10", "version", "card2", "card0-HDMI-A-1", "card02", "card0"];
    let names: Vec<String> = names.iter().map(|name| name.to_string()).collect();
    assert_eq!(card_order(&names), vec![5, 2, 4, 0]);
    assert_eq!(card_order(&vec![]), Vec::<usize>::new());
}

fn card(label: Option<&str>) -> CardFiles {
    CardFiles {
        vendor: Some("0x1002\n".to_owned()),
        label: label.map(str::to_owned),
        product_name: None,
        memory_total: Some("1024\n".to_owned()),
        memory_used: Some("many".to_owned()),
        busy_percent: Some(single(7.0)),
        sensors: vec![
            HwmonFiles { temperature: None, power_average: None, power_input: None },
            HwmonFiles {
                temperature: Some(single(45_500.0)),
                power_average: None,
                power_input: Some(single(12_500_000.0)),
            },
        ],
    }
}

#[test]
fn card_files_describe_a_gpu() {
    let gpu = collect_card(3, &card(Some(" Navi \n")));
    assert_eq!(gpu.index, 3);
    assert_eq!(gpu.name.as_deref(), Some("Navi"));
    assert_eq!(gpu.vendor.as_deref(), Some("AMD"));
    assert_eq!(gpu.memory_total_bytes, Some(1024));
    assert_eq!(gpu.memory_used_bytes, None);
    assert_eq!(value(gpu.utilization_percent), Some(7.0));
    assert_eq!(value(gpu.temperature_celsius), Some(45.5));
    assert_eq!(value(gpu.power_watts), Some(12.5));

    let mut files = card(None);
    files.product_name = Some("Board".to_owned());
    assert_eq!(collect_card(0, &files).name.as_deref(), Some("Board"));
    files.product_name = Some("  ".to_owned());
    assert_eq!(collect_card(12, &files).name.as_deref(), Some("GPU 12"));

    assert_eq!(read_trimmed(&Some(" x ".to_owned())), Some("x".to_owned()));
    assert_eq!(read_trimmed(&Some(" ".to_owned())), None);
    assert_eq!(read_trimmed(&None), None);
    assert_eq!(read_u64(&Some("18446744073709551615\n".to_owned())), Some(u64::MAX));
    assert_eq!(read_u64(&Some("18446744073709551616".to_owned())), None);
    assert_eq!(read_u64(&None), None);
}

#[test]
fn average_power_comes_before_input_power() {
    let sensor = HwmonFiles {
        temperature: None,
        power_average: Some(single(1_000_000.0)),
        power_input: Some(single(2_000_000.0)),
    };
    assert_eq!(read_hwmon(&vec![sensor]), (None, Some(single(1.0))));
    assert_eq!(read_hwmon(&vec![]), (None, None));
}

#[test]
fn telemetry_is_merged_by_name_or_memory() {
    let mut gpus = vec![gpu("Other", "Intel", Some(9)), gpu(" geforce rtx ", "NVIDIA", Some(7))];
    merge_nvml_metrics(&mut gpus, &vec![nvml("GeForce RTX", None)]);
    assert_eq!(gpus.len(), 2);
    assert_eq!(gpus[1].name.as_deref(), Some(" geforce rtx "));
    assert_eq!(gpus[1].memory_total_bytes, Some(7));
    assert_eq!(gpus[1].memory_used_bytes, Some(5));
    assert_eq!(value(gpus[1].power_watts), Some(80.0));
    assert!(gpus[0].memory_used_bytes.is_none());

    let mut gpus = vec![gpu("Adapter", "NVIDIA", Some(7))];
    merge_nvml_metrics(&mut gpus, &vec![nvml("Tesla", Some(7)), nvml("Quadro", Some(8))]);
    assert_eq!(gpus.len(), 2);
    assert_eq!(value(gpus[0].temperature_celsius), Some(60.0));
    assert_eq!(gpus[1].index, 1);
    assert_eq!(gpus[1].name.as_deref(), Some("Quadro"));
    assert_eq!(gpus[1].vendor.as_deref(), Some("NVIDIA"));
    assert_eq!(gpus[1].memory_total_bytes, Some(8));
}

#[test]
fn amd_telemetry_falls_back_to_a_gpu_without_temperature() {
    let mut gpus = vec![
        gpu("Intel Arc", "Intel", None),
        gpu("First", "AMD", None),
        gpu("Second", "AMD", Some(3)),
    ];
    merge_adlx_metrics(&mut gpus, &vec![adlx("second"), adlx("elsewhere"), adlx("third")]);
    assert_eq!(gpus.len(), 4);
    assert_eq!(value(gpus[2].temperature_celsius), Some(50.0));
    assert_eq!(gpus[2].memory_total_bytes, Some(3));
    assert_eq!(value(gpus[1].utilization_percent), Some(12.0));
    assert_eq!(gpus[1].name.as_deref(), Some("First"));
    assert!(gpus[0].temperature_celsius.is_none());
    assert_eq!(gpus[3].index, 3);
    assert_eq!(gpus[3].name.as_deref(), Some("third"));
    assert_eq!(gpus[3].vendor.as_deref(), Some("AMD"));
    assert!(gpus[3].memory_total_bytes.is_none());
}

#[test]
fn devices_without_a_name_have_no_telemetry() {
    let device = |name: Option<&str>| NvmlDevice {
        name: name.map(str::to_owned),
        memory: Some(NvmlMemory { total: 10, used: 4 }),
        utilization_percent: Some(33),
        temperature_celsius: None,
        power_milliwatts: Some(1_501),
    };
    let telemetry = collect_nvml(&vec![device(None), device(Some(" ")), device(Some(" A\t"))]);
    assert_eq!(telemetry.len(), 1);
    assert_eq!(telemetry[0].name, "A");
    assert_eq!(telemetry[0].memory_total_bytes, Some(10));
    assert_eq!(telemetry[0].memory_used_bytes, Some(4));
    assert_eq!(value(telemetry[0].utilization_percent), Some(33.0));
    assert!(telemetry[0].temperature_celsius.is_none());
    assert_eq!(value(telemetry[0].power_watts), Some(1_501f32 / 1_000.0));

    let double = |number: f64| Some(Double { bits: number.to_bits() });
    let telemetry = collect_adlx(&vec![
        AdlxDevice { name: None, usage: None, temperature: None, power: None },
        AdlxDevice {
            name: Some(" RX ".to_owned()),
            usage: double(100.5),
            temperature: double(61.25),
            power: double(f64::NAN),
        },
    ]);
    assert_eq!(telemetry.len(), 1);
    assert_eq!(telemetry[0].name, "RX");
    assert!(telemetry[0].utilization_percent.is_none());
    assert_eq!(value(telemetry[0].temperature_celsius), Some(61.25));
    assert!(telemetry[0].power_watts.is_none());
}

#[test]
fn software_adapters_are_skipped() {
    let adapter = |name: &str, flags: u32| {
        let mut description: Vec<u16> = name.encode_utf16().collect();
        description.extend([0, 0x41, 0x42]);
        Some(AdapterDescription {
            description,
            vendor_id: 0x8086,
            dedicated_video_memory: 77,
            flags,
        })
    };
    let adapters = vec![adapter("Soft", 2), None, adapter("Hard", 0), adapter("", 5), adapter("", 3)];
    let gpus = collect_adapters(&adapters);
    assert_eq!(gpus.len(), 2);
    assert_eq!(gpus[0].index, 0);
    assert_eq!(gpus[0].name.as_deref(), Some("Hard"));
    assert_eq!(gpus[0].vendor.as_deref(), Some("Intel"));
    assert_eq!(gpus[0].memory_total_bytes, Some(77));
    assert_eq!(gpus[1].index, 1);
    assert_eq!(gpus[1].name, None);
}

#[test]
fn collected_gpus_are_counted_from_zero() {
    let device = || NvmlDevice {
        name: Some("New".to_owned()),
        memory: None,
        utilization_percent: None,
        temperature_celsius: None,
        power_milliwatts: None,
    };
    let on_linux = linux::collect(&Some(vec![card(Some("One")), card(None)]), &vec![device()]);
    assert!(linux::collect(&None, &vec![device()]).is_empty());
    let on_windows = windows::collect(
        &vec![None],
        &vec![device()],
        &vec![AdlxDevice {
            name: Some("RX".to_owned()),
            usage: None,
            temperature: None,
            power: None,
        }],
    );
    let metal = MetalDevice {
        name: "Apple M1".to_owned(),
        recommended_max_working_set_size: 8,
        current_allocated_size: 2,
    };
    let on_macos = macos::collect(&vec![metal], (Some(single(40.0)), None));
    assert_eq!(on_linux.len(), 3);
    assert_eq!(on_windows.len(), 2);
    assert_eq!(on_macos.len(), 1);
    for gpus in [&on_linux, &on_windows, &on_macos] {
        for (i, gpu) in gpus.iter().enumerate() {
            assert_eq!(gpu.index, i);
        }
    }
    assert_eq!(on_macos[0].memory_total_bytes, Some(8));
    assert_eq!(on_macos[0].memory_used_bytes, Some(2));
    assert_eq!(value(on_macos[0].temperature_celsius), Some(40.0));
    assert_eq!(on_macos[0].vendor.as_deref(), Some("Apple"));
}

#[test]
fn controller_metrics_go_to_the_first_gpu() {
    let mut gpus = vec![gpu("A", "Intel", None), gpu("B", "AMD", None)];
    apply_smc_metrics(&mut gpus, (Some(single(30.0)), Some(single(5.0))));
    assert_eq!(value(gpus[0].temperature_celsius), Some(30.0));
    assert_eq!(value(gpus[0].power_watts), Some(5.0));
    assert!(gpus[1].temperature_celsius.is_none());
    let mut none = vec![];
    apply_smc_metrics(&mut none, (Some(single(30.0)), None));
    assert!(none.is_empty());
}

#[test]
fn thermal_zone_is_read_step_by_step() {
    let mut step = ThermalZoneStep::OpenQuery;
    for expected in [
        ThermalZoneStep::AddCounter,
        ThermalZoneStep::FirstSample,
        ThermalZoneStep::SecondSample,
        ThermalZoneStep::ReadValue,
    ] {
        assert_eq!(step.next(1, true), ThermalZoneStep::GiveUp);
        step = step.next(0, true);
        assert_eq!(step, expected);
    }
    assert_eq!(ThermalZoneStep::OpenQuery.next(0, false), ThermalZoneStep::GiveUp);
    assert_eq!(ThermalZoneStep::AddCounter.next(0, false), ThermalZoneStep::GiveUp);
    assert_eq!(ThermalZoneStep::FirstSample.next(0, false), ThermalZoneStep::SecondSample);

    let kelvin = Double { bits: 300.0f64.to_bits() };
    let celsius = Some((300.0f64 - 273.15) as f32);
    assert_eq!(value(counter_value(0, 0, kelvin)), celsius);
    assert_eq!(value(counter_value(0, 1, kelvin)), celsius);
    assert_eq!(counter_value(0, 2, kelvin), None);
    assert_eq!(counter_value(1, 0, kelvin), None);
}

#[test]
fn telemetry_finds_its_gpu_again() {
    let mut gpus = vec![gpu("Adapter", "NVIDIA", Some(7))];
    let telemetry = vec![nvml("Tesla", Some(7)), nvml("Quadro", None)];
    merge_nvml_metrics(&mut gpus, &telemetry);
    assert_eq!(gpus.len(), 2);
    merge_nvml_metrics(&mut gpus, &telemetry);
    assert_eq!(gpus.len(), 2);
    assert_eq!(gpus[0].memory_total_bytes, Some(7));
    assert_eq!(gpus[1].name.as_deref(), Some("Quadro"));

    let mut gpus = vec![gpu("Intel Arc", "Intel", None)];
    merge_adlx_metrics(&mut gpus, &vec![adlx("RX"), adlx("rx")]);
    assert_eq!(gpus.len(), 2);
    assert_eq!(gpus[1].name.as_deref(), Some("RX"));

    // Without a GPU of its name, it goes on to the next one without a temperature.
    let mut gpus = vec![gpu("First", "AMD", None), gpu("Second", "AMD", None)];
    merge_adlx_metrics(&mut gpus, &vec![adlx("elsewhere")]);
    assert!(gpus[1].temperature_celsius.is_none());
    merge_adlx_metrics(&mut gpus, &vec![adlx("elsewhere")]);
    assert_eq!(value(gpus[1].temperature_celsius), Some(50.0));
}

use gpu_sensors::gpu::{GPUSensor, SensorType};
use gpu_sensors::linux_amd_gpu::LinuxAmdGPUSensor;
use gpu_sensors::gpu::nvidia_names_of;
use gpu_sensors::windows_adapters::from_utf16_lossy;
use gpu_sensors::nvidia_gpu::{
    counters_of, probe_outcome, process_usage_outcome, sampling_step, usage_map, NvidiaGPUSensor,
};
use gpu_sensors::text::{
    ascii_lowercase, contains, decimal_string, eq_ignore_ascii_case, join, lex_le_exec,
    strip_all_prefixes, trim,
};
use gpu_sensors::{
    adapter_name, get_gpu_list, get_gpu_list_from_adapters, get_gpu_power_sensor, gpu_list_label,
    gpu_names, is_primary_drm_card, list_amd_gpus, normalize_hex_id, pick_power_reading,
    radv_architecture_name, read_marketing_name, DrmEntry, GPUVendor, HwmonReadings,
    LinuxAmdGpuDevice, SensorError,
};

fn device(card: &str, id: Option<&str>, name: Option<&str>) -> LinuxAmdGpuDevice {
    LinuxAmdGpuDevice {
        card: card.to_string(),
        device_path: format!("/sys/class/drm/{}/device", card),
        device_id: id.map(|s| s.to_string()),
        marketing_name: name.map(|s| s.to_string()),
    }
}

fn entry(card: &str, vendor: Option<&str>, dev: Option<&str>, product_name: Option<&str>) -> DrmEntry {
    DrmEntry {
        card: card.to_string(),
        device_path: format!("/sys/class/drm/{}/device", card),
        vendor: vendor.map(|s| s.to_string()),
        device: dev.map(|s| s.to_string()),
        product_name: product_name.map(|s| s.to_string()),
        product: None,
        model: None,
    }
}

fn read_error(r: Result<(), SensorError>) -> String {
    match r {
        Err(SensorError::ReadError(m)) => m,
        other => panic!("expected a read error, got {:?}", other),
    }
}

// ----- vendor detection -----

#[test]
fn from_str_detects_nvidia_in_mixed_case() {
    assert_eq!(GPUVendor::from_str("NVIDIA GeForce RTX 3070"), GPUVendor::Nvidia);
}

#[test]
fn from_str_detects_amd_intel_and_other() {
    assert_eq!(GPUVendor::from_str("AMD Radeon RX 9060 XT"), GPUVendor::Amd);
    assert_eq!(GPUVendor::from_str("Intel(R) UHD Graphics 630"), GPUVendor::Intel);
    assert_eq!(GPUVendor::from_str("Matrox G200"), GPUVendor::Other);
    assert_eq!(GPUVendor::from_str(""), GPUVendor::Other);
}

#[test]
fn from_str_prefers_nvidia_over_amd_over_intel() {
    assert_eq!(GPUVendor::from_str("Intel AMD NVIDIA"), GPUVendor::Nvidia);
    assert_eq!(GPUVendor::from_str("intel amd"), GPUVendor::Amd);
}

#[test]
fn from_lowercase_does_not_lower() {
    assert_eq!(GPUVendor::from_lowercase("NVIDIA"), GPUVendor::Other);
    assert_eq!(GPUVendor::from_lowercase("nvidia"), GPUVendor::Nvidia);
}

// ----- AMD device helpers -----

#[test]
fn radv_names_navi44_and_navi48() {
    assert_eq!(radv_architecture_name("7590"), Some("GFX1200 / Navi 44 / RDNA 4"));
    assert_eq!(radv_architecture_name("7550"), Some("GFX1201 / Navi 48 / RDNA 4"));
    assert_eq!(radv_architecture_name("755f"), Some("GFX1201 / Navi 48 / RDNA 4"));
    assert_eq!(radv_architecture_name("73bf"), None);
    assert_eq!(radv_architecture_name("755F"), None);
}

#[test]
fn normalize_hex_id_strips_prefixes_and_lowers() {
    assert_eq!(normalize_hex_id("0x7590"), "7590");
    assert_eq!(normalize_hex_id("0X755A"), "755a");
    assert_eq!(normalize_hex_id("0x0x12"), "12");
    assert_eq!(normalize_hex_id("0X0x12"), "0x12");
    assert_eq!(normalize_hex_id("73BF"), "73bf");
}

#[test]
fn primary_drm_cards_only() {
    assert!(is_primary_drm_card("card0"));
    assert!(is_primary_drm_card("card12"));
    assert!(!is_primary_drm_card("card"));
    assert!(!is_primary_drm_card("card0-DP-1"));
    assert!(!is_primary_drm_card("renderD128"));
    assert!(!is_primary_drm_card("version"));
}

#[test]
fn marketing_name_is_first_nonempty_trimmed() {
    let c = vec![None, Some("  \n".to_string()), Some(" Radeon RX 9060 XT\n".to_string())];
    assert_eq!(read_marketing_name(&c), Some("Radeon RX 9060 XT".to_string()));
    let none = vec![None, Some(String::new()), None];
    assert_eq!(read_marketing_name(&none), None);
}

#[test]
fn display_name_unknown_id_uses_radeon_graphics() {
    let d = device("card0", Some("7480"), None);
    assert_eq!(d.display_name(), "AMD Radeon Graphics (RADV, card0, 1002:7480)");
}

#[test]
fn display_name_navi44_with_marketing_name() {
    let d = device("card1", Some("7590"), Some("AMD Radeon RX 9060 XT"));
    assert_eq!(
        d.display_name(),
        "AMD Radeon RX 9060 XT (RADV / GFX1200 / Navi 44 / RDNA 4, card1, 1002:7590)"
    );
}

#[test]
fn display_name_adds_amd_prefix_and_unknown_pci_id() {
    let d = device("card2", None, Some("Radeon RX 9070"));
    assert_eq!(d.display_name(), "AMD Radeon RX 9070 (RADV, card2, 1002:unknown)");
    let e = device("card3", Some("7550"), Some("amd thing"));
    assert_eq!(e.display_name(), "amd thing (RADV / GFX1201 / Navi 48 / RDNA 4, card3, 1002:7550)");
}

#[test]
fn display_name_always_says_amd() {
    for d in [
        device("card0", None, None),
        device("card1", Some("1234"), Some("Weird Board")),
        device("card2", Some("7590"), Some("aMd special")),
    ] {
        assert!(d.display_name().to_ascii_lowercase().contains("amd"));
    }
}

#[test]
fn list_amd_gpus_filters_and_sorts_by_card() {
    let entries = vec![
        entry("card1", Some("0x1002\n"), Some("0x7590\n"), Some("AMD Radeon RX 9060 XT\n")),
        entry("card0-DP-1", Some("0x1002\n"), None, None),
        entry("card0", Some("0x1002"), Some("0x7550"), None),
        entry("renderD128", Some("0x1002"), None, None),
        entry("card2", Some("0x10de\n"), Some("0x2484"), None),
        entry("card10", Some("0X1002"), None, Some("   ")),
        entry("card3", None, None, None),
    ];
    let list = list_amd_gpus(&entries);
    let cards: Vec<&str> = list.iter().map(|d| d.card.as_str()).collect();
    assert_eq!(cards, vec!["card0", "card1", "card10"]);
    assert_eq!(list[0].device_id.as_deref(), Some("7550"));
    assert_eq!(list[0].marketing_name, None);
    assert_eq!(list[1].device_id.as_deref(), Some("7590"));
    assert_eq!(list[1].marketing_name.as_deref(), Some("AMD Radeon RX 9060 XT"));
    assert_eq!(list[1].device_path, "/sys/class/drm/card1/device");
    assert_eq!(list[2].device_id, None);
    assert_eq!(list[2].marketing_name, None);
}

#[test]
fn list_amd_gpus_is_stable_for_equal_cards() {
    let mut a = entry("card5", Some("0x1002"), Some("0x1"), None);
    a.device_path = "first".to_string();
    let mut b = entry("card5", Some("0x1002"), Some("0x2"), None);
    b.device_path = "second".to_string();
    let c = entry("card4", Some("0x1002"), Some("0x3"), None);
    let list = list_amd_gpus(&vec![a, c, b]);
    let paths: Vec<&str> = list.iter().map(|d| d.device_path.as_str()).collect();
    assert_eq!(paths, vec!["/sys/class/drm/card4/device", "first", "second"]);
}

#[test]
fn amd_sensor_new_picks_device_by_index() {
    let devices = vec![device("card0", Some("7590"), None), device("card1", None, None)];
    let s = LinuxAmdGPUSensor::new(devices, 1).ok().unwrap();
    assert_eq!(s.device.card, "card1");
}

#[test]
fn amd_sensor_new_reports_missing_index() {
    match LinuxAmdGPUSensor::new(vec![], 7) {
        Err(SensorError::ReadError(m)) => assert_eq!(m, "No AMD GPU found at Linux DRM index 7"),
        _ => panic!("expected a read error"),
    }
    match LinuxAmdGPUSensor::new(vec![device("card0", None, None)], 4294967295) {
        Err(SensorError::ReadError(m)) => {
            assert_eq!(m, "No AMD GPU found at Linux DRM index 4294967295")
        }
        _ => panic!("expected a read error"),
    }
}

#[test]
fn amd_telemetry_needs_one_reading() {
    let s = LinuxAmdGPUSensor { device: device("card0", Some("7480"), None) };
    assert!(s.telemetry_status(false, false, true).is_ok());
    assert!(s.telemetry_status(true, false, false).is_ok());
    assert_eq!(
        read_error(s.telemetry_status(false, false, false)),
        "amdgpu sysfs telemetry unavailable for AMD Radeon Graphics (RADV, card0, 1002:7480)"
    );
}

#[test]
fn power_reading_from_first_amdgpu_hwmon_with_a_reading() {
    let hw = vec![
        HwmonReadings { name: Some("nvme\n".to_string()), power_average: Some(5u64), power_input: None },
        HwmonReadings { name: Some("AMDGPU\n".to_string()), power_average: None, power_input: None },
        HwmonReadings { name: Some("amdgpu".to_string()), power_average: None, power_input: Some(7u64) },
        HwmonReadings { name: Some("amdgpu".to_string()), power_average: Some(9u64), power_input: Some(1) },
    ];
    assert_eq!(pick_power_reading(&hw), Some(7));
    let hw2 = vec![
        HwmonReadings { name: Some("amdgpu".to_string()), power_average: Some(9u64), power_input: Some(1) },
    ];
    assert_eq!(pick_power_reading(&hw2), Some(9));
}

#[test]
fn power_reading_absent_is_none() {
    let hw = vec![
        HwmonReadings { name: None, power_average: Some(5u64), power_input: None },
        HwmonReadings { name: Some("k10temp".to_string()), power_average: Some(3u64), power_input: None },
    ];
    assert_eq!(pick_power_reading(&hw), None);
    let empty: Vec<HwmonReadings<u64>> = Vec::new();
    assert_eq!(pick_power_reading(&empty), None);
}

// ----- NVIDIA -----

#[test]
fn nvidia_probe_messages() {
    assert!(probe_outcome(0, Ok(120_000), Ok((5, 10))).is_ok());
    assert_eq!(
        read_error(probe_outcome(2, Err("Not supported".to_string()), Err("GPU lost".to_string()))),
        "NVML telemetry unavailable for device index 2: power='Not supported', utilization='GPU lost'"
    );
    assert_eq!(
        read_error(probe_outcome(3, Err("Not supported".to_string()), Ok((1, 2)))),
        "⚠ NVIDIA GPU 3 power telemetry unavailable at initialization: Not supported"
    );
    assert_eq!(
        read_error(probe_outcome(14, Ok(7), Err("Unknown".to_string()))),
        "⚠ NVIDIA GPU 14 utilization telemetry unavailable at initialization: Unknown"
    );
}

#[test]
fn nvidia_counters_keep_their_fields_and_the_first_error() {
    assert_eq!(counters_of(Ok(95_000), Ok((40, 12))).ok(), Some((95_000, 40, 12)));
    match counters_of(Err("Not supported".to_string()), Err("GPU lost".to_string())) {
        Err(SensorError::ReadError(m)) => assert_eq!(m, "Not supported"),
        _ => panic!("expected a read error"),
    }
    match counters_of(Ok(1), Err("GPU lost".to_string())) {
        Err(SensorError::ReadError(m)) => assert_eq!(m, "GPU lost"),
        _ => panic!("expected a read error"),
    }
}

#[test]
fn usage_map_keeps_last_sample_per_process() {
    let m = usage_map(&vec![(1, 10), (2, 20), (1, 30)]);
    assert_eq!(m.len(), 2);
    assert_eq!(m.get(&1), Some(&30));
    assert_eq!(m.get(&2), Some(&20));
}

#[test]
fn process_usage_outcome_reports_errors() {
    match process_usage_outcome(Err("Not supported".to_string())) {
        Err(SensorError::ReadError(m)) => {
            assert_eq!(m, "Failed to get process utilization stats: Not supported")
        }
        _ => panic!("expected a read error"),
    }
    let ok = process_usage_outcome(Ok(vec![(42, 7)])).ok().unwrap();
    assert_eq!(ok.get(&42), Some(&7));
}

#[test]
fn nvidia_sensor_without_driver_is_a_read_error_or_a_fresh_sensor() {
    match NvidiaGPUSensor::new(0) {
        Ok(s) => {
            assert_eq!(s.device_index, 0);
            assert_eq!(s.last_timestamp, 0);
        }
        Err(e) => assert!(matches!(e, SensorError::ReadError(_))),
    }
}

// ----- sensor dispatch and lists -----

#[test]
fn power_sensor_for_other_vendors_is_not_supported() {
    assert!(matches!(
        get_gpu_power_sensor("Intel(R) Arc A770", 0, vec![]),
        Err(SensorError::NotSupported)
    ));
    assert!(matches!(get_gpu_power_sensor("Matrox", 0, vec![]), Err(SensorError::NotSupported)));
}

#[test]
fn power_sensor_for_amd_uses_the_device_list() {
    let devices = vec![device("card0", None, None), device("card1", Some("7590"), None)];
    match get_gpu_power_sensor("AMD Radeon", 1, devices) {
        Ok(SensorType::GPU(GPUSensor::Amd(s))) => assert_eq!(s.device.card, "card1"),
        _ => panic!("expected an AMD sensor"),
    }
    match get_gpu_power_sensor("amd", 3, vec![]) {
        Err(SensorError::ReadError(m)) => assert_eq!(m, "No AMD GPU found at Linux DRM index 3"),
        _ => panic!("expected a read error"),
    }
}

#[test]
fn power_sensor_for_nvidia_is_an_nvidia_sensor_or_a_read_error() {
    match get_gpu_power_sensor("NVIDIA GeForce", 0, vec![]) {
        Ok(SensorType::GPU(GPUSensor::Nvidia(s))) => assert_eq!(s.device_index, 0),
        Ok(_) => panic!("expected an NVIDIA sensor"),
        Err(e) => assert!(matches!(e, SensorError::ReadError(_))),
    }
}

#[test]
fn amd_sensor_has_no_process_usage_and_is_not_integrated() {
    let mut s = GPUSensor::Amd(LinuxAmdGPUSensor { device: device("card0", None, None) });
    assert!(matches!(s.get_process_gpu_usage(100), Err(SensorError::NotSupported)));
    assert!(!s.is_integrated());
}

#[test]
fn gpu_names_lists_amd_first() {
    let devices = vec![device("card0", Some("7480"), None)];
    let names = gpu_names(&devices, vec!["NVIDIA GeForce RTX 3070".to_string()]);
    assert_eq!(
        names,
        vec![
            "AMD Radeon Graphics (RADV, card0, 1002:7480)".to_string(),
            "NVIDIA GeForce RTX 3070".to_string()
        ]
    );
}

#[test]
fn get_gpu_list_starts_with_amd_names() {
    let devices = vec![device("card0", Some("7590"), Some("Radeon RX 9060 XT"))];
    let list = get_gpu_list(&devices);
    assert!(!list.is_empty());
    assert_eq!(list[0], "AMD Radeon RX 9060 XT (RADV / GFX1200 / Navi 44 / RDNA 4, card0, 1002:7590)");
}

#[test]
fn gpu_list_label_joins_names() {
    assert_eq!(gpu_list_label(&vec![]), "Gpu(s): []");
    assert_eq!(gpu_list_label(&vec!["a".to_string(), "b c".to_string()]), "Gpu(s): [a, b c]");
}

#[test]
fn adapter_names_skip_basic_render_driver_and_empty() {
    assert_eq!(adapter_name("  Microsoft Basic Render Driver "), None);
    assert_eq!(adapter_name("   "), None);
    assert_eq!(adapter_name(" NVIDIA GeForce RTX 3070 "), Some("NVIDIA GeForce RTX 3070".to_string()));
}

#[test]
fn adapter_list_decodes_nul_terminated_utf16() {
    let mut a: Vec<u16> = "AMD Radeon RX 9060 XT".encode_utf16().collect();
    a.extend([0, 65, 66]);
    let mut b: Vec<u16> = "MICROSOFT BASIC RENDER DRIVER".encode_utf16().collect();
    b.push(0);
    let c: Vec<u16> = vec![0, 72];
    let mut d: Vec<u16> = vec![0xD800];
    d.extend(" Intel".encode_utf16());
    let list = get_gpu_list_from_adapters(&vec![a, b, c, d]);
    assert_eq!(list, vec!["AMD Radeon RX 9060 XT".to_string(), "\u{FFFD} Intel".to_string()]);
}

// ----- string helpers -----

#[test]
fn text_helpers() {
    assert_eq!(trim("\t a b \u{3000}\n"), "a b");
    assert_eq!(trim(" \u{85}"), "");
    assert_eq!(ascii_lowercase("ÀBc-Z"), "Àbc-z");
    assert!(contains("abcabd", "abd"));
    assert!(!contains("ab", "abc"));
    assert!(contains("x", ""));
    assert!(eq_ignore_ascii_case("0X1002", "0x1002"));
    assert!(!eq_ignore_ascii_case("0x1002", "0x10de"));
    assert_eq!(strip_all_prefixes("ababc", "ab"), "c");
    assert_eq!(strip_all_prefixes("abc", ""), "abc");
    assert_eq!(decimal_string(0), "0");
    assert_eq!(decimal_string(4294967295), "4294967295");
    assert_eq!(join(&vec!["x".to_string()], ", "), "x");
    assert!(lex_le_exec("card1", "card10"));
    assert!(!lex_le_exec("card2", "card10"));
    assert!(lex_le_exec("", ""));
}

#[test]
fn trim_agrees_with_std_on_every_white_space_char() {
    let ws = [
        '\u{9}', '\u{a}', '\u{b}', '\u{c}', '\u{d}', ' ', '\u{85}', '\u{a0}', '\u{1680}',
        '\u{2000}', '\u{2005}', '\u{200a}', '\u{2028}', '\u{2029}', '\u{202f}', '\u{205f}',
        '\u{3000}',
    ];
    for c in ws {
        let s = format!("{c}x{c}y{c}");
        assert_eq!(trim(&s), s.trim());
    }
    for s in ["\u{200b}x\u{200b}", "\u{feff}a", "a\u{180e}", "  "] {
        assert_eq!(trim(s), s.trim());
    }
}

#[test]
fn lex_order_agrees_with_str_order() {
    let words = ["", "a", "ab", "b", "card1", "card10", "card2", "Z", "\u{e9}", "\u{1F600}", "\u{ffff}"];
    for a in words {
        for b in words {
            assert_eq!(lex_le_exec(a, b), a <= b, "{a:?} {b:?}");
        }
    }
}

#[test]
fn nvidia_names_skip_failures_and_need_a_count() {
    let outcomes = vec![
        Some("NVIDIA GeForce RTX 3070".to_string()),
        None,
        Some("NVIDIA A100".to_string()),
    ];
    assert_eq!(
        nvidia_names_of(true, &outcomes),
        vec!["NVIDIA GeForce RTX 3070".to_string(), "NVIDIA A100".to_string()]
    );
    assert_eq!(nvidia_names_of(false, &outcomes), Vec::<String>::new());
    assert_eq!(nvidia_names_of(true, &vec![]), Vec::<String>::new());
}

#[test]
fn sampling_step_keeps_timestamp_on_lookup_failure_only() {
    let (t, r) = sampling_step(10, 20, Err("GPU lost".to_string()));
    assert_eq!(t, 10);
    assert!(matches!(r, Err(SensorError::ReadError(ref m)) if m == "GPU lost"));
    let (t, r) = sampling_step(10, 20, Ok(Err("Not supported".to_string())));
    assert_eq!(t, 20);
    assert!(matches!(r, Err(SensorError::ReadError(ref m))
        if m == "Failed to get process utilization stats: Not supported"));
    let (t, r) = sampling_step(10, 20, Ok(Ok(vec![(7, 55)])));
    assert_eq!(t, 20);
    assert_eq!(r.ok().unwrap().get(&7), Some(&55));
}

#[test]
fn from_str_ignores_ascii_case_and_keeps_priority() {
    assert_eq!(GPUVendor::from_str("nViDiA"), GPUVendor::from_str("NVIDIA"));
    assert_eq!(GPUVendor::from_str("AmD rAdEoN"), GPUVendor::Amd);
    assert_eq!(GPUVendor::from_str("Intel Arc + NVIDIA"), GPUVendor::Nvidia);
}

#[test]
fn listed_amd_name_selects_amd() {
    let d = device("card0", Some("7590"), Some("Radeon RX 9060 XT"));
    assert_eq!(GPUVendor::from_str(&d.display_name()), GPUVendor::Amd);
}

#[test]
fn utf16_decoding_agrees_with_std() {
    let cases: Vec<Vec<u16>> = vec![
        vec![],
        "GPU \u{1F600} é".encode_utf16().collect(),
        vec![0xD800],
        vec![0xDC00, 0x41],
        vec![0xD800, 0x41, 0xDBFF, 0xDFFF],
        vec![0xD83D, 0xD83D, 0xDE00],
        vec![0xFFFF, 0x0, 0xE000],
    ];
    for c in cases {
        assert_eq!(from_utf16_lossy(&c), String::from_utf16_lossy(&c), "{c:?}");
    }
}

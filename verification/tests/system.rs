use std::collections::VecDeque;
use watt::power_supply;
use watt::power_supply::{is_discharging, PowerSupply};
use watt::system::{append_log, core_number_from_label, is_cpu_hwmon, is_cpu_thermal_zone, is_desktop, is_thermal_zone};
use watt::text::{parse_u32, parse_u64, split_words};

#[test]
fn desktop_detection() {
    assert!(is_desktop(Some(" 3\n"), true));
    assert!(!is_desktop(Some("10"), false));
    assert!(!is_desktop(Some("1"), true));
    assert!(is_desktop(Some("1"), false));
    assert!(is_desktop(None, false));
    assert!(!is_desktop(None, true));
}

#[test]
fn hwmon_names() {
    assert!(is_cpu_hwmon("k10temp"));
    assert!(is_cpu_hwmon("amdgpu"));
    assert!(is_cpu_hwmon("acpitz-cpu"));
    assert!(!is_cpu_hwmon("nvme"));
    assert!(is_thermal_zone("thermal_zone3"));
    assert!(!is_thermal_zone("cooling_device0"));
    assert!(is_cpu_thermal_zone("x86_pkg_temp"));
    assert!(!is_cpu_thermal_zone("acpitz"));
}

#[test]
fn core_labels() {
    assert_eq!(core_number_from_label("Core 3"), Some(3));
    assert_eq!(core_number_from_label("  core 12\n"), Some(12));
    assert_eq!(core_number_from_label("CPU Core 5"), Some(5));
    assert_eq!(core_number_from_label("Tctl"), None);
    assert_eq!(core_number_from_label("Package id 0"), None);
    assert_eq!(core_number_from_label("Core-7"), Some(7));
    assert_eq!(core_number_from_label("Tccd1"), Some(1));
    assert_eq!(core_number_from_label("1 - 4"), None);
}

#[test]
fn discharging() {
    let on_battery = vec![
        PowerSupply { name: "AC".to_string(), charge_state: None },
        PowerSupply { name: "BAT0".to_string(), charge_state: Some("Discharging".to_string()) },
    ];
    assert!(is_discharging(&on_battery));
    let charging = vec![PowerSupply { name: "BAT0".to_string(), charge_state: Some("Charging".to_string()) }];
    assert!(!is_discharging(&charging));
    assert!(!is_discharging(&[]));
}

#[test]
fn words_and_numbers() {
    assert_eq!(split_words(" a  b\u{3000}c ", false), vec!["a", "b", "c"]);
    assert_eq!(split_words(" a  b\u{3000}c ", true), vec!["a", "b\u{3000}c"]);
    assert!(split_words("   ", true).is_empty());
    assert_eq!(parse_u64("+42"), Some(42));
    assert_eq!(parse_u64("+"), None);
    assert_eq!(parse_u64(""), None);
    assert_eq!(parse_u64("007"), Some(7));
    assert_eq!(parse_u32("4294967296"), None);
    assert_eq!(parse_u32("4294967295"), Some(u32::MAX));
}

#[test]
fn threshold_deltas_merge() {
    let high: power_supply::Delta<f64> = power_supply::Delta { charge_threshold_start: Some(0.4), charge_threshold_end: None };
    let low: power_supply::Delta<f64> = power_supply::Delta { charge_threshold_start: Some(0.2), charge_threshold_end: Some(0.9) };
    let merged = high.or(&low);
    assert_eq!(merged.charge_threshold_start, Some(0.4));
    assert_eq!(merged.charge_threshold_end, Some(0.9));
    assert!(merged.is_some());
    assert!(!high.is_some());
    let none: power_supply::Delta<f64> = power_supply::Delta::empty();
    assert_eq!(none.or(&high).charge_threshold_start, Some(0.4));
    assert_eq!(merged.or(&power_supply::Delta { charge_threshold_start: Some(0.0), charge_threshold_end: Some(0.0) }).charge_threshold_end, Some(0.9));
}

#[test]
fn logs_keep_their_newest_entries() {
    let mut log: VecDeque<u32> = (0..5).collect();
    append_log(&mut log, 5, 3);
    assert_eq!(log, VecDeque::from(vec![2, 3, 4, 5]));
    append_log(&mut log, 6, 10);
    assert_eq!(log, VecDeque::from(vec![2, 3, 4, 5, 6]));
    let mut empty: VecDeque<u32> = VecDeque::new();
    append_log(&mut empty, 1, 0);
    assert_eq!(empty, VecDeque::from(vec![1]));
    append_log(&mut empty, 2, 0);
    assert_eq!(empty, VecDeque::from(vec![2]));
}

#[test]
fn thermal_zones_are_a_keyed_fallback() {
    assert_eq!(watt::system::thermal_zone_keys(0, 3), vec![777, 778, 779]);
    assert!(watt::system::thermal_zone_keys(2, 3).is_empty());
    assert!(watt::system::thermal_zone_keys(0, 0).is_empty());
}

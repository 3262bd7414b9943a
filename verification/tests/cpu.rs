use watt::cpu::{Cpu, CpuError, CpuStat, Delta, SysfsTarget, SysfsValue, SysfsWrite};
use watt::cpu_info::CpuInfo;

fn cpu(number: u32) -> Cpu {
    Cpu {
        number,
        has_cpufreq: true,
        available_governors: vec!["performance".to_string(), "powersave".to_string()],
        governor: Some("powersave".to_string()),
        frequency_mhz: Some(2000),
        frequency_mhz_minimum: Some(400),
        frequency_mhz_maximum: Some(4000),
        available_epps: vec!["power".to_string(), "performance".to_string()],
        epp: None,
        available_epbs: vec!["0".to_string(), "power".to_string()],
        epb: None,
        info: None,
    }
}

#[test]
fn from_line_reads_eight_times() {
    let stat = CpuStat::from_line("  10 20 30 40 50 60 70 80 90 100").unwrap();
    assert_eq!(stat.user, 10);
    assert_eq!(stat.nice, 20);
    assert_eq!(stat.system, 30);
    assert_eq!(stat.idle, 40);
    assert_eq!(stat.iowait, 50);
    assert_eq!(stat.irq, 60);
    assert_eq!(stat.softirq, 70);
    assert_eq!(stat.steal, 80);
}

#[test]
fn from_line_accepts_plus_and_tabs() {
    let stat = CpuStat::from_line("+1\t2 3 4 5 6 7 +8\r\n").unwrap();
    assert_eq!(stat.user, 1);
    assert_eq!(stat.steal, 8);
}

#[test]
fn from_line_refuses_short_or_bad_lines() {
    assert!(CpuStat::from_line("1 2 3 4 5 6 7").is_none());
    assert!(CpuStat::from_line("1 2 3 x 5 6 7 8").is_none());
    assert!(CpuStat::from_line("1 2 3 -4 5 6 7 8").is_none());
    assert!(CpuStat::from_line("1 2 3 + 5 6 7 8").is_none());
    assert!(CpuStat::from_line("18446744073709551616 2 3 4 5 6 7 8").is_none());
    assert_eq!(CpuStat::from_line("18446744073709551615 2 3 4 5 6 7 8").unwrap().user, u64::MAX);
}

#[test]
fn times_saturate() {
    let stat = CpuStat::from_line("18446744073709551615 1 0 7 3 0 0 0").unwrap();
    assert_eq!(stat.working_time(), u64::MAX);
    assert_eq!(stat.idle_time(), 10);
}

#[test]
fn usage_ticks_between_readings() {
    let old = CpuStat::from_line("100 0 0 100 0 0 0 0").unwrap();
    let new = CpuStat::from_line("130 0 10 160 0 0 0 0").unwrap();
    assert_eq!(new.usage_ticks(&old), (40, 100));
    // no time passed: the total period is at least one tick
    assert_eq!(new.usage_ticks(&new), (0, 1));
    // counters that went back: the usage is no longer at most one
    let earlier = CpuStat::from_line("0 0 0 100 0 0 0 0").unwrap();
    let later = CpuStat::from_line("10 0 0 0 0 0 0 0").unwrap();
    assert_eq!(later.usage_ticks(&earlier), (10, 1));
}

#[test]
fn proc_stat_first_cpu_line() {
    let content = "intr 5\ncpu  1 2 3 4 5 6 7 8 9 10\ncpu0 9 9 9 9 9 9 9 9\n";
    let stat = CpuStat::from_proc_stat(content).unwrap();
    assert_eq!(stat.user, 1);
    assert_eq!(stat.steal, 8);
    assert_eq!(CpuStat::from_proc_stat("cpu0 1 2 3 4 5 6 7 8\n"), Err(watt::system::StatError::NoCpuLine));
    assert_eq!(CpuStat::from_proc_stat("cpu 1 2\ncpu 1 2 3 4 5 6 7 8"), Err(watt::system::StatError::Unparsable));
}

#[test]
fn set_governor_checks_availability() {
    let mut c = cpu(3);
    let w = c.set_governor("performance").unwrap();
    assert_eq!(w, SysfsWrite { target: SysfsTarget::ScalingGovernor(3), value: SysfsValue::Text("performance".to_string()) });
    // nothing is noted until the write has succeeded
    assert_eq!(c.governor.as_deref(), Some("powersave"));
    c.record(&w);
    assert_eq!(c.governor.as_deref(), Some("performance"));
    match c.set_governor("ondemand") {
        Err(CpuError::GovernorUnavailable { cpu, governor, available }) => {
            assert_eq!(cpu, 3);
            assert_eq!(governor, "ondemand");
            assert_eq!(available, vec!["performance".to_string(), "powersave".to_string()]);
        },
        other => panic!("unexpected {other:?}"),
    }
    assert_eq!(c.governor.as_deref(), Some("performance"));
}

#[test]
fn set_epp_and_epb() {
    let mut c = cpu(1);
    let epp = c.set_epp("power").unwrap();
    assert_eq!(
        epp,
        SysfsWrite { target: SysfsTarget::EnergyPerformancePreference(1), value: SysfsValue::Text("power".to_string()) }
    );
    assert_eq!(c.epp, None);
    c.record(&epp);
    assert_eq!(c.epp.as_deref(), Some("power"));
    assert!(matches!(c.set_epp("balance"), Err(CpuError::EppUnavailable { cpu: 1, .. })));
    let epb = c.set_epb("0").unwrap();
    assert_eq!(epb, SysfsWrite { target: SysfsTarget::EnergyPerfBias(1), value: SysfsValue::Text("0".to_string()) });
    assert!(matches!(c.set_epb("16"), Err(CpuError::EpbUnavailable { cpu: 1, .. })));
    assert_eq!(c.epb, None);
    c.record(&epb);
    assert_eq!(c.epb.as_deref(), Some("0"));
    // a write to another CPU, or of a frequency, is not noted here
    let mut other = cpu(2);
    other.record(&epb);
    assert_eq!(other.epb, None);
    other.record(&SysfsWrite { target: SysfsTarget::ScalingMaximumFrequency(2), value: SysfsValue::Kilohertz(1000) });
    assert_eq!(other.frequency_mhz_maximum, Some(4000));
}

#[test]
fn frequency_limits() {
    let c = cpu(2);
    assert_eq!(
        c.set_frequency_mhz_minimum(800, Some(400_000)).unwrap(),
        SysfsWrite { target: SysfsTarget::ScalingMinimumFrequency(2), value: SysfsValue::Kilohertz(800_000) }
    );
    assert_eq!(
        c.set_frequency_mhz_minimum(300, Some(400_000)),
        Err(CpuError::FrequencyBelowHardwareMinimum { cpu: 2, frequency_mhz: 300, hardware_minimum_mhz: 400 })
    );
    assert!(c.set_frequency_mhz_minimum(1, None).is_ok());
    assert_eq!(
        c.set_frequency_mhz_maximum(4000, Some(3_500_999)),
        Err(CpuError::FrequencyAboveHardwareMaximum { cpu: 2, frequency_mhz: 4000, hardware_maximum_mhz: 3500 })
    );
    assert_eq!(
        c.set_frequency_mhz_maximum(3500, Some(3_500_000)).unwrap(),
        SysfsWrite { target: SysfsTarget::ScalingMaximumFrequency(2), value: SysfsValue::Kilohertz(3_500_000) }
    );
    assert!(c.validate_frequency_mhz_minimum(400, Some(400_000)).is_ok());
    assert!(c.validate_frequency_mhz_maximum(3501, Some(3_500_000)).is_err());
}

#[test]
fn hardware_frequencies_in_mhz() {
    assert_eq!(Cpu::hardware_frequency_mhz_maximum(Some(4_200_999)), Some(4200));
    assert_eq!(Cpu::hardware_frequency_mhz_minimum(Some(399_999)), Some(399));
    assert_eq!(Cpu::hardware_frequency_mhz_minimum(None), None);
}

#[test]
fn turbo_status() {
    assert_eq!(Cpu::turbo(Some(0), Some(0)), Some(true));
    assert_eq!(Cpu::turbo(Some(1), Some(1)), Some(false));
    assert_eq!(Cpu::turbo(None, Some(1)), Some(true));
    assert_eq!(Cpu::turbo(None, Some(0)), Some(false));
    assert_eq!(Cpu::turbo(None, None), None);
}

#[test]
fn turbo_writes_in_order() {
    let cpus = vec![cpu(0), cpu(5)];
    let writes = Cpu::set_turbo(true, &cpus);
    assert_eq!(writes.len(), 6);
    assert_eq!(writes[0], SysfsWrite { target: SysfsTarget::IntelNoTurbo, value: SysfsValue::Flag(false) });
    assert_eq!(writes[1], SysfsWrite { target: SysfsTarget::AmdPstateBoost, value: SysfsValue::Flag(true) });
    assert_eq!(writes[2], SysfsWrite { target: SysfsTarget::AmdPstateEnableBoost, value: SysfsValue::Flag(true) });
    assert_eq!(writes[3], SysfsWrite { target: SysfsTarget::CpufreqBoost, value: SysfsValue::Flag(true) });
    assert_eq!(writes[5], SysfsWrite { target: SysfsTarget::CpuCpufreqBoost(5), value: SysfsValue::Flag(true) });
    let off = Cpu::set_turbo(false, &[]);
    assert_eq!(off.len(), 4);
    assert_eq!(off[0].value, SysfsValue::Flag(true));
}

#[test]
fn scanning_records_readings() {
    let mut c = Cpu { number: 4, ..Cpu::default() };
    c.scan_governor(Some("schedutil".to_string()), Some("performance  schedutil\u{a0}powersave\n"));
    assert_eq!(c.available_governors, vec!["performance", "schedutil", "powersave"]);
    c.scan_frequency(Some(2_345_678), Some(400_000), None);
    assert_eq!((c.frequency_mhz, c.frequency_mhz_minimum, c.frequency_mhz_maximum), (Some(2345), Some(400), None));
    c.scan_epp(Some("balance_power".to_string()), None);
    assert!(c.available_epps.is_empty());
    c.scan_epb(Some("6".to_string()));
    assert_eq!(c.available_epbs.len(), 21);
    assert_eq!(c.available_epbs[20], "power");
    let mut d = Cpu::default();
    d.scan_governor(None, Some("performance"));
    assert!(d.available_governors.is_empty());
}

#[test]
fn cpu_entries() {
    assert_eq!(Cpu::number_from_entry_name("cpu12"), Some(12));
    assert_eq!(Cpu::number_from_entry_name("cpufreq"), None);
    assert_eq!(Cpu::number_from_entry_name("cpuidle"), None);
    assert_eq!(Cpu::number_from_entry_name("cpu"), None);
    let names = vec!["cpu1".to_string(), "online".to_string(), "cpu0".to_string()];
    assert_eq!(Cpu::numbers_from_entry_names(&names, 8), vec![1, 0]);
    assert_eq!(Cpu::numbers_from_entry_names(&vec!["online".to_string()], 3), vec![0, 1, 2]);
    assert!(!Cpu::numbers(&vec![]).is_empty());
}

#[test]
fn cpus_are_equal_by_number() {
    let mut a = cpu(7);
    let b = cpu(7);
    a.governor = None;
    assert!(a == b);
    assert!(cpu(1) != cpu(2));
}

fn delta(governor: Option<&str>, minimum: Option<u64>) -> Delta {
    Delta {
        governor: governor.map(str::to_string),
        energy_performance_preference: None,
        energy_perf_bias: None,
        frequency_mhz_minimum: minimum,
        frequency_mhz_maximum: None,
    }
}

#[test]
fn delta_or_prefers_self() {
    let high = delta(Some("performance"), None);
    let low = delta(Some("powersave"), Some(800));
    let merged = high.clone().or(&low);
    assert_eq!(merged.governor.as_deref(), Some("performance"));
    assert_eq!(merged.frequency_mhz_minimum, Some(800));
    assert!(!merged.is_some());
    let full = Delta {
        governor: Some("a".to_string()),
        energy_performance_preference: Some("b".to_string()),
        energy_perf_bias: Some("c".to_string()),
        frequency_mhz_minimum: Some(1),
        frequency_mhz_maximum: Some(2),
    };
    assert!(full.is_some());
    assert_eq!(full.clone().or(&low), full);
    assert!(!Delta::empty().is_some());
}

#[test]
fn delta_or_laws_on_values() {
    let a = delta(Some("performance"), None);
    let b = delta(None, Some(800));
    let c = delta(Some("powersave"), Some(1200));
    assert_eq!(a.clone().or(&b).or(&c), a.clone().or(&b.clone().or(&c)));
    assert_eq!(a.clone().or(&Delta::empty()), a);
    assert_eq!(Delta::empty().or(&a), a);
}

#[test]
fn apply_stops_at_first_refusal() {
    let c = cpu(6);
    let d = Delta {
        governor: Some("performance".to_string()),
        energy_performance_preference: Some("nonexistent".to_string()),
        energy_perf_bias: Some("power".to_string()),
        frequency_mhz_minimum: None,
        frequency_mhz_maximum: Some(3000),
    };
    let application = d.apply(&c, None, None);
    assert_eq!(application.writes, vec![SysfsWrite { target: SysfsTarget::ScalingGovernor(6), value: SysfsValue::Text("performance".to_string()) }]);
    assert!(matches!(application.error, Some(CpuError::EppUnavailable { cpu: 6, .. })));
    assert_eq!(c.governor.as_deref(), Some("powersave"));
    assert_eq!(c.epp, None);
}

#[test]
fn apply_writes_every_setting() {
    let mut c = cpu(0);
    let d = Delta {
        governor: None,
        energy_performance_preference: Some("performance".to_string()),
        energy_perf_bias: Some("power".to_string()),
        frequency_mhz_minimum: Some(800),
        frequency_mhz_maximum: Some(3000),
    };
    let application = d.apply(&c, Some(400_000), Some(4_000_000));
    assert!(application.error.is_none());
    assert_eq!(application.writes.len(), 4);
    assert_eq!(application.writes[2], SysfsWrite { target: SysfsTarget::ScalingMinimumFrequency(0), value: SysfsValue::Kilohertz(800_000) });
    assert_eq!(application.writes[3], SysfsWrite { target: SysfsTarget::ScalingMaximumFrequency(0), value: SysfsValue::Kilohertz(3_000_000) });
    assert_eq!(c.epp, None);
    for w in &application.writes {
        c.record(w);
    }
    assert_eq!(c.epp.as_deref(), Some("performance"));
    assert_eq!(c.epb.as_deref(), Some("power"));
    let too_high = Delta { frequency_mhz_maximum: Some(5000), ..Delta::default() };
    let refused = too_high.apply(&c, Some(400_000), Some(4_000_000));
    assert!(refused.writes.is_empty());
    assert_eq!(refused.error, Some(CpuError::FrequencyAboveHardwareMaximum { cpu: 0, frequency_mhz: 5000, hardware_maximum_mhz: 4000 }));
}

fn pairs(items: &[(&str, &str)]) -> Vec<(String, String)> {
    items.iter().map(|(k, v)| (k.to_string(), v.to_string())).collect()
}

#[test]
fn cpuinfo_blocks() {
    let content = "processor\t: 0\nvendor_id\t: GenuineIntel\nmodel name\t: Intel(R) Core(TM) i7\n\nprocessor\t: 1\nvendor_id\t: GenuineIntel\ncpu MHz\t\t: 800.000\n";
    let table = CpuInfo::parse(content);
    assert_eq!(
        table.entries,
        vec![
            (0, pairs(&[("vendor_id", "GenuineIntel"), ("model name", "Intel(R) Core(TM) i7")])),
            (1, pairs(&[("vendor_id", "GenuineIntel"), ("cpu MHz", "800.000")])),
        ]
    );
}

#[test]
fn cpuinfo_carry_over_and_replacement() {
    let content = "flags : a\nprocessor : 0\nmodel : X\nmodel : Y\nprocessor : x\nfoo : 1\nprocessor : 1\nbar : 2\nno colon here\nprocessor : 0\nbaz : 3: 4\r\n";
    let table = CpuInfo::parse(content);
    assert_eq!(
        table.entries,
        vec![
            (0, pairs(&[("baz", "3: 4")])),
            (1, pairs(&[("foo", "1"), ("bar", "2")])),
        ]
    );
    assert_eq!(
        CpuInfo::parse("flags : a\nprocessor : 0\nmodel : X\nmodel : Y").entries,
        vec![(0, pairs(&[("flags", "a"), ("model", "Y")]))]
    );
    assert!(CpuInfo::parse("").entries.is_empty());
    assert!(CpuInfo::parse("model : X\n").entries.is_empty());
}

#[test]
fn cpu_scan_info() {
    let table = CpuInfo::parse("processor : 3\nmodel : X\n");
    let mut cpu = Cpu { number: 3, ..Cpu::default() };
    cpu.scan_info(&table);
    assert_eq!(cpu.info, Some(pairs(&[("model", "X")])));
    let mut other = Cpu { number: 4, ..Cpu::default() };
    other.scan_info(&table);
    assert_eq!(other.info, None);
}

#[test]
fn turbo_reads_back_as_set() {
    for on in [true, false] {
        let writes = Cpu::set_turbo(on, &[]);
        // the first write is Intel's negated no_turbo flag
        let SysfsValue::Flag(no_turbo) = writes[0].value else { panic!() };
        assert_eq!(Cpu::turbo(Some(no_turbo as u64), Some(7)), Some(on));
        // the generic boost flag, read where no_turbo is absent
        let SysfsValue::Flag(boost) = writes[3].value else { panic!() };
        assert_eq!(Cpu::turbo(None, Some(boost as u64)), Some(on));
    }
}

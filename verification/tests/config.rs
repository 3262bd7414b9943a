use std::cmp::Ordering;

use watt::config::{ConfigError, CpusDelta, DaemonConfig, Field, PowersDelta, Rule};
use watt::cpu::Cpu;
use watt::expression::{EvalContext, EvalError, EvalState, Expression, NumberAnswer, NumberQuery};
use watt::power_supply::PowerSupply;

fn numbers(q: NumberQuery<f64>) -> NumberAnswer<f64> {
    match q {
        NumberQuery::Plus(a, b) => NumberAnswer::Number(a + b),
        NumberQuery::Minus(a, b) => NumberAnswer::Number(a - b),
        NumberQuery::Multiply(a, b) => NumberAnswer::Number(a * b),
        NumberQuery::Divide(a, b) => NumberAnswer::Number(a / b),
        NumberQuery::Power(a, b) => NumberAnswer::Number(a.powf(b)),
        NumberQuery::LessThan(a, b) => NumberAnswer::Truth(a < b),
        NumberQuery::MoreThan(a, b) => NumberAnswer::Truth(a > b),
        NumberQuery::TotalGreater(a, b) => NumberAnswer::Truth(a.total_cmp(&b) == Ordering::Greater),
        NumberQuery::Hundredth(a) => NumberAnswer::Number(a / 100.0),
        NumberQuery::RoundedMegahertz(a) => {
            NumberAnswer::Megahertz(if a.fract() != 0.0 { a.round() as u64 } else { a as u64 })
        },
        NumberQuery::CpuNumber(a) => NumberAnswer::CpuNumber(if a.fract() != 0.0 { None } else { Some(a as u32) }),
    }
}

fn test_cpu(number: u32, frequency: u64) -> Cpu {
    Cpu {
        number,
        has_cpufreq: true,
        available_governors: vec![],
        governor: None,
        frequency_mhz: Some(frequency),
        frequency_mhz_minimum: Some(1000),
        frequency_mhz_maximum: Some(frequency),
        available_epps: vec![],
        epp: None,
        available_epbs: vec![],
        epb: None,
        info: None,
    }
}

fn state<'a>(cpus: &'a [Cpu], supplies: &'a [PowerSupply], context: EvalContext<'a>) -> EvalState<'a, 'a, f64> {
    EvalState {
        frequency_available: true,
        turbo_available: false,
        cpu_usage: 0.5,
        cpu_usage_volatility: Some(0.1),
        cpu_temperature: Some(50.0),
        cpu_temperature_volatility: Some(5.0),
        cpu_idle_seconds: 10.0,
        cpu_frequency_maximum: Some(3333.0),
        cpu_frequency_minimum: Some(1000.0),
        power_supply_charge: Some(0.8),
        power_supply_discharge_rate: Some(10.0),
        discharging: false,
        context,
        cpus,
        power_supplies: supplies,
        platform_profiles: None,
        drivers: &[],
    }
}

fn num(n: f64) -> Box<Expression<f64>> {
    Box::new(Expression::Number(n))
}

fn empty_cpus_delta() -> CpusDelta<f64> {
    CpusDelta {
        for_: None,
        governor: None,
        energy_performance_preference: None,
        energy_perf_bias: None,
        frequency_mhz_minimum: None,
        frequency_mhz_maximum: None,
        turbo: None,
    }
}

// 3333 MHz * 0.65 = 2166.45, which rounds to 2166.
#[test]
fn test_rounding() {
    let cpu = test_cpu(0, 3333);
    let cpus = vec![cpu];
    let power_supplies: Vec<PowerSupply> = vec![];
    let state = state(&cpus, &power_supplies, EvalContext::Cpu(&cpus[0]));

    let cpu_delta = CpusDelta {
        for_: None,
        governor: None,
        energy_performance_preference: None,
        energy_perf_bias: None,
        frequency_mhz_minimum: None,
        frequency_mhz_maximum: Some(Expression::Multiply {
            a: Box::new(Expression::CpuFrequencyMaximum),
            b: Box::new(Expression::Number(0.65)),
        }),
        turbo: None,
    };

    let result = cpu_delta.eval(&state, &numbers);

    assert!(result.is_ok(), "Should handle float results from multiplication");

    if let Ok((deltas, _)) = result {
        let delta = &deltas.iter().find(|(number, _)| *number == 0).unwrap().1;
        assert!(delta.frequency_mhz_maximum.is_some());
        let freq = delta.frequency_mhz_maximum.unwrap();
        assert_eq!(freq, 2166); // should be rounded to 2166
    }
}

#[test]
fn arithmetic_and_comparisons() {
    let cpus = vec![test_cpu(0, 2000)];
    let st = state(&cpus, &[], EvalContext::WidestPossible);
    let e = Expression::Minus { a: Box::new(Expression::CpuTemperature), b: num(20.0) };
    assert!(matches!(e.eval(&st, &numbers), Ok(Some(Expression::Number(n))) if n == 30.0));
    let e = Expression::MoreThan { a: Box::new(Expression::CpuUsage), b: num(0.4) };
    assert!(matches!(e.eval(&st, &numbers), Ok(Some(Expression::Boolean(true)))));
    let e = Expression::Power { a: num(2.0), b: num(10.0) };
    assert!(matches!(e.eval(&st, &numbers), Ok(Some(Expression::Number(n))) if n == 1024.0));
    let e = Expression::Divide { a: num(1.0), b: num(4.0) };
    assert!(matches!(e.eval(&st, &numbers), Ok(Some(Expression::Number(n))) if n == 0.25));
    let e = Expression::Equal { a: num(1.0), b: num(1.05), leeway: num(0.1) };
    assert!(matches!(e.eval(&st, &numbers), Ok(Some(Expression::Boolean(true)))));
    let e = Expression::Equal { a: num(1.0), b: num(1.1), leeway: num(0.1) };
    assert!(matches!(e.eval(&st, &numbers), Ok(Some(Expression::Boolean(false)))));
    let e = Expression::Plus { a: Box::new(Expression::Boolean(true)), b: num(1.0) };
    assert_eq!(e.eval(&st, &numbers).unwrap_err(), EvalError::NotANumber);
}

#[test]
fn undefined_readings_propagate() {
    let cpus = vec![test_cpu(0, 2000)];
    let mut st = state(&cpus, &[], EvalContext::WidestPossible);
    st.cpu_temperature = None;
    let e = Expression::Plus { a: Box::new(Expression::CpuTemperature), b: Box::new(Expression::String("x".to_string())) };
    assert!(matches!(e.eval(&st, &numbers), Ok(None)));
    let unset = Expression::IsUnset { a: Box::new(Expression::CpuTemperature) };
    assert!(matches!(unset.eval(&st, &numbers), Ok(Some(Expression::Boolean(true)))));
    let e = Expression::IfElse { condition: Box::new(Expression::Boolean(false)), consequence: num(1.0), alternative: None };
    assert!(matches!(e.eval(&st, &numbers), Ok(None)));
    let e = Expression::IfElse { condition: Box::new(Expression::Boolean(false)), consequence: num(1.0), alternative: Some(num(2.0)) };
    assert!(matches!(e.eval(&st, &numbers), Ok(Some(Expression::Number(n))) if n == 2.0));
}

#[test]
fn logic_short_circuits() {
    let cpus = vec![test_cpu(0, 2000)];
    let st = state(&cpus, &[], EvalContext::WidestPossible);
    let bad = || Box::new(Expression::Number(1.0));
    let e = Expression::And { a: Box::new(Expression::Boolean(false)), b: bad() };
    assert!(matches!(e.eval(&st, &numbers), Ok(Some(Expression::Boolean(false)))));
    let e = Expression::Or { a: Box::new(Expression::Boolean(true)), b: bad() };
    assert!(matches!(e.eval(&st, &numbers), Ok(Some(Expression::Boolean(true)))));
    let e = Expression::And { a: Box::new(Expression::Boolean(true)), b: bad() };
    assert_eq!(e.eval(&st, &numbers).unwrap_err(), EvalError::NotABoolean);
    let e = Expression::All { all: vec![Expression::Boolean(true), Expression::Boolean(false), Expression::Number(3.0)] };
    assert!(matches!(e.eval(&st, &numbers), Ok(Some(Expression::Boolean(false)))));
    let e = Expression::Any { any: vec![Expression::Boolean(false), Expression::Discharging] };
    assert!(matches!(e.eval(&st, &numbers), Ok(Some(Expression::Boolean(false)))));
    let e: Expression<f64> = Expression::All { all: vec![] };
    assert!(matches!(e.eval(&st, &numbers), Ok(Some(Expression::Boolean(true)))));
    let e = Expression::Not { not: Box::new(Expression::FrequencyAvailable) };
    assert!(matches!(e.eval(&st, &numbers), Ok(Some(Expression::Boolean(false)))));
}

#[test]
fn minimum_and_maximum() {
    let cpus = vec![test_cpu(0, 2000)];
    let st = state(&cpus, &[], EvalContext::WidestPossible);
    let e = Expression::Minimum { numbers: vec![Expression::Number(3.0), Expression::CpuUsage, Expression::Number(7.0)] };
    assert!(matches!(e.eval(&st, &numbers), Ok(Some(Expression::Number(n))) if n == 0.5));
    let e = Expression::Maximum { numbers: vec![Expression::Number(3.0), Expression::CpuUsage, Expression::Number(7.0)] };
    assert!(matches!(e.eval(&st, &numbers), Ok(Some(Expression::Number(n))) if n == 7.0));
    let e: Expression<f64> = Expression::Minimum { numbers: vec![] };
    assert_eq!(e.eval(&st, &numbers).unwrap_err(), EvalError::EmptyMinimum);
    let e: Expression<f64> = Expression::Maximum { numbers: vec![] };
    assert_eq!(e.eval(&st, &numbers).unwrap_err(), EvalError::EmptyMaximum);
    let e = Expression::Maximum { numbers: vec![Expression::Number(1.0), Expression::Boolean(true)] };
    assert_eq!(e.eval(&st, &numbers).unwrap_err(), EvalError::NotANumber);
}

#[test]
fn availability_predicates() {
    let mut a = test_cpu(0, 2000);
    a.available_governors = vec!["powersave".to_string()];
    let b = test_cpu(1, 2000);
    let cpus = vec![a, b];
    let name = || Box::new(Expression::String("powersave".to_string()));
    let wide = state(&cpus, &[], EvalContext::WidestPossible);
    let e = Expression::IsGovernorAvailable { value: name() };
    assert!(matches!(e.eval(&wide, &numbers), Ok(Some(Expression::Boolean(true)))));
    let on_b = state(&cpus, &[], EvalContext::Cpu(&cpus[1]));
    assert!(matches!(e.eval(&on_b, &numbers), Ok(Some(Expression::Boolean(false)))));
    let e = Expression::IsGovernorAvailable { value: num(1.0) };
    assert_eq!(e.eval(&wide, &numbers).unwrap_err(), EvalError::NotAString);
    let e = Expression::IsPlatformProfileAvailable { value: Box::new(Expression::String("low-power".to_string())) };
    assert_eq!(e.eval(&wide, &numbers).unwrap_err(), EvalError::NeedsPlatformProfiles);
    let profiles = vec!["low-power".to_string(), "balanced".to_string()];
    let mut with_profiles = state(&cpus, &[], EvalContext::WidestPossible);
    with_profiles.platform_profiles = Some(&profiles);
    assert!(matches!(e.eval(&with_profiles, &numbers), Ok(Some(Expression::Boolean(true)))));
    let e = Expression::IsDriverLoaded { value: Box::new(Expression::String("intel_pstate".to_string())) };
    assert_eq!(e.eval(&wide, &numbers).unwrap_err(), EvalError::NeedsDriver("intel_pstate".to_string()));
    let drivers = vec![("intel_pstate".to_string(), true)];
    let mut with_drivers = state(&cpus, &[], EvalContext::WidestPossible);
    with_drivers.drivers = &drivers;
    assert!(matches!(e.eval(&with_drivers, &numbers), Ok(Some(Expression::Boolean(true)))));
}

#[test]
fn lists_evaluate_items() {
    let cpus = vec![test_cpu(0, 2000)];
    let st = state(&cpus, &[], EvalContext::WidestPossible);
    let e = Expression::List(vec![Expression::Plus { a: num(1.0), b: num(1.0) }, Expression::String("a".to_string())]);
    match e.eval(&st, &numbers) {
        Ok(Some(Expression::List(items))) => {
            assert_eq!(items.len(), 2);
            assert!(matches!(items[0], Expression::Number(n) if n == 2.0));
            assert!(matches!(&items[1], Expression::String(s) if s == "a"));
        },
        other => panic!("unexpected {other:?}"),
    }
    let list = e.eval(&st, &numbers).unwrap().unwrap();
    assert_eq!(list.try_into_list().unwrap().len(), 2);
    assert_eq!(Expression::<f64>::Boolean(true).try_into_number().unwrap_err(), EvalError::NotANumber);
    assert_eq!(Expression::<f64>::Number(1.0).try_into_boolean().unwrap_err(), EvalError::NotABoolean);
    assert_eq!(Expression::<f64>::String("x".to_string()).try_into_string().unwrap(), "x");
}

#[test]
fn cpu_for_selects_cpus() {
    let cpus = vec![test_cpu(0, 2000), test_cpu(1, 2000), test_cpu(2, 2000)];
    let st = state(&cpus, &[], EvalContext::WidestPossible);
    let mut delta = empty_cpus_delta();
    delta.for_ = Some(Expression::List(vec![Expression::Number(2.0), Expression::Number(0.0)]));
    delta.governor = Some(Expression::String("powersave".to_string()));
    delta.turbo = Some(Expression::Boolean(true));
    let (deltas, turbo) = delta.eval(&st, &numbers).unwrap();
    assert_eq!(deltas.iter().map(|(n, _)| *n).collect::<Vec<_>>(), vec![0, 2]);
    assert_eq!(deltas[0].1.governor.as_deref(), Some("powersave"));
    assert_eq!(turbo, Some(true));
    delta.for_ = Some(Expression::List(vec![Expression::Number(1.5)]));
    assert_eq!(delta.eval(&st, &numbers).unwrap_err(), ConfigError::InvalidCpuNumber);
    delta.for_ = Some(Expression::Number(1.0));
    assert_eq!(delta.eval(&st, &numbers).unwrap_err(), ConfigError::WrongType(Field::CpuFor));
    delta.for_ = Some(Expression::List(vec![Expression::Boolean(true)]));
    assert_eq!(delta.eval(&st, &numbers).unwrap_err(), ConfigError::WrongItemType(Field::CpuFor));
    delta.for_ = Some(Expression::CpuTemperatureVolatility);
    let mut no_volatility = state(&cpus, &[], EvalContext::WidestPossible);
    no_volatility.cpu_temperature_volatility = None;
    assert_eq!(delta.eval(&no_volatility, &numbers).unwrap_err(), ConfigError::Undefined(Field::CpuFor));
    delta.for_ = None;
    delta.governor = Some(Expression::Number(3.0));
    assert_eq!(delta.eval(&st, &numbers).unwrap_err(), ConfigError::WrongType(Field::CpuGovernor));
}

fn supply(name: &str) -> PowerSupply {
    PowerSupply { name: name.to_string(), charge_state: None }
}

#[test]
fn power_deltas() {
    let supplies = vec![supply("AC"), supply("BAT0")];
    let st = state(&[], &supplies, EvalContext::WidestPossible);
    let delta = PowersDelta {
        for_: Some(Expression::List(vec![Expression::String("BAT0".to_string())])),
        charge_threshold_start: Some(Expression::Number(40.0)),
        charge_threshold_end: Some(Expression::Number(80.0)),
        platform_profile: Some(Expression::String("low-power".to_string())),
    };
    let (deltas, profile) = delta.eval(&st, &numbers).unwrap();
    assert_eq!(deltas.len(), 1);
    assert_eq!(deltas[0].0, "BAT0");
    assert_eq!(deltas[0].1.charge_threshold_start, Some(0.4));
    assert_eq!(deltas[0].1.charge_threshold_end, Some(0.8));
    assert_eq!(profile.as_deref(), Some("low-power"));
    let bad = PowersDelta { for_: Some(Expression::List(vec![Expression::Number(0.0)])), ..PowersDelta::default() };
    assert_eq!(bad.eval(&st, &numbers).unwrap_err(), ConfigError::WrongItemType(Field::PowerFor));
}

fn rule(priority: u16, condition: Expression<f64>, governor: Option<&str>, turbo: Option<bool>) -> Rule<f64> {
    let mut cpu = empty_cpus_delta();
    cpu.governor = governor.map(|g| Expression::String(g.to_string()));
    cpu.turbo = turbo.map(Expression::Boolean);
    Rule { name: format!("rule {priority}"), priority, condition, cpu, power: PowersDelta::default() }
}

#[test]
fn priorities_must_differ() {
    let config = DaemonConfig { rules: vec![rule(5, Expression::Boolean(true), None, None), rule(5, Expression::Boolean(true), None, None)] };
    assert_eq!(config.prioritized().unwrap_err(), ConfigError::DuplicatePriority(5));
}

#[test]
fn rules_are_sorted_by_priority() {
    let config = DaemonConfig {
        rules: vec![
            rule(30, Expression::Boolean(true), None, None),
            rule(10, Expression::Boolean(true), None, None),
            rule(20, Expression::Boolean(true), None, None),
        ],
    };
    let sorted = config.prioritized().unwrap();
    assert_eq!(sorted.rules.iter().map(|r| r.priority).collect::<Vec<_>>(), vec![10, 20, 30]);
    // written in another order, the same rules come out the same
    let other = DaemonConfig {
        rules: vec![
            rule(20, Expression::Boolean(true), None, None),
            rule(30, Expression::Boolean(true), None, None),
            rule(10, Expression::Boolean(true), None, None),
        ],
    };
    let names = |c: &DaemonConfig<f64>| c.rules.iter().map(|r| r.name.clone()).collect::<Vec<_>>();
    assert_eq!(names(&other.prioritized().unwrap()), names(&sorted));
}

#[test]
fn higher_priority_shadows_lower() {
    let cpus = vec![test_cpu(0, 2000), test_cpu(1, 2000)];
    let st = state(&cpus, &[], EvalContext::WidestPossible);
    let config = DaemonConfig {
        rules: vec![
            rule(0, Expression::Boolean(true), Some("schedutil"), Some(false)),
            rule(10, Expression::Discharging, Some("powersave"), Some(true)),
            rule(20, Expression::Boolean(true), Some("performance"), None),
        ],
    }
    .prioritized()
    .unwrap();
    let decision = config.decide(&st, &numbers).unwrap();
    assert_eq!(decision.cpu_deltas.len(), 2);
    for (_, delta) in &decision.cpu_deltas {
        assert_eq!(delta.governor.as_deref(), Some("performance"));
    }
    // the discharging rule does not hold, so turbo comes from the lowest rule
    assert_eq!(decision.turbo, Some(false));
    assert_eq!(decision.platform_profile, None);
}

#[test]
fn condition_must_be_boolean() {
    let cpus = vec![test_cpu(0, 2000)];
    let st = state(&cpus, &[], EvalContext::WidestPossible);
    let config = DaemonConfig { rules: vec![rule(1, Expression::Number(1.0), None, None)] };
    assert_eq!(config.decide(&st, &numbers).unwrap_err(), ConfigError::WrongType(Field::Condition));
}

#[test]
fn default_rule_always_holds() {
    let r: Rule<f64> = Rule::default();
    assert!(matches!(r.condition, Expression::Boolean(true)));
    assert_eq!(r.priority, 0);
    assert!(r.name.is_empty());
}

#[test]
fn reading_names() {
    assert!(matches!(Expression::<f64>::named("?discharging"), Some(Expression::Discharging)));
    assert!(matches!(Expression::<f64>::named("%cpu-usage"), Some(Expression::CpuUsage)));
    assert!(matches!(Expression::<f64>::named("$cpu-frequency-maximum"), Some(Expression::CpuFrequencyMaximum)));
    assert!(matches!(Expression::<f64>::named("%power-supply-discharge-rate"), Some(Expression::PowerSupplyDischargeRate)));
    assert!(Expression::<f64>::named("?charging").is_none());
    assert!(Expression::<f64>::named("cpu-usage").is_none());
}

fn conditional(condition: Expression<f64>, consequence: Expression<f64>) -> Expression<f64> {
    Expression::IfElse { condition: Box::new(condition), consequence: Box::new(consequence), alternative: None }
}

#[test]
fn unmet_condition_leaves_setting_unset() {
    let cpus = vec![test_cpu(0, 2000)];
    let st = state(&cpus, &[], EvalContext::WidestPossible);
    let mut delta = empty_cpus_delta();
    // the state has turbo unavailable and frequency control available
    delta.turbo = Some(conditional(Expression::TurboAvailable, Expression::Boolean(true)));
    delta.governor = Some(conditional(Expression::TurboAvailable, Expression::String("powersave".to_string())));
    delta.frequency_mhz_maximum = Some(conditional(Expression::FrequencyAvailable, Expression::Number(2000.0)));
    let (deltas, turbo) = delta.eval(&st, &numbers).unwrap();
    assert_eq!(turbo, None);
    assert_eq!(deltas[0].1.governor, None);
    assert_eq!(deltas[0].1.frequency_mhz_maximum, Some(2000));

    let supplies = vec![supply("BAT0")];
    let st = state(&cpus, &supplies, EvalContext::WidestPossible);
    let power = PowersDelta {
        for_: None,
        charge_threshold_start: Some(conditional(Expression::TurboAvailable, Expression::Number(40.0))),
        charge_threshold_end: Some(conditional(Expression::FrequencyAvailable, Expression::Number(80.0))),
        platform_profile: Some(conditional(Expression::TurboAvailable, Expression::String("low-power".to_string()))),
    };
    let (deltas, profile) = power.eval(&st, &numbers).unwrap();
    assert_eq!(profile, None);
    assert_eq!(deltas[0].1.charge_threshold_start, None);
    assert_eq!(deltas[0].1.charge_threshold_end, Some(0.8));
}

#[test]
fn expressions_into_values() {
    assert_eq!(Expression::<f64>::Number(2.5).try_into_number(), Ok(2.5));
    assert_eq!(Expression::<f64>::Boolean(true).try_into_number(), Err(EvalError::NotANumber));
    assert_eq!(Expression::<f64>::Boolean(false).try_into_boolean(), Ok(false));
    assert_eq!(Expression::<f64>::Number(1.0).try_into_boolean(), Err(EvalError::NotABoolean));
    assert_eq!(Expression::<f64>::String("powersave".to_string()).try_into_string(), Ok("powersave".to_string()));
    assert_eq!(Expression::<f64>::List(vec![]).try_into_string(), Err(EvalError::NotAString));
    assert_eq!(Expression::<f64>::List(vec![Expression::Number(1.0)]).try_into_list().map(|l| l.len()), Ok(1));
    assert_eq!(Expression::<f64>::Number(1.0).try_into_list().map(|l| l.len()), Err(EvalError::NotAList));
}

#[test]
fn junctions_stop_at_the_deciding_item() {
    let cpus = vec![test_cpu(0, 2000)];
    let st = state(&cpus, &[], EvalContext::WidestPossible);
    let e: Expression<f64> = Expression::Any { any: vec![] };
    assert!(matches!(e.eval(&st, &numbers), Ok(Some(Expression::Boolean(false)))));
    // the item after the deciding one is not a boolean, and is not looked at
    let e = Expression::Any { any: vec![Expression::Boolean(false), Expression::Boolean(true), Expression::Number(1.0)] };
    assert!(matches!(e.eval(&st, &numbers), Ok(Some(Expression::Boolean(true)))));
    // an undefined item decides before a later false one
    let mut no_volatility = state(&cpus, &[], EvalContext::WidestPossible);
    no_volatility.cpu_usage_volatility = None;
    let undefined = Expression::MoreThan { a: Box::new(Expression::CpuUsageVolatility), b: num(0.0) };
    let e = Expression::All { all: vec![Expression::Boolean(true), undefined, Expression::Boolean(false)] };
    assert!(matches!(e.eval(&no_volatility, &numbers), Ok(None)));
    // a failing item decides too
    let e = Expression::All { all: vec![Expression::Number(2.0), Expression::Boolean(false)] };
    assert_eq!(e.eval(&st, &numbers).unwrap_err(), EvalError::NotABoolean);
}

#[test]
fn extremes_bound_every_item() {
    let cpus = vec![test_cpu(0, 2000)];
    let st = state(&cpus, &[], EvalContext::WidestPossible);
    let xs = [4.0, -2.5, 9.0, -2.5, 0.0];
    let items = || xs.iter().map(|x| Expression::Number(*x)).collect::<Vec<_>>();
    let Ok(Some(Expression::Number(lo))) = (Expression::Minimum { numbers: items() }).eval(&st, &numbers) else { panic!() };
    let Ok(Some(Expression::Number(hi))) = (Expression::Maximum { numbers: items() }).eval(&st, &numbers) else { panic!() };
    assert!(xs.contains(&lo) && xs.iter().all(|x| lo <= *x));
    assert!(xs.contains(&hi) && xs.iter().all(|x| hi >= *x));
    assert_eq!((lo, hi), (-2.5, 9.0));
}

#[test]
fn power_for_selects_supplies_by_name() {
    let supplies = vec![supply("BAT0"), supply("AC"), supply("BAT1")];
    let st = state(&[], &supplies, EvalContext::WidestPossible);
    let mut delta = PowersDelta::default();
    delta.for_ = Some(Expression::List(vec![Expression::String("BAT1".to_string()), Expression::String("BAT9".to_string()), Expression::String("BAT0".to_string())]));
    let (deltas, _) = delta.eval(&st, &numbers).unwrap();
    assert_eq!(deltas.iter().map(|(n, _)| n.as_str()).collect::<Vec<_>>(), vec!["BAT0", "BAT1"]);
    delta.for_ = None;
    assert_eq!(delta.eval(&st, &numbers).unwrap().0.len(), 3);
    delta.for_ = Some(Expression::String("BAT0".to_string()));
    assert_eq!(delta.eval(&st, &numbers).unwrap_err(), ConfigError::WrongType(Field::PowerFor));
}

#[test]
fn frequencies_round_to_whole_megahertz() {
    let cpus = vec![test_cpu(0, 2000), test_cpu(1, 2000)];
    let st = state(&cpus, &[], EvalContext::WidestPossible);
    let mut delta = empty_cpus_delta();
    delta.frequency_mhz_minimum = Some(Expression::Number(800.0));
    delta.frequency_mhz_maximum = Some(Expression::Number(2000.5));
    let (deltas, _) = delta.eval(&st, &numbers).unwrap();
    for (_, d) in &deltas {
        assert_eq!(d.frequency_mhz_minimum, Some(800));
        assert_eq!(d.frequency_mhz_maximum, Some(2001));
    }
    delta.frequency_mhz_maximum = Some(Expression::String("fast".to_string()));
    assert_eq!(delta.eval(&st, &numbers).unwrap_err(), ConfigError::WrongType(Field::CpuFrequencyMhzMaximum));
}

use vstd::prelude::*;

use vstd::string::StrSliceExecFns;
use crate::text::{contains_str, parse_u64, parse_u32, parse_unsigned, split_words, views, words};

verus! {

/// Saturating addition on `u64`, as a mathematical value.
pub open spec fn sat_add(a: int, b: int) -> int {
    if a + b > u64::MAX {
        u64::MAX as int
    } else {
        a + b
    }
}

/// Saturating subtraction on `u64`, as a mathematical value.
pub open spec fn sat_sub(a: int, b: int) -> int {
    if a - b < 0 {
        0
    } else {
        a - b
    }
}

/// The aggregate CPU times of one line of `/proc/stat`, in clock ticks.
#[derive(Default, Debug, Clone, Copy, PartialEq, Eq, Structural)]
pub struct CpuStat {
    pub user: u64,
    pub nice: u64,
    pub system: u64,
    pub idle: u64,
    pub iowait: u64,
    pub irq: u64,
    pub softirq: u64,
    pub steal: u64,
}

/// The numeric value of the `i`th word of `w`, read as a `u64`.
pub open spec fn word_value(w: Seq<Seq<char>>, i: int) -> u64 {
    parse_unsigned(w[i], u64::MAX as int)->0 as u64
}

/// What `CpuStat::from_line` reads from `line`: its first eight
/// ASCII-whitespace separated words, each a `u64`, in the order user, nice,
/// system, idle, iowait, irq, softirq and steal. Further words are ignored.
pub open spec fn spec_stat_from_line(line: Seq<char>) -> Option<CpuStat> {
    let w = words(line, true);
    if w.len() >= 8 && forall|i: int| 0 <= i < 8 ==> parse_unsigned(#[trigger] w[i], u64::MAX as int) is Some {
        Some(
            CpuStat {
                user: word_value(w, 0),
                nice: word_value(w, 1),
                system: word_value(w, 2),
                idle: word_value(w, 3),
                iowait: word_value(w, 4),
                irq: word_value(w, 5),
                softirq: word_value(w, 6),
                steal: word_value(w, 7),
            },
        )
    } else {
        None
    }
}

impl CpuStat {
    /// Reads the times that follow the `cpu` label of a `/proc/stat` line.
    pub fn from_line(line: &str) -> (stat: Option<CpuStat>)
        ensures
            stat == spec_stat_from_line(line@),
    {
        let parts = split_words(line, true);
        let ghost w = words(line@, true);
        if parts.len() < 8 {
            return None;
        }
        let mut values: Vec<u64> = Vec::new();
        let mut i: usize = 0;
        while i < 8
            invariant
                parts.len() >= 8,
                views(parts@) == w,
                w == words(line@, true),
                0 <= i <= 8,
                values.len() == i,
                forall|j: int| 0 <= j < i ==> parse_unsigned(#[trigger] w[j], u64::MAX as int) == Some(values@[j] as int),
            decreases 8 - i,
        {
            assert(w[i as int] == parts@[i as int]@);
            match parse_u64(parts[i].as_str()) {
                Some(v) => values.push(v),
                None => {
                    assert(!(forall|j: int| 0 <= j < 8 ==> parse_unsigned(#[trigger] w[j], u64::MAX as int) is Some));
                    return None;
                },
            }
            i = i + 1;
        }
        Some(
            CpuStat {
                user: values[0],
                nice: values[1],
                system: values[2],
                idle: values[3],
                iowait: values[4],
                irq: values[5],
                softirq: values[6],
                steal: values[7],
            },
        )
    }

    /// Time spent idle: idle plus I/O wait, saturating.
    pub open spec fn spec_idle_time(self) -> int {
        sat_add(self.idle as int, self.iowait as int)
    }

    /// Time spent working: user, nice, system, irq, softirq and steal, summed
    /// left to right with saturation.
    pub open spec fn spec_working_time(self) -> int {
        sat_add(
            sat_add(
                sat_add(
                    sat_add(sat_add(self.user as int, self.nice as int), self.system as int),
                    self.irq as int,
                ),
                self.softirq as int,
            ),
            self.steal as int,
        )
    }

    /// Time spent idle (see `spec_idle_time`).
    pub fn idle_time(self) -> (time: u64)
        ensures
            time == self.spec_idle_time(),
    {
        self.idle.saturating_add(self.iowait)
    }

    /// Time spent working (see `spec_working_time`).
    pub fn working_time(self) -> (time: u64)
        ensures
            time == self.spec_working_time(),
    {
        self.user.saturating_add(self.nice).saturating_add(self.system).saturating_add(
            self.irq,
        ).saturating_add(self.softirq).saturating_add(self.steal)
    }

    /// The working and total ticks that passed between `old` and `self`:
    /// the working period, and the total period (idle plus working, at
    /// least one). Their quotient is the CPU usage between the two readings.
    pub open spec fn spec_usage_ticks(self, old: Self) -> (int, int) {
        let total = sat_sub(
            sat_add(self.spec_idle_time(), self.spec_working_time()),
            sat_add(old.spec_idle_time(), old.spec_working_time()),
        );
        (sat_sub(self.spec_working_time(), old.spec_working_time()), if total < 1 { 1 } else { total })
    }

    /// Every counter of `self` is at least that of `old`, as between two
    /// readings of `/proc/stat`, and no sum of counters saturates.
    pub open spec fn advanced_from(self, old: Self) -> bool {
        &&& old.user <= self.user
        &&& old.nice <= self.nice
        &&& old.system <= self.system
        &&& old.idle <= self.idle
        &&& old.iowait <= self.iowait
        &&& old.irq <= self.irq
        &&& old.softirq <= self.softirq
        &&& old.steal <= self.steal
        &&& self.user + self.nice + self.system + self.idle + self.iowait + self.irq + self.softirq + self.steal <= u64::MAX
    }

    /// The working and total ticks that passed between `old` and `self`
    /// (see `spec_usage_ticks`).
    pub fn usage_ticks(&self, old: &Self) -> (ticks: (u64, u64))
        ensures
            ticks.0 == self.spec_usage_ticks(*old).0,
            ticks.1 == self.spec_usage_ticks(*old).1,
    {
        let idle_time = self.idle_time();
        let old_idle_time = old.idle_time();
        let working_time = self.working_time();
        let old_working_time = old.working_time();
        let total_time = idle_time.saturating_add(working_time);
        let old_total_time = old_idle_time.saturating_add(old_working_time);
        let working_period = working_time.saturating_sub(old_working_time);
        let total_period = total_time.saturating_sub(old_total_time);
        (working_period, if total_period < 1 { 1 } else { total_period })
    }
}

/// The sum of the counters of time spent working: user, nice, system, irq,
/// softirq and steal.
pub open spec fn working_counters(s: CpuStat) -> int {
    s.user + s.nice + s.system + s.irq + s.softirq + s.steal
}

/// Working time is the sum of the user, nice, system, irq, softirq and
/// steal counters, held at `u64::MAX` when it would exceed it; idle time is
/// idle plus I/O wait, likewise held.
pub proof fn lemma_times_are_sums(s: CpuStat)
    ensures
        working_counters(s) <= u64::MAX ==> s.spec_working_time() == working_counters(s),
        working_counters(s) > u64::MAX ==> s.spec_working_time() == u64::MAX,
        s.idle + s.iowait <= u64::MAX ==> s.spec_idle_time() == s.idle + s.iowait,
        s.idle + s.iowait > u64::MAX ==> s.spec_idle_time() == u64::MAX,
{
}

/// Between two readings whose counters only advanced, the working period is
/// what the six working counters advanced by together, and the total period
/// what all eight advanced by (at least one): raising any one working
/// counter by `d` raises both by `d`, and raising idle or I/O wait raises
/// only the total.
pub proof fn lemma_usage_ticks_count_every_counter(new: CpuStat, old: CpuStat)
    requires
        new.advanced_from(old),
    ensures
        new.spec_usage_ticks(old).0 == working_counters(new) - working_counters(old),
        new.spec_usage_ticks(old).1 == {
            let total = (working_counters(new) + new.idle + new.iowait) - (working_counters(old) + old.idle + old.iowait);
            if total < 1 { 1 } else { total }
        },
{
    lemma_times_are_sums(new);
    lemma_times_are_sums(old);
}

/// CPU usage lies between 0 and 1: between two readings whose counters
/// only advanced, the working period is at most the total period.
pub proof fn lemma_usage_at_most_one(new: CpuStat, old: CpuStat)
    requires
        new.advanced_from(old),
    ensures
        0 <= new.spec_usage_ticks(old).0 <= new.spec_usage_ticks(old).1,
        1 <= new.spec_usage_ticks(old).1,
{
}


/// A sysfs attribute that the daemon writes.
#[derive(Debug, Clone, PartialEq, Eq)]
pub enum SysfsTarget {
    /// `cpu{N}/cpufreq/scaling_governor`
    ScalingGovernor(u32),
    /// `cpu{N}/cpufreq/energy_performance_preference`
    EnergyPerformancePreference(u32),
    /// `cpu{N}/power/energy_perf_bias`
    EnergyPerfBias(u32),
    /// `cpu{N}/cpufreq/scaling_min_freq`
    ScalingMinimumFrequency(u32),
    /// `cpu{N}/cpufreq/scaling_max_freq`
    ScalingMaximumFrequency(u32),
    /// `intel_pstate/no_turbo`
    IntelNoTurbo,
    /// `amd_pstate/cpufreq/boost`
    AmdPstateBoost,
    /// `cpufreq/amd_pstate_enable_boost`
    AmdPstateEnableBoost,
    /// `cpufreq/boost`
    CpufreqBoost,
    /// `cpu{N}/cpufreq/boost`
    CpuCpufreqBoost(u32),
}

/// The value written to a sysfs attribute.
#[derive(Debug, Clone, PartialEq, Eq)]
pub enum SysfsValue {
    /// Written as is.
    Text(String),
    /// A frequency in kHz, written in decimal.
    Kilohertz(u64),
    /// Written as `1` for true and `0` for false.
    Flag(bool),
}

/// One write to sysfs that a decision of the library asks for.
#[derive(Debug, Clone, PartialEq, Eq)]
pub struct SysfsWrite {
    pub target: SysfsTarget,
    pub value: SysfsValue,
}

/// Why a setting cannot be applied to a CPU.
#[derive(Debug, Clone, PartialEq, Eq)]
pub enum CpuError {
    GovernorUnavailable { cpu: u32, governor: String, available: Vec<String> },
    EppUnavailable { cpu: u32, epp: String, available: Vec<String> },
    EpbUnavailable { cpu: u32, epb: String, available: Vec<String> },
    /// The requested minimum is below the hardware minimum.
    FrequencyBelowHardwareMinimum { cpu: u32, frequency_mhz: u64, hardware_minimum_mhz: u64 },
    /// The requested maximum is above the hardware maximum.
    FrequencyAboveHardwareMaximum { cpu: u32, frequency_mhz: u64, hardware_maximum_mhz: u64 },
}

/// A CPU as the daemon sees it: its number and the cpufreq state read from
/// sysfs.
#[derive(Default, Debug)]
pub struct Cpu {
    pub number: u32,
    pub has_cpufreq: bool,
    pub available_governors: Vec<String>,
    pub governor: Option<String>,
    pub frequency_mhz: Option<u64>,
    pub frequency_mhz_minimum: Option<u64>,
    pub frequency_mhz_maximum: Option<u64>,
    pub available_epps: Vec<String>,
    pub epp: Option<String>,
    pub available_epbs: Vec<String>,
    pub epb: Option<String>,
    /// The `/proc/cpuinfo` entries of this CPU, key and value.
    pub info: Option<Vec<(String, String)>>,
}

/// Two CPUs are the same CPU when their numbers are equal.
impl PartialEq for Cpu {
    fn eq(&self, other: &Self) -> (equal: bool) {
        self.number == other.number
    }
}

impl vstd::std_specs::cmp::PartialEqSpecImpl for Cpu {
    open spec fn obeys_eq_spec() -> bool {
        true
    }

    open spec fn eq_spec(&self, other: &Self) -> bool {
        self.number == other.number
    }
}

impl Eq for Cpu {

}

/// The view of an optional string.
pub open spec fn opt_view(s: Option<String>) -> Option<Seq<char>> {
    match s {
        Some(s) => Some(s@),
        None => None,
    }
}

/// Copies a string.
pub fn copy_str(s: &str) -> (r: String)
    ensures
        r@ == s@,
{
    s.to_owned()
}

/// Copies a list of strings.
pub fn copy_strings(v: &Vec<String>) -> (r: Vec<String>)
    ensures
        r@ == v@,
{
    let mut r: Vec<String> = Vec::new();
    let mut i: usize = 0;
    while i < v.len()
        invariant
            0 <= i <= v.len(),
            r@ == v@.take(i as int),
        decreases v.len() - i,
    {
        r.push(v[i].clone());
        assert(r@ == v@.take(i + 1));
        i = i + 1;
    }
    assert(v@.take(v.len() as int) == v@);
    r
}

/// `Some(khz / 1000)`: a kHz reading in MHz, rounded down.
pub open spec fn khz_to_mhz(khz: Option<u64>) -> Option<u64> {
    match khz {
        Some(k) => Some((k / 1000) as u64),
        None => None,
    }
}

/// The energy-performance-bias values that a CPU with an EPB accepts.
pub open spec fn epb_names() -> Seq<Seq<char>> {
    seq![
        "0"@, "1"@, "2"@, "3"@, "4"@, "5"@, "6"@, "7"@, "8"@, "9"@, "10"@, "11"@, "12"@,
        "13"@, "14"@, "15"@, "performance"@, "balance-performance"@, "normal"@,
        "balance-power"@, "power"@,
    ]
}

/// Whether turbo boost is on, from the readings of `intel_pstate/no_turbo`
/// and `cpufreq/boost` (see `Cpu::turbo`).
pub open spec fn spec_turbo(no_turbo: Option<u64>, boost: Option<u64>) -> Option<bool> {
    match no_turbo {
        Some(n) => Some(n == 0),
        None => match boost {
            Some(b) => Some(b == 1),
            None => None,
        },
    }
}

/// Intel's `no_turbo` decides when it can be read, whatever `cpufreq/boost`
/// says: turbo is on exactly when it reads 0. Without it, `boost` decides,
/// on exactly when it reads 1; with neither, turbo is unknown.
pub proof fn lemma_turbo_sources(no_turbo: u64, boost: Option<u64>, other: Option<u64>, b: u64)
    ensures
        spec_turbo(Some(no_turbo), boost) == spec_turbo(Some(no_turbo), other),
        spec_turbo(Some(no_turbo), boost) == Some(no_turbo == 0),
        spec_turbo(None, Some(b)) == Some(b == 1),
        spec_turbo(None, None) is None,
{
}

/// A kHz reading in MHz is the whole number of MHz it holds: `m` with
/// `1000 * m <= k < 1000 * (m + 1)`.
pub proof fn lemma_khz_to_mhz(k: u64)
    ensures
        khz_to_mhz(Some(k)) matches Some(m) && 1000 * m <= k < 1000 * (m + 1),
        khz_to_mhz(None) is None,
{
}

/// The number a flag is written as: 1 for true, 0 for false.
pub open spec fn flag_number(b: bool) -> u64 {
    if b { 1 } else { 0 }
}

/// Turbo reads back as it was set: once the first write of
/// `Cpu::set_turbo(on, ..)` (Intel's `no_turbo`, negated) has succeeded,
/// turbo reads `on`; on a system without `no_turbo`, once the write of `on`
/// to `cpufreq/boost` has succeeded, turbo reads `on`.
pub proof fn lemma_turbo_reads_back(on: bool, boost: Option<u64>)
    ensures
        spec_turbo(Some(flag_number(!on)), boost) == Some(on),
        spec_turbo(None, Some(flag_number(on))) == Some(on),
{
}

/// Whether `after` is `before` once the successful write `w` is noted: a
/// text written to the governor, EPP or EPB of `before` becomes that
/// setting; nothing else changes.
pub open spec fn records(before: Cpu, after: Cpu, w: SysfsWrite) -> bool {
    if w.target == SysfsTarget::ScalingGovernor(before.number) && w.value is Text {
        after.governor matches Some(g) && g@ == w.value->Text_0@ && after == before.with_governor(after.governor)
    } else if w.target == SysfsTarget::EnergyPerformancePreference(before.number) && w.value is Text {
        after.epp matches Some(g) && g@ == w.value->Text_0@ && after == before.with_epp(after.epp)
    } else if w.target == SysfsTarget::EnergyPerfBias(before.number) && w.value is Text {
        after.epb matches Some(g) && g@ == w.value->Text_0@ && after == before.with_epb(after.epb)
    } else {
        after == before
    }
}

impl Cpu {
    /// `self` with its governor replaced.
    pub open spec fn with_governor(self, governor: Option<String>) -> Cpu {
        Cpu { governor, ..self }
    }

    /// `self` with its energy performance preference replaced.
    pub open spec fn with_epp(self, epp: Option<String>) -> Cpu {
        Cpu { epp, ..self }
    }

    /// `self` with its energy performance bias replaced.
    pub open spec fn with_epb(self, epb: Option<String>) -> Cpu {
        Cpu { epb, ..self }
    }

    /// Records the governor read from `scaling_governor` and, when there is
    /// one, the governors listed in `scaling_available_governors` (none when
    /// that file is absent).
    pub fn scan_governor(&mut self, governor: Option<String>, available: Option<&str>)
        ensures
            final(self).governor == governor,
            governor is Some ==> views(final(self).available_governors@) == match available {
                Some(a) => words(a@, false),
                None => Seq::<Seq<char>>::empty(),
            },
            governor is None ==> final(self).available_governors == old(self).available_governors,
            *final(self) == (Cpu {
                governor: final(self).governor,
                available_governors: final(self).available_governors,
                ..*old(self)
            }),
    {
        let some = governor.is_some();
        self.governor = governor;
        if some {
            self.available_governors = match available {
                Some(a) => split_words(a, false),
                None => Vec::new(),
            };
            assert(views(Seq::<String>::empty()) == Seq::<Seq<char>>::empty());
        }
    }

    /// Records the frequencies read in kHz from `cpuinfo_cur_freq`,
    /// `cpuinfo_min_freq` and `cpuinfo_max_freq`, in MHz.
    pub fn scan_frequency(&mut self, current_khz: Option<u64>, minimum_khz: Option<u64>, maximum_khz: Option<u64>)
        ensures
            *final(self) == (Cpu {
                frequency_mhz: khz_to_mhz(current_khz),
                frequency_mhz_minimum: khz_to_mhz(minimum_khz),
                frequency_mhz_maximum: khz_to_mhz(maximum_khz),
                ..*old(self)
            }),
    {
        self.frequency_mhz = hardware_mhz(current_khz);
        self.frequency_mhz_minimum = hardware_mhz(minimum_khz);
        self.frequency_mhz_maximum = hardware_mhz(maximum_khz);
    }

    /// Records the energy performance preference read from
    /// `energy_performance_preference` and, when there is one, the values
    /// listed in `energy_performance_available_preferences`.
    pub fn scan_epp(&mut self, epp: Option<String>, available: Option<&str>)
        ensures
            final(self).epp == epp,
            epp is Some ==> views(final(self).available_epps@) == match available {
                Some(a) => words(a@, false),
                None => Seq::<Seq<char>>::empty(),
            },
            epp is None ==> final(self).available_epps == old(self).available_epps,
            *final(self) == (Cpu {
                epp: final(self).epp,
                available_epps: final(self).available_epps,
                ..*old(self)
            }),
    {
        let some = epp.is_some();
        self.epp = epp;
        if some {
            self.available_epps = match available {
                Some(a) => split_words(a, false),
                None => Vec::new(),
            };
            assert(views(Seq::<String>::empty()) == Seq::<Seq<char>>::empty());
        }
    }

    /// Records the energy performance bias read from `energy_perf_bias`;
    /// a CPU that has one accepts the values of `epb_names`.
    pub fn scan_epb(&mut self, epb: Option<String>)
        ensures
            final(self).epb == epb,
            epb is Some ==> views(final(self).available_epbs@) == epb_names(),
            epb is None ==> final(self).available_epbs == old(self).available_epbs,
            *final(self) == (Cpu {
                epb: final(self).epb,
                available_epbs: final(self).available_epbs,
                ..*old(self)
            }),
    {
        let some = epb.is_some();
        self.epb = epb;
        if some {
            let mut names: Vec<String> = Vec::new();
            names.push(copy_str("0"));
            names.push(copy_str("1"));
            names.push(copy_str("2"));
            names.push(copy_str("3"));
            names.push(copy_str("4"));
            names.push(copy_str("5"));
            names.push(copy_str("6"));
            names.push(copy_str("7"));
            names.push(copy_str("8"));
            names.push(copy_str("9"));
            names.push(copy_str("10"));
            names.push(copy_str("11"));
            names.push(copy_str("12"));
            names.push(copy_str("13"));
            names.push(copy_str("14"));
            names.push(copy_str("15"));
            names.push(copy_str("performance"));
            names.push(copy_str("balance-performance"));
            names.push(copy_str("normal"));
            names.push(copy_str("balance-power"));
            names.push(copy_str("power"));
            assert(views(names@) == epb_names());
            self.available_epbs = names;
        }
    }

    /// Asks for `governor` on this CPU. It must be one of the available
    /// governors; the result is the write to `scaling_governor` that puts it
    /// in effect. The CPU is left as it is: once the write has succeeded,
    /// `record` notes the new governor.
    pub fn set_governor(&self, governor: &str) -> (result: Result<SysfsWrite, CpuError>)
        ensures
            views(self.available_governors@).contains(governor@) <==> result is Ok,
            result matches Ok(w) ==> {
                &&& w.target == SysfsTarget::ScalingGovernor(self.number)
                &&& w.value matches SysfsValue::Text(t) && t@ == governor@
            },
            result matches Err(e) ==> e matches CpuError::GovernorUnavailable { cpu, governor: g, available } && cpu
                == self.number && g@ == governor@ && available@ == self.available_governors@,
    {
        if !contains_str(&self.available_governors, governor) {
            return Err(
                CpuError::GovernorUnavailable {
                    cpu: self.number,
                    governor: copy_str(governor),
                    available: copy_strings(&self.available_governors),
                },
            );
        }
        Ok(SysfsWrite { target: SysfsTarget::ScalingGovernor(self.number), value: SysfsValue::Text(copy_str(governor)) })
    }

    /// Asks for the energy performance preference `epp`. It must be one of
    /// the available preferences; the result is the write to
    /// `energy_performance_preference`. The CPU is left as it is: once the
    /// write has succeeded, `record` notes the new preference.
    pub fn set_epp(&self, epp: &str) -> (result: Result<SysfsWrite, CpuError>)
        ensures
            views(self.available_epps@).contains(epp@) <==> result is Ok,
            result matches Ok(w) ==> {
                &&& w.target == SysfsTarget::EnergyPerformancePreference(self.number)
                &&& w.value matches SysfsValue::Text(t) && t@ == epp@
            },
            result matches Err(e) ==> e matches CpuError::EppUnavailable { cpu, epp: g, available } && cpu
                == self.number && g@ == epp@ && available@ == self.available_epps@,
    {
        if !contains_str(&self.available_epps, epp) {
            return Err(
                CpuError::EppUnavailable {
                    cpu: self.number,
                    epp: copy_str(epp),
                    available: copy_strings(&self.available_epps),
                },
            );
        }
        Ok(
            SysfsWrite {
                target: SysfsTarget::EnergyPerformancePreference(self.number),
                value: SysfsValue::Text(copy_str(epp)),
            },
        )
    }

    /// Asks for the energy performance bias `epb`. It must be one of the
    /// available biases; the result is the write to `energy_perf_bias`. The
    /// CPU is left as it is: once the write has succeeded, `record` notes the
    /// new bias.
    pub fn set_epb(&self, epb: &str) -> (result: Result<SysfsWrite, CpuError>)
        ensures
            views(self.available_epbs@).contains(epb@) <==> result is Ok,
            result matches Ok(w) ==> {
                &&& w.target == SysfsTarget::EnergyPerfBias(self.number)
                &&& w.value matches SysfsValue::Text(t) && t@ == epb@
            },
            result matches Err(e) ==> e matches CpuError::EpbUnavailable { cpu, epb: g, available } && cpu
                == self.number && g@ == epb@ && available@ == self.available_epbs@,
    {
        if !contains_str(&self.available_epbs, epb) {
            return Err(
                CpuError::EpbUnavailable {
                    cpu: self.number,
                    epb: copy_str(epb),
                    available: copy_strings(&self.available_epbs),
                },
            );
        }
        Ok(SysfsWrite { target: SysfsTarget::EnergyPerfBias(self.number), value: SysfsValue::Text(copy_str(epb)) })
    }

    /// Notes a write to this CPU's settings that has succeeded: a governor,
    /// EPP or EPB written to this CPU becomes its governor, EPP or EPB. Any
    /// other write leaves the CPU as it is.
    pub fn record(&mut self, write: &SysfsWrite)
        ensures
            records(*old(self), *final(self), *write),
    {
        if let SysfsValue::Text(t) = &write.value {
            match &write.target {
                SysfsTarget::ScalingGovernor(n) => if *n == self.number {
                    self.governor = Some(copy_str(t.as_str()));
                },
                SysfsTarget::EnergyPerformancePreference(n) => if *n == self.number {
                    self.epp = Some(copy_str(t.as_str()));
                },
                SysfsTarget::EnergyPerfBias(n) => if *n == self.number {
                    self.epb = Some(copy_str(t.as_str()));
                },
                _ => {},
            }
        }
    }

    /// Checks a new software minimum frequency against the hardware minimum
    /// read from `cpuinfo_min_freq` (in kHz); with no reading it passes.
    pub fn validate_frequency_mhz_minimum(&self, new_frequency_mhz: u64, hardware_minimum_khz: Option<u64>) -> (result: Result<(), CpuError>)
        requires
            new_frequency_mhz * 1000 <= u64::MAX,
        ensures
            match hardware_minimum_khz {
                Some(k) if new_frequency_mhz * 1000 < k => result == Err::<(), CpuError>(
                    CpuError::FrequencyBelowHardwareMinimum {
                        cpu: self.number,
                        frequency_mhz: new_frequency_mhz,
                        hardware_minimum_mhz: (k / 1000) as u64,
                    },
                ),
                _ => result is Ok,
            },
    {
        match hardware_minimum_khz {
            Some(minimum_khz) => {
                if new_frequency_mhz * 1000 < minimum_khz {
                    Err(
                        CpuError::FrequencyBelowHardwareMinimum {
                            cpu: self.number,
                            frequency_mhz: new_frequency_mhz,
                            hardware_minimum_mhz: minimum_khz / 1000,
                        },
                    )
                } else {
                    Ok(())
                }
            },
            None => Ok(()),
        }
    }

    /// Checks a new software maximum frequency against the hardware maximum
    /// read from `cpuinfo_max_freq` (in kHz); with no reading it passes.
    pub fn validate_frequency_mhz_maximum(&self, new_frequency_mhz: u64, hardware_maximum_khz: Option<u64>) -> (result: Result<(), CpuError>)
        requires
            new_frequency_mhz * 1000 <= u64::MAX,
        ensures
            match hardware_maximum_khz {
                Some(k) if new_frequency_mhz * 1000 > k => result == Err::<(), CpuError>(
                    CpuError::FrequencyAboveHardwareMaximum {
                        cpu: self.number,
                        frequency_mhz: new_frequency_mhz,
                        hardware_maximum_mhz: (k / 1000) as u64,
                    },
                ),
                _ => result is Ok,
            },
    {
        match hardware_maximum_khz {
            Some(maximum_khz) => {
                if new_frequency_mhz * 1000 > maximum_khz {
                    Err(
                        CpuError::FrequencyAboveHardwareMaximum {
                            cpu: self.number,
                            frequency_mhz: new_frequency_mhz,
                            hardware_maximum_mhz: maximum_khz / 1000,
                        },
                    )
                } else {
                    Ok(())
                }
            },
            None => Ok(()),
        }
    }

    /// Sets the software minimum frequency: once it passes
    /// `validate_frequency_mhz_minimum`, the result is the write of the
    /// frequency in kHz to `scaling_min_freq`.
    pub fn set_frequency_mhz_minimum(&self, frequency_mhz: u64, hardware_minimum_khz: Option<u64>) -> (result: Result<SysfsWrite, CpuError>)
        requires
            frequency_mhz * 1000 <= u64::MAX,
        ensures
            match hardware_minimum_khz {
                Some(k) if frequency_mhz * 1000 < k => result == Err::<SysfsWrite, CpuError>(
                    CpuError::FrequencyBelowHardwareMinimum {
                        cpu: self.number,
                        frequency_mhz,
                        hardware_minimum_mhz: (k / 1000) as u64,
                    },
                ),
                _ => result == Ok::<SysfsWrite, CpuError>(
                    SysfsWrite {
                        target: SysfsTarget::ScalingMinimumFrequency(self.number),
                        value: SysfsValue::Kilohertz((frequency_mhz * 1000) as u64),
                    },
                ),
            },
    {
        match self.validate_frequency_mhz_minimum(frequency_mhz, hardware_minimum_khz) {
            Ok(()) => Ok(
                SysfsWrite {
                    target: SysfsTarget::ScalingMinimumFrequency(self.number),
                    value: SysfsValue::Kilohertz(frequency_mhz * 1000),
                },
            ),
            Err(e) => Err(e),
        }
    }

    /// Sets the software maximum frequency: once it passes
    /// `validate_frequency_mhz_maximum`, the result is the write of the
    /// frequency in kHz to `scaling_max_freq`.
    pub fn set_frequency_mhz_maximum(&self, frequency_mhz: u64, hardware_maximum_khz: Option<u64>) -> (result: Result<SysfsWrite, CpuError>)
        requires
            frequency_mhz * 1000 <= u64::MAX,
        ensures
            match hardware_maximum_khz {
                Some(k) if frequency_mhz * 1000 > k => result == Err::<SysfsWrite, CpuError>(
                    CpuError::FrequencyAboveHardwareMaximum {
                        cpu: self.number,
                        frequency_mhz,
                        hardware_maximum_mhz: (k / 1000) as u64,
                    },
                ),
                _ => result == Ok::<SysfsWrite, CpuError>(
                    SysfsWrite {
                        target: SysfsTarget::ScalingMaximumFrequency(self.number),
                        value: SysfsValue::Kilohertz((frequency_mhz * 1000) as u64),
                    },
                ),
            },
    {
        match self.validate_frequency_mhz_maximum(frequency_mhz, hardware_maximum_khz) {
            Ok(()) => Ok(
                SysfsWrite {
                    target: SysfsTarget::ScalingMaximumFrequency(self.number),
                    value: SysfsValue::Kilohertz(frequency_mhz * 1000),
                },
            ),
            Err(e) => Err(e),
        }
    }

    /// The hardware maximum frequency in MHz, from the kHz reading of CPU 0's
    /// `cpuinfo_max_freq`.
    pub fn hardware_frequency_mhz_maximum(maximum_khz: Option<u64>) -> (mhz: Option<u64>)
        ensures
            mhz == khz_to_mhz(maximum_khz),
    {
        hardware_mhz(maximum_khz)
    }

    /// The hardware minimum frequency in MHz, from the kHz reading of CPU 0's
    /// `cpuinfo_min_freq`.
    pub fn hardware_frequency_mhz_minimum(minimum_khz: Option<u64>) -> (mhz: Option<u64>)
        ensures
            mhz == khz_to_mhz(minimum_khz),
    {
        hardware_mhz(minimum_khz)
    }

    /// Whether turbo boost is on: from `intel_pstate/no_turbo` when it can
    /// be read (on when 0), else from `cpufreq/boost` (on when 1), else
    /// unknown.
    pub fn turbo(no_turbo: Option<u64>, boost: Option<u64>) -> (on: Option<bool>)
        ensures
            on == spec_turbo(no_turbo, boost),
    {
        if let Some(content) = no_turbo {
            return Some(content == 0);
        }
        if let Some(content) = boost {
            return Some(content == 1);
        }
        None
    }

    /// The writes that can switch turbo boost on or off, most specific
    /// first: Intel's `no_turbo` (negated), AMD P-state's `boost`, AMD
    /// P-state's `amd_pstate_enable_boost`, the generic `cpufreq/boost`, then
    /// the per-CPU `cpufreq/boost` of each of `cpus` in order. Turbo is set
    /// by the first of them that succeeds.
    pub fn set_turbo(on: bool, cpus: &[Cpu]) -> (writes: Vec<SysfsWrite>)
        ensures
            writes@.len() == 4 + cpus@.len(),
            writes@[0] == (SysfsWrite { target: SysfsTarget::IntelNoTurbo, value: SysfsValue::Flag(!on) }),
            writes@[1] == (SysfsWrite { target: SysfsTarget::AmdPstateBoost, value: SysfsValue::Flag(on) }),
            writes@[2] == (SysfsWrite { target: SysfsTarget::AmdPstateEnableBoost, value: SysfsValue::Flag(on) }),
            writes@[3] == (SysfsWrite { target: SysfsTarget::CpufreqBoost, value: SysfsValue::Flag(on) }),
            forall|i: int|
                0 <= i < cpus@.len() ==> #[trigger] writes@[4 + i] == (SysfsWrite {
                    target: SysfsTarget::CpuCpufreqBoost(cpus@[i].number),
                    value: SysfsValue::Flag(on),
                }),
    {
        let mut writes: Vec<SysfsWrite> = Vec::new();
        writes.push(SysfsWrite { target: SysfsTarget::IntelNoTurbo, value: SysfsValue::Flag(!on) });
        writes.push(SysfsWrite { target: SysfsTarget::AmdPstateBoost, value: SysfsValue::Flag(on) });
        writes.push(SysfsWrite { target: SysfsTarget::AmdPstateEnableBoost, value: SysfsValue::Flag(on) });
        writes.push(SysfsWrite { target: SysfsTarget::CpufreqBoost, value: SysfsValue::Flag(on) });
        let mut i: usize = 0;
        while i < cpus.len()
            invariant
                0 <= i <= cpus@.len(),
                writes@.len() == 4 + i,
                writes@[0] == (SysfsWrite { target: SysfsTarget::IntelNoTurbo, value: SysfsValue::Flag(!on) }),
                writes@[1] == (SysfsWrite { target: SysfsTarget::AmdPstateBoost, value: SysfsValue::Flag(on) }),
                writes@[2] == (SysfsWrite { target: SysfsTarget::AmdPstateEnableBoost, value: SysfsValue::Flag(on) }),
                writes@[3] == (SysfsWrite { target: SysfsTarget::CpufreqBoost, value: SysfsValue::Flag(on) }),
                forall|j: int|
                    0 <= j < i ==> #[trigger] writes@[4 + j] == (SysfsWrite {
                        target: SysfsTarget::CpuCpufreqBoost(cpus@[j].number),
                        value: SysfsValue::Flag(on),
                    }),
            decreases cpus@.len() - i,
        {
            writes.push(SysfsWrite { target: SysfsTarget::CpuCpufreqBoost(cpus[i].number), value: SysfsValue::Flag(on) });
            i = i + 1;
        }
        writes
    }
}

/// A kHz reading in MHz.
pub fn hardware_mhz(khz: Option<u64>) -> (mhz: Option<u64>)
    ensures
        mhz == khz_to_mhz(khz),
{
    match khz {
        Some(k) => Some(k / 1000),
        None => None,
    }
}


/// The settings that rules ask of one CPU; `None` leaves a setting alone.
#[derive(Default, Debug, Clone, PartialEq)]
pub struct Delta {
    pub governor: Option<String>,
    pub energy_performance_preference: Option<String>,
    pub energy_perf_bias: Option<String>,
    pub frequency_mhz_minimum: Option<u64>,
    pub frequency_mhz_maximum: Option<u64>,
}

/// `a`, or `b` when `a` is unset.
pub open spec fn or_else<T>(a: Option<T>, b: Option<T>) -> Option<T> {
    match a {
        Some(x) => Some(x),
        None => b,
    }
}

/// What a delta asks, with its strings as their views.
pub struct DeltaView {
    pub governor: Option<Seq<char>>,
    pub energy_performance_preference: Option<Seq<char>>,
    pub energy_perf_bias: Option<Seq<char>>,
    pub frequency_mhz_minimum: Option<u64>,
    pub frequency_mhz_maximum: Option<u64>,
}

impl DeltaView {
    /// Each setting of `self`, or that of `that` where `self` leaves it unset.
    pub open spec fn or(self, that: DeltaView) -> DeltaView {
        DeltaView {
            governor: or_else(self.governor, that.governor),
            energy_performance_preference: or_else(self.energy_performance_preference, that.energy_performance_preference),
            energy_perf_bias: or_else(self.energy_perf_bias, that.energy_perf_bias),
            frequency_mhz_minimum: or_else(self.frequency_mhz_minimum, that.frequency_mhz_minimum),
            frequency_mhz_maximum: or_else(self.frequency_mhz_maximum, that.frequency_mhz_maximum),
        }
    }

    /// Every setting is given.
    pub open spec fn is_complete(self) -> bool {
        &&& self.governor is Some
        &&& self.energy_performance_preference is Some
        &&& self.energy_perf_bias is Some
        &&& self.frequency_mhz_minimum is Some
        &&& self.frequency_mhz_maximum is Some
    }

    /// The delta that sets nothing.
    pub open spec fn empty() -> DeltaView {
        DeltaView {
            governor: None,
            energy_performance_preference: None,
            energy_perf_bias: None,
            frequency_mhz_minimum: None,
            frequency_mhz_maximum: None,
        }
    }
}

impl View for Delta {
    type V = DeltaView;

    open spec fn view(&self) -> DeltaView {
        DeltaView {
            governor: opt_view(self.governor),
            energy_performance_preference: opt_view(self.energy_performance_preference),
            energy_perf_bias: opt_view(self.energy_perf_bias),
            frequency_mhz_minimum: self.frequency_mhz_minimum,
            frequency_mhz_maximum: self.frequency_mhz_maximum,
        }
    }
}

/// Copies an optional string.
pub fn copy_option(s: &Option<String>) -> (r: Option<String>)
    ensures
        r == *s,
{
    match s {
        Some(v) => Some(v.clone()),
        None => None,
    }
}

impl Delta {
    /// Every setting is given.
    pub open spec fn spec_is_some(self) -> bool {
        &&& self.governor is Some
        &&& self.energy_performance_preference is Some
        &&& self.energy_perf_bias is Some
        &&& self.frequency_mhz_minimum is Some
        &&& self.frequency_mhz_maximum is Some
    }

    /// Each setting of `self`, or that of `that` where `self` leaves it unset.
    pub open spec fn spec_or(self, that: Delta) -> Delta {
        Delta {
            governor: or_else(self.governor, that.governor),
            energy_performance_preference: or_else(
                self.energy_performance_preference,
                that.energy_performance_preference,
            ),
            energy_perf_bias: or_else(self.energy_perf_bias, that.energy_perf_bias),
            frequency_mhz_minimum: or_else(self.frequency_mhz_minimum, that.frequency_mhz_minimum),
            frequency_mhz_maximum: or_else(self.frequency_mhz_maximum, that.frequency_mhz_maximum),
        }
    }

    /// The delta that sets nothing.
    pub open spec fn spec_empty() -> Delta {
        Delta {
            governor: None,
            energy_performance_preference: None,
            energy_perf_bias: None,
            frequency_mhz_minimum: None,
            frequency_mhz_maximum: None,
        }
    }

    /// The delta that sets nothing.
    pub fn empty() -> (d: Delta)
        ensures
            d == Delta::spec_empty(),
            d@ == DeltaView::empty(),
    {
        Delta {
            governor: None,
            energy_performance_preference: None,
            energy_perf_bias: None,
            frequency_mhz_minimum: None,
            frequency_mhz_maximum: None,
        }
    }

    /// Whether every setting is given, so that no lower-priority rule can
    /// add to it.
    pub fn is_some(&self) -> (all: bool)
        ensures
            all == self.spec_is_some(),
            all == self@.is_complete(),
    {
        self.governor.is_some() && self.energy_performance_preference.is_some()
            && self.energy_perf_bias.is_some() && self.frequency_mhz_minimum.is_some()
            && self.frequency_mhz_maximum.is_some()
    }

    /// Fills the settings that `self` leaves unset from `that`.
    pub fn or(self, that: &Self) -> (merged: Self)
        ensures
            merged == self.spec_or(*that),
            merged@ == self@.or(that@),
    {
        Delta {
            governor: match self.governor {
                Some(g) => Some(g),
                None => copy_option(&that.governor),
            },
            energy_performance_preference: match self.energy_performance_preference {
                Some(e) => Some(e),
                None => copy_option(&that.energy_performance_preference),
            },
            energy_perf_bias: match self.energy_perf_bias {
                Some(e) => Some(e),
                None => copy_option(&that.energy_perf_bias),
            },
            frequency_mhz_minimum: match self.frequency_mhz_minimum {
                Some(f) => Some(f),
                None => that.frequency_mhz_minimum,
            },
            frequency_mhz_maximum: match self.frequency_mhz_maximum {
                Some(f) => Some(f),
                None => that.frequency_mhz_maximum,
            },
        }
    }

    /// The same settings.
    pub fn copy(&self) -> (d: Delta)
        ensures
            d == *self,
    {
        Delta {
            governor: copy_option(&self.governor),
            energy_performance_preference: copy_option(&self.energy_performance_preference),
            energy_perf_bias: copy_option(&self.energy_perf_bias),
            frequency_mhz_minimum: self.frequency_mhz_minimum,
            frequency_mhz_maximum: self.frequency_mhz_maximum,
        }
    }

    /// The frequencies of this delta can be written in kHz.
    pub open spec fn frequencies_fit(self) -> bool {
        &&& (self.frequency_mhz_minimum matches Some(f) ==> f * 1000 <= u64::MAX)
        &&& (self.frequency_mhz_maximum matches Some(f) ==> f * 1000 <= u64::MAX)
    }
}

/// One setting of a delta.
pub enum Setting {
    Governor(String),
    EnergyPerformancePreference(String),
    EnergyPerfBias(String),
    FrequencyMhzMinimum(u64),
    FrequencyMhzMaximum(u64),
}

/// `s` with `x` appended when `x` is set.
pub open spec fn push_some<T>(s: Seq<Setting>, x: Option<T>, f: spec_fn(T) -> Setting) -> Seq<Setting> {
    match x {
        Some(v) => s.push(f(v)),
        None => s,
    }
}

/// Whether `cpu` accepts `setting`, given the hardware frequency limits read
/// in kHz.
pub open spec fn accepts(cpu: Cpu, setting: Setting, hardware_minimum_khz: Option<u64>, hardware_maximum_khz: Option<u64>) -> bool {
    match setting {
        Setting::Governor(g) => views(cpu.available_governors@).contains(g@),
        Setting::EnergyPerformancePreference(e) => views(cpu.available_epps@).contains(e@),
        Setting::EnergyPerfBias(b) => views(cpu.available_epbs@).contains(b@),
        Setting::FrequencyMhzMinimum(f) => !(hardware_minimum_khz matches Some(k) && f * 1000 < k),
        Setting::FrequencyMhzMaximum(f) => !(hardware_maximum_khz matches Some(k) && f * 1000 > k),
    }
}

/// Whether `write` is the write that puts `setting` in effect on CPU `number`.
pub open spec fn performs(number: u32, setting: Setting, write: SysfsWrite) -> bool {
    match setting {
        Setting::Governor(g) => write.target == SysfsTarget::ScalingGovernor(number) && (write.value matches SysfsValue::Text(t) && t@ == g@),
        Setting::EnergyPerformancePreference(e) => write.target == SysfsTarget::EnergyPerformancePreference(number) && (write.value matches SysfsValue::Text(t) && t@ == e@),
        Setting::EnergyPerfBias(b) => write.target == SysfsTarget::EnergyPerfBias(number) && (write.value matches SysfsValue::Text(t) && t@ == b@),
        Setting::FrequencyMhzMinimum(f) => write == (SysfsWrite { target: SysfsTarget::ScalingMinimumFrequency(number), value: SysfsValue::Kilohertz((f * 1000) as u64) }),
        Setting::FrequencyMhzMaximum(f) => write == (SysfsWrite { target: SysfsTarget::ScalingMaximumFrequency(number), value: SysfsValue::Kilohertz((f * 1000) as u64) }),
    }
}

/// Whether `error` is what `c` reports when it refuses `setting`, with the
/// hardware frequency readings `hardware_minimum_khz` and
/// `hardware_maximum_khz`.
pub open spec fn refuses(c: Cpu, setting: Setting, error: CpuError, hardware_minimum_khz: Option<u64>, hardware_maximum_khz: Option<u64>) -> bool {
    match setting {
        Setting::Governor(g) => error matches CpuError::GovernorUnavailable { cpu, governor, available }
            && cpu == c.number && governor@ == g@ && available@ == c.available_governors@,
        Setting::EnergyPerformancePreference(e) => error matches CpuError::EppUnavailable { cpu, epp, available }
            && cpu == c.number && epp@ == e@ && available@ == c.available_epps@,
        Setting::EnergyPerfBias(b) => error matches CpuError::EpbUnavailable { cpu, epb, available }
            && cpu == c.number && epb@ == b@ && available@ == c.available_epbs@,
        Setting::FrequencyMhzMinimum(f) => match hardware_minimum_khz {
            Some(k) => error == (CpuError::FrequencyBelowHardwareMinimum {
                cpu: c.number,
                frequency_mhz: f,
                hardware_minimum_mhz: (k / 1000) as u64,
            }),
            None => false,
        },
        Setting::FrequencyMhzMaximum(f) => match hardware_maximum_khz {
            Some(k) => error == (CpuError::FrequencyAboveHardwareMaximum {
                cpu: c.number,
                frequency_mhz: f,
                hardware_maximum_mhz: (k / 1000) as u64,
            }),
            None => false,
        },
    }
}

/// The outcome of applying a delta to a CPU: the writes to perform in order,
/// then the error that stopped it, if one did.
pub struct Application {
    pub writes: Vec<SysfsWrite>,
    pub error: Option<CpuError>,
}

impl Delta {
    /// The settings that this delta gives, in the order they are applied:
    /// governor, EPP, EPB, minimum frequency, maximum frequency.
    pub open spec fn settings(self) -> Seq<Setting> {
        let s = push_some(Seq::empty(), self.governor, |g: String| Setting::Governor(g));
        let s = push_some(s, self.energy_performance_preference, |e: String| Setting::EnergyPerformancePreference(e));
        let s = push_some(s, self.energy_perf_bias, |b: String| Setting::EnergyPerfBias(b));
        let s = push_some(s, self.frequency_mhz_minimum, |f: u64| Setting::FrequencyMhzMinimum(f));
        push_some(s, self.frequency_mhz_maximum, |f: u64| Setting::FrequencyMhzMaximum(f))
    }

    /// Applies the settings of this delta to `cpu` in order, stopping at the
    /// first that the CPU refuses. The writes are those of the settings
    /// before it, to be performed in order; `Cpu::record` notes each one
    /// that succeeds.
    /// `hardware_minimum_khz` and `hardware_maximum_khz` are the readings of
    /// `cpuinfo_min_freq` and `cpuinfo_max_freq`.
    pub fn apply(&self, cpu: &Cpu, hardware_minimum_khz: Option<u64>, hardware_maximum_khz: Option<u64>) -> (application: Application)
        requires
            self.frequencies_fit(),
        ensures
            ({
                let st = self.settings();
                let c = *cpu;
                let k = application.writes@.len();
                &&& k <= st.len()
                &&& forall|i: int| 0 <= i < k ==> accepts(c, #[trigger] st[i], hardware_minimum_khz, hardware_maximum_khz)
                    && performs(c.number, st[i], application.writes@[i])
                &&& application.error is None <==> k == st.len()
                &&& application.error matches Some(e) ==> !accepts(c, st[k as int], hardware_minimum_khz, hardware_maximum_khz)
                    && refuses(c, st[k as int], e, hardware_minimum_khz, hardware_maximum_khz)
            }),
    {
        let ghost c = *cpu;
        let ghost st = self.settings();
        let mut writes: Vec<SysfsWrite> = Vec::new();
        let ghost s0 = Seq::<Setting>::empty();
        let ghost s1 = push_some(s0, self.governor, |g: String| Setting::Governor(g));
        let ghost s2 = push_some(s1, self.energy_performance_preference, |e: String| Setting::EnergyPerformancePreference(e));
        let ghost s3 = push_some(s2, self.energy_perf_bias, |b: String| Setting::EnergyPerfBias(b));
        let ghost s4 = push_some(s3, self.frequency_mhz_minimum, |f: u64| Setting::FrequencyMhzMinimum(f));
        assert(st == push_some(s4, self.frequency_mhz_maximum, |f: u64| Setting::FrequencyMhzMaximum(f)));
        assert(st.len() >= s4.len() >= s3.len() >= s2.len() >= s1.len());
        assert(forall|i: int| 0 <= i < s4.len() ==> st[i] == s4[i]);
        assert(forall|i: int| 0 <= i < s3.len() ==> s4[i] == s3[i]);
        assert(forall|i: int| 0 <= i < s2.len() ==> s3[i] == s2[i]);
        assert(forall|i: int| 0 <= i < s1.len() ==> s2[i] == s1[i]);
        if let Some(governor) = &self.governor {
            match cpu.set_governor(governor.as_str()) {
                Ok(w) => writes.push(w),
                Err(e) => {
                    return Application { writes, error: Some(e) };
                },
            }
        }
        assert(writes@.len() == s1.len());
        assert(forall|i: int| 0 <= i < writes@.len() ==> accepts(c, #[trigger] st[i], hardware_minimum_khz, hardware_maximum_khz)
            && performs(c.number, st[i], writes@[i]));
        if let Some(epp) = &self.energy_performance_preference {
            match cpu.set_epp(epp.as_str()) {
                Ok(w) => writes.push(w),
                Err(e) => {
                    return Application { writes, error: Some(e) };
                },
            }
        }
        assert(writes@.len() == s2.len());
        assert(forall|i: int| 0 <= i < writes@.len() ==> accepts(c, #[trigger] st[i], hardware_minimum_khz, hardware_maximum_khz)
            && performs(c.number, st[i], writes@[i]));
        if let Some(epb) = &self.energy_perf_bias {
            match cpu.set_epb(epb.as_str()) {
                Ok(w) => writes.push(w),
                Err(e) => {
                    return Application { writes, error: Some(e) };
                },
            }
        }
        assert(writes@.len() == s3.len());
        assert(forall|i: int| 0 <= i < writes@.len() ==> accepts(c, #[trigger] st[i], hardware_minimum_khz, hardware_maximum_khz)
            && performs(c.number, st[i], writes@[i]));
        if let Some(mhz_minimum) = self.frequency_mhz_minimum {
            match cpu.set_frequency_mhz_minimum(mhz_minimum, hardware_minimum_khz) {
                Ok(w) => writes.push(w),
                Err(e) => {
                    return Application { writes, error: Some(e) };
                },
            }
        }
        assert(writes@.len() == s4.len());
        assert(forall|i: int| 0 <= i < writes@.len() ==> accepts(c, #[trigger] st[i], hardware_minimum_khz, hardware_maximum_khz)
            && performs(c.number, st[i], writes@[i]));
        if let Some(mhz_maximum) = self.frequency_mhz_maximum {
            match cpu.set_frequency_mhz_maximum(mhz_maximum, hardware_maximum_khz) {
                Ok(w) => writes.push(w),
                Err(e) => {
                    return Application { writes, error: Some(e) };
                },
            }
        }
        Application { writes, error: None }
    }
}

/// Settings given by a higher-priority delta are kept over those of a
/// lower-priority one, however deltas are grouped: merging is associative.
pub proof fn lemma_delta_or_associative(a: Delta, b: Delta, c: Delta)
    ensures
        a.spec_or(b).spec_or(c) == a.spec_or(b.spec_or(c)),
{
}

/// The delta that sets nothing changes nothing when merged, on either side.
pub proof fn lemma_delta_or_identity(a: Delta)
    ensures
        a.spec_or(Delta::spec_empty()) == a,
        Delta::spec_empty().spec_or(a) == a,
{
}

/// A delta that gives every setting shadows whatever it is merged with.
pub proof fn lemma_delta_or_complete_shadows(a: Delta, b: Delta)
    requires
        a.spec_is_some(),
    ensures
        a.spec_or(b) == a,
{
}

/// A complete delta stays complete once merged.
pub proof fn lemma_delta_or_keeps_complete(a: Delta, b: Delta)
    ensures
        a.spec_is_some() || b.spec_is_some() ==> a.spec_or(b).spec_is_some(),
{
}


/// The number of CPUs available to this process, as `num_cpus::get` counts
/// them; its documentation promises at least one.
#[verifier::external_body]
fn logical_cpu_count() -> (count: usize)
    ensures
        count >= 1,
{
    num_cpus::get()
}

/// The CPU number that a directory entry of `/sys/devices/system/cpu` names:
/// `cpu` followed by a `u32`.
pub open spec fn entry_cpu_number(name: Seq<char>) -> Option<u32> {
    if name.len() >= 3 && name[0] == 'c' && name[1] == 'p' && name[2] == 'u' {
        match parse_unsigned(name.skip(3), u32::MAX as int) {
            Some(n) => Some(n as u32),
            None => None,
        }
    } else {
        None
    }
}

/// The CPU numbers named by `names`, in order.
pub open spec fn entry_cpu_numbers(names: Seq<Seq<char>>) -> Seq<u32>
    decreases names.len(),
{
    if names.len() == 0 {
        seq![]
    } else {
        let before = entry_cpu_numbers(names.drop_last());
        match entry_cpu_number(names.last()) {
            Some(n) => before.push(n),
            None => before,
        }
    }
}

/// The CPUs to manage: those named by the entries, or, when none is, the
/// CPUs `0` to `logical_cpus - 1`.
pub open spec fn spec_cpu_numbers(names: Seq<Seq<char>>, logical_cpus: usize) -> Seq<u32> {
    let found = entry_cpu_numbers(names);
    if found.len() > 0 {
        found
    } else {
        Seq::new((logical_cpus as u32) as nat, |i: int| i as u32)
    }
}

impl Cpu {
    /// The CPU number named by one directory entry, if it names a CPU.
    pub fn number_from_entry_name(name: &str) -> (number: Option<u32>)
        ensures
            number == entry_cpu_number(name@),
    {
        let len = name.unicode_len();
        if len < 3 {
            return None;
        }
        if !(name.get_char(0) == 'c' && name.get_char(1) == 'p' && name.get_char(2) == 'u') {
            return None;
        }
        let rest = name.substring_char(3, len);
        assert(rest@ == name@.skip(3));
        parse_u32(rest)
    }

    /// The CPUs to manage, from the entry names of `/sys/devices/system/cpu`
    /// and the number of logical CPUs to fall back on.
    pub fn numbers_from_entry_names(names: &Vec<String>, logical_cpus: usize) -> (numbers: Vec<u32>)
        ensures
            numbers@ == spec_cpu_numbers(views(names@), logical_cpus),
    {
        let mut numbers: Vec<u32> = Vec::new();
        let mut i: usize = 0;
        while i < names.len()
            invariant
                0 <= i <= names.len(),
                numbers@ == entry_cpu_numbers(views(names@).take(i as int)),
            decreases names.len() - i,
        {
            assert(views(names@).take(i + 1).drop_last() == views(names@).take(i as int));
            if let Some(n) = Cpu::number_from_entry_name(names[i].as_str()) {
                numbers.push(n);
            }
            i = i + 1;
        }
        assert(views(names@).take(names.len() as int) == views(names@));
        if numbers.len() > 0 {
            return numbers;
        }
        let count = logical_cpus as u32;
        let mut k: u32 = 0;
        while k < count
            invariant
                0 <= k <= count,
                count == logical_cpus as u32,
                numbers@ == Seq::new(k as nat, |i: int| i as u32),
            decreases count - k,
        {
            numbers.push(k);
            k = k + 1;
            assert(numbers@ == Seq::new(k as nat, |i: int| i as u32));
        }
        numbers
    }

    /// The CPUs to manage, falling back on the logical CPU count of this
    /// machine when no entry names a CPU.
    pub fn numbers(names: &Vec<String>) -> (numbers: Vec<u32>)
        ensures
            exists|logical_cpus: usize| logical_cpus >= 1 && numbers@ == spec_cpu_numbers(views(names@), logical_cpus),
    {
        let logical_cpus = logical_cpu_count();
        Cpu::numbers_from_entry_names(names, logical_cpus)
    }
}

} // verus!

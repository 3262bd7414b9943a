use vstd::prelude::*;

use std::collections::VecDeque;

use crate::cpu::{spec_stat_from_line, CpuStat};
use crate::text::{
    all_digits, chars_of, contains_chars, has_infix, has_prefix, is_digit, is_unicode_whitespace,
    is_whitespace_char, literal, matches_at, parse_u32, parse_unsigned, string_of_range, trim,
    trim_end, trim_start, skip_whitespace_in,
};

verus! {

/// Whether a line of `s` starts at `p`.
pub open spec fn is_line_start(s: Seq<char>, p: int) -> bool {
    0 <= p <= s.len() && (p == 0 || s[p - 1] == '\n')
}

/// The end of the line of `s` that contains `p`: its newline, or the end of `s`.
pub open spec fn line_end(s: Seq<char>, p: int) -> int
    decreases s.len() - p,
{
    if p < 0 || p >= s.len() {
        s.len() as int
    } else if s[p] == '\n' {
        p
    } else {
        line_end(s, p + 1)
    }
}

/// Whether the line of `s` that starts at `p` begins with `cpu `.
pub open spec fn is_cpu_line(s: Seq<char>, p: int) -> bool {
    is_line_start(s, p) && has_prefix(s.skip(p), "cpu "@)
}

/// Why the aggregate CPU times cannot be read from `/proc/stat`.
#[derive(Debug, Clone, Copy, PartialEq, Eq)]
pub enum StatError {
    /// No line begins with `cpu `.
    NoCpuLine,
    /// The first such line does not hold the times.
    Unparsable,
}

proof fn lemma_line_end<>(s: Seq<char>, p: int, q: int)
    requires
        0 <= p <= q <= s.len(),
        forall|k: int| p <= k < q ==> s[k] != '\n',
    ensures
        line_end(s, p) == line_end(s, q),
    decreases q - p,
{
    if p < q {
        lemma_line_end(s, p + 1, q);
    }
}

impl CpuStat {
    /// Reads the aggregate CPU times from the content of `/proc/stat`: the
    /// first line that begins with `cpu `, read by `from_line` past that
    /// label.
    pub fn from_proc_stat(content: &str) -> (result: Result<CpuStat, StatError>)
        ensures
            (result == Err::<CpuStat, StatError>(StatError::NoCpuLine)) <==> (forall|p: int| !is_cpu_line(content@, p)),
            result matches Ok(stat) ==> exists|p: int| is_cpu_line(content@, p) && (forall|q: int| 0 <= q < p ==> !is_cpu_line(content@, q))
                && spec_stat_from_line(content@.subrange(p + 4, line_end(content@, p))) == Some(stat),
            result == Err::<CpuStat, StatError>(StatError::Unparsable) ==> exists|p: int| is_cpu_line(content@, p) && (forall|q: int| 0 <= q < p ==> !is_cpu_line(content@, q))
                && spec_stat_from_line(content@.subrange(p + 4, line_end(content@, p))) is None,
    {
        proof {
            reveal_strlit("cpu ");
        }
        let v = chars_of(content);
        let label = literal("cpu ");
        assert(label@.len() == 4);
        let n = v.len();
        let mut p: usize = 0;
        while p < n
            invariant
                n == v@.len(),
                v@ == content@,
                label@ == "cpu "@,
                label@.len() == 4,
                0 <= p <= n,
                forall|q: int| 0 <= q < p ==> !is_cpu_line(content@, q),
            decreases n - p,
        {
            if (p == 0 || v[p - 1] == '\n') && matches_at(&v, p, &label) {
                proof {
                    reveal_strlit("cpu ");
                    assert(is_cpu_line(content@, p as int));
                    assert forall|k: int| p <= k < p + 4 implies v@[k] != '\n' by {
                        assert(v@.skip(p as int).take(4)[k - p] == label@[k - p]);
                    }
                }
                let mut e = p + 4;
                while e < n && v[e] != '\n'
                    invariant
                        n == v@.len(),
                        p + 4 <= e <= n,
                        forall|k: int| p <= k < e ==> v@[k] != '\n',
                    decreases n - e,
                {
                    e = e + 1;
                }
                proof {
                    lemma_line_end(v@, p as int, e as int);
                }
                let line = string_of_range(&v, p + 4, e);
                return match CpuStat::from_line(line.as_str()) {
                    Some(stat) => Ok(stat),
                    None => Err(StatError::Unparsable),
                };
            }
            p = p + 1;
        }
        assert forall|q: int| !is_cpu_line(content@, q) by {
            if is_cpu_line(content@, q) && q >= n {
                assert(q == n);
                assert(has_prefix(content@.skip(q), "cpu "@));
            }
        }
        Err(StatError::NoCpuLine)
    }
}


/// Whether the characters of `v` from `start` to `end` spell `lit`.
fn spells(v: &Vec<char>, start: usize, end: usize, lit: &str) -> (equal: bool)
    requires
        start <= end <= v@.len(),
    ensures
        equal == (v@.subrange(start as int, end as int) == lit@),
{
    let l = literal(lit);
    if end - start != l.len() {
        return false;
    }
    let m = matches_at(v, start, &l);
    assert(v@.skip(start as int).take(l@.len() as int) == v@.subrange(start as int, end as int));
    m
}

/// The window of `v` from `start` to `end` with surrounding whitespace
/// dropped.
fn trim_window(v: &Vec<char>) -> (window: (usize, usize))
    ensures
        window.0 <= window.1 <= v@.len(),
        v@.subrange(window.0 as int, window.1 as int) == trim(v@),
{
    let n = v.len();
    let mut i: usize = 0;
    assert(v@.skip(0) == v@);
    while i < n && is_whitespace_char(v[i], false)
        invariant
            n == v@.len(),
            0 <= i <= n,
            trim_start(v@.skip(i as int)) == trim_start(v@),
        decreases n - i,
    {
        assert(v@.skip(i as int).drop_first() == v@.skip(i + 1));
        i = i + 1;
    }
    assert(trim_start(v@) == v@.skip(i as int));
    let mut j: usize = n;
    assert(v@.subrange(i as int, n as int) == v@.skip(i as int));
    while j > i && is_whitespace_char(v[j - 1], false)
        invariant
            n == v@.len(),
            i <= j <= n,
            trim_end(v@.subrange(i as int, j as int)) == trim_end(v@.skip(i as int)),
        decreases j,
    {
        assert(v@.subrange(i as int, j as int).drop_last() == v@.subrange(i as int, j - 1));
        j = j - 1;
    }
    (i, j)
}

/// Whether the chassis type read from `/sys/class/dmi/id/chassis_type`
/// names a desktop form factor: desktop, low profile desktop, pizza box,
/// mini tower, tower, space-saving, lunch box or main server chassis.
pub open spec fn is_desktop_chassis(t: Seq<char>) -> bool {
    t == "3"@ || t == "4"@ || t == "5"@ || t == "6"@ || t == "7"@ || t == "15"@ || t == "16"@ || t == "17"@
}

/// Whether the chassis type names a laptop form factor: laptop, notebook,
/// sub notebook or convertible.
pub open spec fn is_laptop_chassis(t: Seq<char>) -> bool {
    t == "9"@ || t == "10"@ || t == "14"@ || t == "31"@
}

/// Whether this machine is taken for a desktop: by its chassis type when
/// that is known, else not when a battery's ACPI path exists, else yes.
pub open spec fn spec_is_desktop(chassis_type: Option<Seq<char>>, battery_paths_exist: bool) -> bool {
    match chassis_type {
        Some(t) if is_desktop_chassis(trim(t)) => true,
        Some(t) if is_laptop_chassis(trim(t)) => false,
        _ => !battery_paths_exist,
    }
}

/// Decides whether this machine is a desktop, from the content of
/// `/sys/class/dmi/id/chassis_type` (if it can be read), whether one of the
/// battery paths `/sys/class/power_supply/BAT0`, `BAT1` or
/// `/proc/acpi/battery` exists. Whether power saving paths exist does not
/// change the answer: without a battery path it is a desktop either way.
pub fn is_desktop(chassis_type: Option<&str>, battery_paths_exist: bool) -> (desktop: bool)
    ensures
        desktop == spec_is_desktop(
            match chassis_type {
                Some(t) => Some(t@),
                None => None,
            },
            battery_paths_exist,
        ),
{
    if let Some(t) = chassis_type {
        let v = chars_of(t);
        let (a, b) = trim_window(&v);
        if spells(&v, a, b, "3") || spells(&v, a, b, "4") || spells(&v, a, b, "5") || spells(&v, a, b, "6")
            || spells(&v, a, b, "7") || spells(&v, a, b, "15") || spells(&v, a, b, "16") || spells(&v, a, b, "17") {
            return true;
        }
        if spells(&v, a, b, "9") || spells(&v, a, b, "10") || spells(&v, a, b, "14") || spells(&v, a, b, "31") {
            return false;
        }
    }
    !battery_paths_exist
}

/// Whether a hwmon device with this name reports CPU temperatures:
/// `coretemp`, `k10temp`, `zenpower` and `amdgpu`, or any name holding
/// `cpu` or `temp`.
pub open spec fn spec_is_cpu_hwmon(name: Seq<char>) -> bool {
    name == "coretemp"@ || name == "k10temp"@ || name == "zenpower"@ || name == "amdgpu"@
        || has_infix(name, "cpu"@) || has_infix(name, "temp"@)
}

/// Whether the hwmon device named `name` reports CPU temperatures.
pub fn is_cpu_hwmon(name: &str) -> (cpu: bool)
    ensures
        cpu == spec_is_cpu_hwmon(name@),
{
    let v = chars_of(name);
    let n = v.len();
    assert(v@.subrange(0, n as int) == v@);
    spells(&v, 0, n, "coretemp") || spells(&v, 0, n, "k10temp") || spells(&v, 0, n, "zenpower") || spells(&v, 0, n, "amdgpu")
        || contains_chars(&v, &literal("cpu")) || contains_chars(&v, &literal("temp"))
}

/// Whether a directory entry of `/sys/devices/virtual/thermal` is a thermal
/// zone: its name begins with `thermal_zone`.
pub fn is_thermal_zone(entry_name: &str) -> (zone: bool)
    ensures
        zone == has_prefix(entry_name@, "thermal_zone"@),
{
    let v = chars_of(entry_name);
    let m = matches_at(&v, 0, &literal("thermal_zone"));
    assert(v@.skip(0) == v@);
    m
}

/// Whether a thermal zone of this type measures the CPU: its type holds
/// `cpu`, `x86` or `core`.
pub fn is_cpu_thermal_zone(zone_type: &str) -> (cpu: bool)
    ensures
        cpu == (has_infix(zone_type@, "cpu"@) || has_infix(zone_type@, "x86"@) || has_infix(zone_type@, "core"@)),
{
    let v = chars_of(zone_type);
    contains_chars(&v, &literal("cpu")) || contains_chars(&v, &literal("x86")) || contains_chars(&v, &literal("core"))
}


/// `s` without every leading repetition of `p`, as `str::trim_start_matches`.
pub open spec fn strip_all(s: Seq<char>, p: Seq<char>) -> Seq<char>
    decreases s.len(),
{
    if p.len() > 0 && has_prefix(s, p) {
        strip_all(s.skip(p.len() as int), p)
    } else {
        s
    }
}

/// `s` without its leading ASCII digits.
pub open spec fn strip_digits(s: Seq<char>) -> Seq<char>
    decreases s.len(),
{
    if s.len() > 0 && is_digit(s[0]) {
        strip_digits(s.drop_first())
    } else {
        s
    }
}

/// What is left of a hwmon temperature label once its core label is
/// stripped: `cpu`/`CPU`, then `core`/`Core`, then `Tctl`/`Tdie`/`Tccd`,
/// each followed by whitespace; when what is left is not all digits, its
/// leading digits, whitespace and dashes go too.
pub open spec fn label_number_text(label: Seq<char>) -> Seq<char> {
    let a = trim(label);
    let a = trim_start(strip_all(strip_all(a, "cpu"@), "CPU"@));
    let a = trim_start(strip_all(strip_all(a, "core"@), "Core"@));
    let a = trim_start(strip_all(strip_all(strip_all(a, "Tctl"@), "Tdie"@), "Tccd"@));
    if all_digits(a) {
        a
    } else {
        strip_all(trim_start(strip_digits(a)), "-"@)
    }
}

/// The core number that a hwmon temperature label such as `Core 3` names.
pub open spec fn spec_core_number(label: Seq<char>) -> Option<u32> {
    match parse_unsigned(label_number_text(label), u32::MAX as int) {
        Some(n) => Some(n as u32),
        None => None,
    }
}

/// Strips every leading repetition of `p` from the window of `v` from `a` to `b`.
fn strip_all_in(v: &Vec<char>, a: usize, b: usize, p: &Vec<char>) -> (next: usize)
    requires
        a <= b <= v@.len(),
    ensures
        a <= next <= b,
        v@.subrange(next as int, b as int) == strip_all(v@.subrange(a as int, b as int), p@),
{
    if p.len() == 0 {
        return a;
    }
    let mut i = a;
    while i < b && p.len() <= b - i && matches_at(v, i, p)
        invariant
            a <= i <= b <= v@.len(),
            p@.len() > 0,
            strip_all(v@.subrange(i as int, b as int), p@) == strip_all(v@.subrange(a as int, b as int), p@),
        decreases b - i,
    {
        assert(v@.skip(i as int).take(p@.len() as int) == v@.subrange(i as int, b as int).take(p@.len() as int));
        assert(v@.subrange(i as int, b as int).skip(p@.len() as int) == v@.subrange(i + p@.len(), b as int));
        i = i + p.len();
    }
    proof {
        if i < b && p@.len() <= b - i {
            assert(v@.skip(i as int).take(p@.len() as int) == v@.subrange(i as int, b as int).take(p@.len() as int));
        }
    }
    i
}

/// Skips the digits that begin the window of `v` from `a` to `b`.
fn skip_digits_in(v: &Vec<char>, a: usize, b: usize) -> (next: usize)
    requires
        a <= b <= v@.len(),
    ensures
        a <= next <= b,
        v@.subrange(next as int, b as int) == strip_digits(v@.subrange(a as int, b as int)),
{
    let mut i = a;
    while i < b && '0' <= v[i] && v[i] <= '9'
        invariant
            a <= i <= b <= v@.len(),
            strip_digits(v@.subrange(i as int, b as int)) == strip_digits(v@.subrange(a as int, b as int)),
        decreases b - i,
    {
        assert(v@.subrange(i as int, b as int).drop_first() == v@.subrange(i + 1, b as int));
        i = i + 1;
    }
    i
}

/// Whether the window of `v` from `a` to `b` is all digits.
fn all_digits_in(v: &Vec<char>, a: usize, b: usize) -> (digits: bool)
    requires
        a <= b <= v@.len(),
    ensures
        digits == all_digits(v@.subrange(a as int, b as int)),
{
    let mut i = a;
    while i < b
        invariant
            a <= i <= b <= v@.len(),
            forall|k: int| a <= k < i ==> is_digit(v@[k]),
        decreases b - i,
    {
        if !('0' <= v[i] && v[i] <= '9') {
            assert(!is_digit(v@.subrange(a as int, b as int)[i - a]));
            return false;
        }
        i = i + 1;
    }
    assert forall|k: int| 0 <= k < b - a implies is_digit(#[trigger] v@.subrange(a as int, b as int)[k]) by {
        assert(v@.subrange(a as int, b as int)[k] == v@[a + k]);
    }
    true
}

/// The core number that a hwmon temperature label names, if it names one.
pub fn core_number_from_label(label: &str) -> (number: Option<u32>)
    ensures
        number == spec_core_number(label@),
{
    let v = chars_of(label);
    let (a, b) = trim_window(&v);
    let a = strip_all_in(&v, a, b, &literal("cpu"));
    let a = strip_all_in(&v, a, b, &literal("CPU"));
    let a = skip_whitespace_in(&v, a, b);
    let a = strip_all_in(&v, a, b, &literal("core"));
    let a = strip_all_in(&v, a, b, &literal("Core"));
    let a = skip_whitespace_in(&v, a, b);
    let a = strip_all_in(&v, a, b, &literal("Tctl"));
    let a = strip_all_in(&v, a, b, &literal("Tdie"));
    let a = strip_all_in(&v, a, b, &literal("Tccd"));
    let a = skip_whitespace_in(&v, a, b);
    let a = if all_digits_in(&v, a, b) {
        a
    } else {
        let a = skip_digits_in(&v, a, b);
        let a = skip_whitespace_in(&v, a, b);
        strip_all_in(&v, a, b, &literal("-"))
    };
    let text = string_of_range(&v, a, b);
    parse_u32(text.as_str())
}

/// The entries a log keeps of `log` when `entry` is appended: its last
/// `keep` entries (all of them when it has no more), then `entry`.
pub open spec fn appended_log<T>(log: Seq<T>, entry: T, keep: usize) -> Seq<T> {
    if log.len() > keep {
        log.skip(log.len() - keep).push(entry)
    } else {
        log.push(entry)
    }
}

/// A log keeps its newest entries: after appending, it holds `entry` last,
/// preceded by the newest `keep` entries of the log (all of them when it
/// had no more), in their order.
pub proof fn lemma_appended_log_keeps_newest<T>(log: Seq<T>, entry: T, keep: usize)
    ensures
        ({
            let r = appended_log(log, entry, keep);
            let kept = if log.len() > keep { keep as int } else { log.len() as int };
            &&& r.len() == kept + 1
            &&& r[kept] == entry
            &&& forall|i: int| 0 <= i < kept ==> #[trigger] r[i] == log[log.len() - kept + i]
        }),
{
}

/// Appends `entry` to a log of readings, first dropping its oldest entries
/// until at most `keep` remain; a log so kept holds at most `keep + 1`
/// entries, the newest last.
pub fn append_log<T>(log: &mut VecDeque<T>, entry: T, keep: usize)
    ensures
        final(log)@ == appended_log(old(log)@, entry, keep),
        final(log)@.len() <= keep + 1,
        final(log)@.last() == entry,
{
    while log.len() > keep
        invariant
            log@.len() <= old(log)@.len(),
            log@ == old(log)@.skip(old(log)@.len() - log@.len()),
            log@.len() >= keep || log@.len() == old(log)@.len(),
        decreases log@.len(),
    {
        let _ = log.pop_front();
        assert(log@ == old(log)@.skip(old(log)@.len() - log@.len()));
    }
    log.push_back(entry);
}

/// The first key under which thermal-zone readings are recorded, apart from
/// the core numbers that hwmon labels give.
pub open spec fn first_zone_key() -> u32 {
    777
}

/// The keys of the CPU thermal-zone readings: none when hwmon gave any
/// reading (the zones are a fallback), else `777`, `778`, ... for the
/// readable CPU zones in listing order.
pub fn thermal_zone_keys(hwmon_readings: usize, cpu_zones: usize) -> (keys: Vec<u32>)
    requires
        cpu_zones + first_zone_key() <= u32::MAX,
    ensures
        hwmon_readings > 0 ==> keys@.len() == 0,
        hwmon_readings == 0 ==> keys@.len() == cpu_zones,
        hwmon_readings == 0 ==> forall|i: int| 0 <= i < cpu_zones ==> #[trigger] keys@[i] == first_zone_key() + i,
{
    let mut keys: Vec<u32> = Vec::new();
    if hwmon_readings > 0 {
        return keys;
    }
    let mut i: usize = 0;
    while i < cpu_zones
        invariant
            0 <= i <= cpu_zones,
            cpu_zones + first_zone_key() <= u32::MAX,
            keys@.len() == i,
            forall|j: int| 0 <= j < i ==> #[trigger] keys@[j] == first_zone_key() + j,
        decreases cpu_zones - i,
    {
        keys.push(777 + i as u32);
        i = i + 1;
    }
    keys
}

/// The chassis type decides when it names a form factor: a desktop form
/// factor (3, 4, 5, 6, 7, 15, 16 or 17) is a desktop and a laptop form
/// factor (9, 10, 14 or 31) is not, whatever the battery paths say. Any
/// other or unknown chassis type is a desktop exactly when no battery path
/// exists.
pub proof fn lemma_desktop_by_chassis(t: Seq<char>, battery_paths_exist: bool)
    ensures
        ({
            let u = trim(t);
            u == "9"@ || u == "10"@ || u == "14"@ || u == "31"@
        }) ==> !spec_is_desktop(Some(t), battery_paths_exist),
        ({
            let u = trim(t);
            u == "3"@ || u == "4"@ || u == "5"@ || u == "6"@ || u == "7"@ || u == "15"@ || u == "16"@ || u == "17"@
        }) ==> spec_is_desktop(Some(t), battery_paths_exist),
        ({
            let u = trim(t);
            !(u == "9"@ || u == "10"@ || u == "14"@ || u == "31"@ || u == "3"@ || u == "4"@ || u == "5"@ || u == "6"@
                || u == "7"@ || u == "15"@ || u == "16"@ || u == "17"@)
        }) ==> spec_is_desktop(Some(t), battery_paths_exist) == !battery_paths_exist,
        spec_is_desktop(None, battery_paths_exist) == !battery_paths_exist,
{
    reveal_strlit("3");
    reveal_strlit("4");
    reveal_strlit("5");
    reveal_strlit("6");
    reveal_strlit("7");
    reveal_strlit("15");
    reveal_strlit("16");
    reveal_strlit("17");
    reveal_strlit("9");
    reveal_strlit("10");
    reveal_strlit("14");
    reveal_strlit("31");
    let u = trim(t);
        if u == "9"@ {
            assert(u[0] != "3"@[0]);
            assert(u[0] != "4"@[0]);
            assert(u[0] != "5"@[0]);
            assert(u[0] != "6"@[0]);
            assert(u[0] != "7"@[0]);
            assert(u.len() != "15"@.len());
            assert(u.len() != "16"@.len());
            assert(u.len() != "17"@.len());
        }
        if u == "10"@ {
            assert(u.len() != "3"@.len());
            assert(u.len() != "4"@.len());
            assert(u.len() != "5"@.len());
            assert(u.len() != "6"@.len());
            assert(u.len() != "7"@.len());
            assert(u[1] != "15"@[1]);
            assert(u[1] != "16"@[1]);
            assert(u[1] != "17"@[1]);
        }
        if u == "14"@ {
            assert(u.len() != "3"@.len());
            assert(u.len() != "4"@.len());
            assert(u.len() != "5"@.len());
            assert(u.len() != "6"@.len());
            assert(u.len() != "7"@.len());
            assert(u[1] != "15"@[1]);
            assert(u[1] != "16"@[1]);
            assert(u[1] != "17"@[1]);
        }
        if u == "31"@ {
            assert(u.len() != "3"@.len());
            assert(u.len() != "4"@.len());
            assert(u.len() != "5"@.len());
            assert(u.len() != "6"@.len());
            assert(u.len() != "7"@.len());
            assert(u[0] != "15"@[0]);
            assert(u[0] != "16"@[0]);
            assert(u[0] != "17"@[0]);
        }
}

} // verus!

use vstd::prelude::*;

use crate::cpu::{self, Cpu, Delta, DeltaView};
use crate::power_supply::{self, PowerSupply};
use crate::text::views;
use crate::expression::{
    answer, ask, failure_of, number_model, outcome, spec_eval, EvalContext, EvalError, EvalState,
    Expression, Failure, NumberAnswer, NumberQuery, Value,
};

verus! {

/// A setting of the configuration, named in errors.
#[derive(Debug, Clone, Copy, PartialEq, Eq)]
pub enum Field {
    CpuFor,
    CpuGovernor,
    CpuEnergyPerformancePreference,
    CpuEnergyPerfBias,
    CpuFrequencyMhzMinimum,
    CpuFrequencyMhzMaximum,
    CpuTurbo,
    PowerFor,
    PowerChargeThresholdStart,
    PowerChargeThresholdEnd,
    PowerPlatformProfile,
    /// The `if` of a rule.
    Condition,
}

/// Why a configuration cannot be evaluated or loaded.
#[derive(Debug, Clone, PartialEq, Eq)]
pub enum ConfigError {
    /// An expression could not be evaluated.
    Eval(EvalError),
    /// `cpu.for` or `power.for` resolved to undefined.
    Undefined(Field),
    /// A setting resolved to a value that is not of its type.
    WrongType(Field),
    /// An item of `cpu.for` or `power.for` is not of its type.
    WrongItemType(Field),
    /// An item of `cpu.for` is not a whole number.
    InvalidCpuNumber,
    /// Two rules have this priority.
    DuplicatePriority(u16),
}

/// Why a configuration cannot be evaluated, as a mathematical value.
pub enum ConfigFailure {
    Eval(Failure),
    Undefined(Field),
    WrongType(Field),
    WrongItemType(Field),
    InvalidCpuNumber,
    DuplicatePriority(u16),
}

/// A configuration error as a mathematical value.
pub open spec fn config_failure_of(e: ConfigError) -> ConfigFailure {
    match e {
        ConfigError::Eval(x) => ConfigFailure::Eval(failure_of(x)),
        ConfigError::Undefined(f) => ConfigFailure::Undefined(f),
        ConfigError::WrongType(f) => ConfigFailure::WrongType(f),
        ConfigError::WrongItemType(f) => ConfigFailure::WrongItemType(f),
        ConfigError::InvalidCpuNumber => ConfigFailure::InvalidCpuNumber,
        ConfigError::DuplicatePriority(p) => ConfigFailure::DuplicatePriority(p),
    }
}

/// What an optional expression evaluates to; nothing when it is absent.
pub open spec fn opt_eval<N, F: Fn(NumberQuery<N>) -> NumberAnswer<N>>(e: Option<Expression<N>>, state: EvalState<N>, f: F) -> Result<Option<Value<N>>, Failure> {
    match e {
        Some(x) => spec_eval(x, state, f),
        None => Ok(None),
    }
}

/// A setting that must be a string when defined.
pub open spec fn string_setting<N>(r: Result<Option<Value<N>>, Failure>, field: Field) -> Result<Option<Seq<char>>, ConfigFailure> {
    match r {
        Err(e) => Err(ConfigFailure::Eval(e)),
        Ok(None) => Ok(None),
        Ok(Some(Value::String(s))) => Ok(Some(s)),
        Ok(Some(_)) => Err(ConfigFailure::WrongType(field)),
    }
}

/// A setting that must be a boolean when defined.
pub open spec fn boolean_setting<N>(r: Result<Option<Value<N>>, Failure>, field: Field) -> Result<Option<bool>, ConfigFailure> {
    match r {
        Err(e) => Err(ConfigFailure::Eval(e)),
        Ok(None) => Ok(None),
        Ok(Some(Value::Boolean(b))) => Ok(Some(b)),
        Ok(Some(_)) => Err(ConfigFailure::WrongType(field)),
    }
}

/// A setting that must be a number when defined.
pub open spec fn number_setting<N>(r: Result<Option<Value<N>>, Failure>, field: Field) -> Result<Option<N>, ConfigFailure> {
    match r {
        Err(e) => Err(ConfigFailure::Eval(e)),
        Ok(None) => Ok(None),
        Ok(Some(Value::Number(n))) => Ok(Some(n)),
        Ok(Some(_)) => Err(ConfigFailure::WrongType(field)),
    }
}

/// A frequency setting: a number, rounded to whole MHz by the number model.
pub open spec fn megahertz_setting<N, F: Fn(NumberQuery<N>) -> NumberAnswer<N>>(f: F, r: Result<Option<Value<N>>, Failure>, field: Field) -> Result<Option<u64>, ConfigFailure> {
    match number_setting(r, field) {
        Err(e) => Err(e),
        Ok(None) => Ok(None),
        Ok(Some(n)) => match answer(f, NumberQuery::RoundedMegahertz(n)) {
            NumberAnswer::Megahertz(m) => Ok(Some(m)),
            _ => arbitrary(),
        },
    }
}

/// The state of `state` evaluated for `cpu`.
pub open spec fn cpu_state<'p, 'c, N>(state: EvalState<'p, 'c, N>, cpu: &'c Cpu) -> EvalState<'p, 'c, N> {
    EvalState { context: EvalContext::Cpu(cpu), ..state }
}

/// The CPU settings of a rule.
#[derive(Debug)]
pub struct CpusDelta<N> {
    /// The CPUs to apply the changes to; all when absent.
    pub for_: Option<Expression<N>>,
    pub governor: Option<Expression<N>>,
    pub energy_performance_preference: Option<Expression<N>>,
    pub energy_perf_bias: Option<Expression<N>>,
    pub frequency_mhz_minimum: Option<Expression<N>>,
    pub frequency_mhz_maximum: Option<Expression<N>>,
    /// Turbo boost, for all CPUs at once.
    pub turbo: Option<Expression<N>>,
}

/// The CPU numbers that the values of `cpu.for` name, or why they do not.
pub open spec fn cpu_for_numbers<N, F: Fn(NumberQuery<N>) -> NumberAnswer<N>>(items: Seq<Value<N>>, f: F) -> Result<Seq<u32>, ConfigFailure>
    decreases items.len(),
{
    if items.len() == 0 {
        Ok(seq![])
    } else {
        match cpu_for_numbers(items.drop_last(), f) {
            Err(e) => Err(e),
            Ok(ns) => match items.last() {
                Value::Number(n) => match answer(f, NumberQuery::CpuNumber(n)) {
                    NumberAnswer::CpuNumber(Some(k)) => Ok(ns.push(k)),
                    _ => Err(ConfigFailure::InvalidCpuNumber),
                },
                _ => Err(ConfigFailure::WrongItemType(Field::CpuFor)),
            },
        }
    }
}

/// The CPUs of `cpus` whose numbers are among `numbers`, in order.
pub open spec fn select_cpus(cpus: Seq<Cpu>, numbers: Seq<u32>) -> Seq<Cpu>
    decreases cpus.len(),
{
    if cpus.len() == 0 {
        seq![]
    } else {
        let before = select_cpus(cpus.drop_last(), numbers);
        if numbers.contains(cpus.last().number) {
            before.push(cpus.last())
        } else {
            before
        }
    }
}

/// Deltas keyed by CPU number, with their strings as views.
pub open spec fn deltas_view(v: Seq<(u32, Delta)>) -> Seq<(u32, DeltaView)> {
    v.map_values(|p: (u32, Delta)| (p.0, p.1@))
}

impl<N> CpusDelta<N> {
    /// The CPUs that `cpu.for` selects from those of `state`.
    pub open spec fn spec_selected<F: Fn(NumberQuery<N>) -> NumberAnswer<N>>(self, state: EvalState<N>, f: F) -> Result<Seq<Cpu>, ConfigFailure> {
        match self.for_ {
            None => Ok(state.cpus@),
            Some(e) => match spec_eval(e, state, f) {
                Err(x) => Err(ConfigFailure::Eval(x)),
                Ok(None) => Err(ConfigFailure::Undefined(Field::CpuFor)),
                Ok(Some(Value::List(items))) => match cpu_for_numbers(items, f) {
                    Err(x) => Err(x),
                    Ok(ns) => Ok(select_cpus(state.cpus@, ns)),
                },
                Ok(Some(_)) => Err(ConfigFailure::WrongType(Field::CpuFor)),
            },
        }
    }

    /// The delta these settings ask of the CPU that `state` is evaluated for.
    pub open spec fn spec_delta<F: Fn(NumberQuery<N>) -> NumberAnswer<N>>(self, state: EvalState<N>, f: F) -> Result<DeltaView, ConfigFailure> {
        match string_setting(opt_eval(self.governor, state, f), Field::CpuGovernor) {
            Err(e) => Err(e),
            Ok(governor) => match string_setting(opt_eval(self.energy_performance_preference, state, f), Field::CpuEnergyPerformancePreference) {
                Err(e) => Err(e),
                Ok(epp) => match string_setting(opt_eval(self.energy_perf_bias, state, f), Field::CpuEnergyPerfBias) {
                    Err(e) => Err(e),
                    Ok(epb) => match megahertz_setting(f, opt_eval(self.frequency_mhz_minimum, state, f), Field::CpuFrequencyMhzMinimum) {
                        Err(e) => Err(e),
                        Ok(minimum) => match megahertz_setting(f, opt_eval(self.frequency_mhz_maximum, state, f), Field::CpuFrequencyMhzMaximum) {
                            Err(e) => Err(e),
                            Ok(maximum) => Ok(DeltaView {
                                governor,
                                energy_performance_preference: epp,
                                energy_perf_bias: epb,
                                frequency_mhz_minimum: minimum,
                                frequency_mhz_maximum: maximum,
                            }),
                        },
                    },
                },
            },
        }
    }

    /// The deltas of `cpus`, each evaluated for its CPU, in order.
    pub open spec fn spec_deltas<F: Fn(NumberQuery<N>) -> NumberAnswer<N>>(self, cpus: Seq<Cpu>, state: EvalState<N>, f: F) -> Result<Seq<(u32, DeltaView)>, ConfigFailure>
        decreases cpus.len(),
    {
        if cpus.len() == 0 {
            Ok(seq![])
        } else {
            match self.spec_deltas(cpus.drop_last(), state, f) {
                Err(e) => Err(e),
                Ok(ds) => {
                    let c = cpus.last();
                    match self.spec_delta(cpu_state(state, &c), f) {
                        Err(e) => Err(e),
                        Ok(d) => Ok(ds.push((c.number, d))),
                    }
                },
            }
        }
    }

    /// What these settings ask: a delta for each selected CPU, and turbo.
    pub open spec fn spec_eval<F: Fn(NumberQuery<N>) -> NumberAnswer<N>>(self, state: EvalState<N>, f: F) -> Result<(Seq<(u32, DeltaView)>, Option<bool>), ConfigFailure> {
        match self.spec_selected(state, f) {
            Err(e) => Err(e),
            Ok(cpus) => match self.spec_deltas(cpus, state, f) {
                Err(e) => Err(e),
                Ok(ds) => match boolean_setting(opt_eval(self.turbo, state, f), Field::CpuTurbo) {
                    Err(e) => Err(e),
                    Ok(turbo) => Ok((ds, turbo)),
                },
            },
        }
    }
}


/// An outcome with its error as a `ConfigFailure`.
pub open spec fn lifted_config<T>(r: Result<T, ConfigError>) -> Result<T, ConfigFailure> {
    match r {
        Ok(t) => Ok(t),
        Err(e) => Err(config_failure_of(e)),
    }
}

/// Evaluates an optional expression.
fn eval_optional<N: Copy, F: Fn(NumberQuery<N>) -> NumberAnswer<N>>(e: &Option<Expression<N>>, state: &EvalState<N>, numbers: &F) -> (r: Result<Option<Expression<N>>, EvalError>)
    requires
        number_model(*numbers),
    ensures
        outcome(r) == opt_eval(*e, *state, *numbers),
{
    match e {
        Some(x) => x.eval(state, numbers),
        None => Ok(None),
    }
}

/// The string a setting evaluated to (see `string_setting`).
fn string_of<N: Copy>(r: Result<Option<Expression<N>>, EvalError>, field: Field) -> (s: Result<Option<String>, ConfigError>)
    ensures
        match s {
            Ok(Some(v)) => string_setting(outcome(r), field) == Ok::<Option<Seq<char>>, ConfigFailure>(Some(v@)),
            Ok(None) => string_setting(outcome(r), field) == Ok::<Option<Seq<char>>, ConfigFailure>(None),
            Err(e) => string_setting(outcome(r), field) == Err::<Option<Seq<char>>, ConfigFailure>(config_failure_of(e)),
        },
{
    match r {
        Err(e) => Err(ConfigError::Eval(e)),
        Ok(None) => Ok(None),
        Ok(Some(Expression::String(v))) => Ok(Some(v)),
        Ok(Some(_)) => Err(ConfigError::WrongType(field)),
    }
}

/// The boolean a setting evaluated to (see `boolean_setting`).
fn boolean_of<N: Copy>(r: Result<Option<Expression<N>>, EvalError>, field: Field) -> (b: Result<Option<bool>, ConfigError>)
    ensures
        lifted_config(b) == boolean_setting(outcome(r), field),
{
    match r {
        Err(e) => Err(ConfigError::Eval(e)),
        Ok(None) => Ok(None),
        Ok(Some(Expression::Boolean(v))) => Ok(Some(v)),
        Ok(Some(_)) => Err(ConfigError::WrongType(field)),
    }
}

/// The number a setting evaluated to (see `number_setting`).
fn number_of_setting<N: Copy>(r: Result<Option<Expression<N>>, EvalError>, field: Field) -> (n: Result<Option<N>, ConfigError>)
    ensures
        lifted_config(n) == number_setting(outcome(r), field),
{
    match r {
        Err(e) => Err(ConfigError::Eval(e)),
        Ok(None) => Ok(None),
        Ok(Some(Expression::Number(v))) => Ok(Some(v)),
        Ok(Some(_)) => Err(ConfigError::WrongType(field)),
    }
}

/// The frequency a setting evaluated to (see `megahertz_setting`).
fn megahertz_of<N: Copy, F: Fn(NumberQuery<N>) -> NumberAnswer<N>>(r: Result<Option<Expression<N>>, EvalError>, field: Field, numbers: &F) -> (m: Result<Option<u64>, ConfigError>)
    requires
        number_model(*numbers),
    ensures
        lifted_config(m) == megahertz_setting(*numbers, outcome(r), field),
{
    match number_of_setting(r, field) {
        Err(e) => Err(e),
        Ok(None) => Ok(None),
        Ok(Some(n)) => match ask(numbers, NumberQuery::RoundedMegahertz(n)) {
            NumberAnswer::Megahertz(m) => Ok(Some(m)),
            _ => unreached(),
        },
    }
}

/// Whether `numbers` holds `n`.
fn contains_number(numbers: &Vec<u32>, n: u32) -> (found: bool)
    ensures
        found == numbers@.contains(n),
{
    let mut i: usize = 0;
    while i < numbers.len()
        invariant
            0 <= i <= numbers@.len(),
            forall|j: int| 0 <= j < i ==> numbers@[j] != n,
        decreases numbers@.len() - i,
    {
        if numbers[i] == n {
            return true;
        }
        i = i + 1;
    }
    false
}

impl<N: Copy> CpusDelta<N> {
    /// The delta these settings ask of the CPU that `state` is evaluated for.
    fn eval_delta<F: Fn(NumberQuery<N>) -> NumberAnswer<N>>(&self, state: &EvalState<N>, numbers: &F) -> (result: Result<Delta, ConfigError>)
        requires
            number_model(*numbers),
        ensures
            match result {
                Ok(d) => self.spec_delta(*state, *numbers) == Ok::<DeltaView, ConfigFailure>(d@),
                Err(e) => self.spec_delta(*state, *numbers) == Err::<DeltaView, ConfigFailure>(config_failure_of(e)),
            },
    {
        let governor = match string_of(eval_optional(&self.governor, state, numbers), Field::CpuGovernor) {
            Err(e) => return Err(e),
            Ok(g) => g,
        };
        let epp = match string_of(eval_optional(&self.energy_performance_preference, state, numbers), Field::CpuEnergyPerformancePreference) {
            Err(e) => return Err(e),
            Ok(g) => g,
        };
        let epb = match string_of(eval_optional(&self.energy_perf_bias, state, numbers), Field::CpuEnergyPerfBias) {
            Err(e) => return Err(e),
            Ok(g) => g,
        };
        let minimum = match megahertz_of(eval_optional(&self.frequency_mhz_minimum, state, numbers), Field::CpuFrequencyMhzMinimum, numbers) {
            Err(e) => return Err(e),
            Ok(m) => m,
        };
        let maximum = match megahertz_of(eval_optional(&self.frequency_mhz_maximum, state, numbers), Field::CpuFrequencyMhzMaximum, numbers) {
            Err(e) => return Err(e),
            Ok(m) => m,
        };
        Ok(
            Delta {
                governor,
                energy_performance_preference: epp,
                energy_perf_bias: epb,
                frequency_mhz_minimum: minimum,
                frequency_mhz_maximum: maximum,
            },
        )
    }

    /// The CPUs of `state` that `cpu.for` selects.
    fn selected<'a, F: Fn(NumberQuery<N>) -> NumberAnswer<N>>(&self, state: &EvalState<'a, '_, N>, numbers: &F) -> (result: Result<Vec<&'a Cpu>, ConfigError>)
        requires
            number_model(*numbers),
        ensures
            match result {
                Ok(cpus) => self.spec_selected(*state, *numbers) == Ok::<Seq<Cpu>, ConfigFailure>(cpus@.map_values(|c: &Cpu| *c)),
                Err(e) => self.spec_selected(*state, *numbers) == Err::<Seq<Cpu>, ConfigFailure>(config_failure_of(e)),
            },
    {
        let wanted: Option<Vec<u32>> = match &self.for_ {
            None => None,
            Some(e) => {
                let items = match e.eval(state, numbers) {
                    Err(x) => return Err(ConfigError::Eval(x)),
                    Ok(None) => return Err(ConfigError::Undefined(Field::CpuFor)),
                    Ok(Some(Expression::List(items))) => items,
                    Ok(Some(_)) => return Err(ConfigError::WrongType(Field::CpuFor)),
                };
                let ghost values = crate::expression::values_of(items@);
                proof {
                    crate::expression::lemma_values_of(items@);
                }
                let mut wanted: Vec<u32> = Vec::new();
                let mut i: usize = 0;
                while i < items.len()
                    invariant
                        0 <= i <= items@.len(),
                        number_model(*numbers),
                        values == crate::expression::values_of(items@),
                        values.len() == items@.len(),
                        forall|k: int| 0 <= k < items@.len() ==> #[trigger] values[k] == crate::expression::value_of(items@[k]),
                        cpu_for_numbers(values.take(i as int), *numbers) == Ok::<Seq<u32>, ConfigFailure>(wanted@),
                        self.for_ == Some(*e),
                        spec_eval(*e, *state, *numbers) == Ok::<Option<Value<N>>, Failure>(Some(Value::List(values))),
                    decreases items@.len() - i,
                {
                    assert(values.take(i + 1).drop_last() == values.take(i as int));
                    assert(values.take(i + 1).last() == values[i as int]);
                    let n = match &items[i] {
                        Expression::Number(n) => *n,
                        _ => {
                            proof {
                                lemma_cpu_for_numbers_err(values, i as int, *numbers);
                            }
                            return Err(ConfigError::WrongItemType(Field::CpuFor));
                        },
                    };
                    match ask(numbers, NumberQuery::CpuNumber(n)) {
                        NumberAnswer::CpuNumber(Some(k)) => wanted.push(k),
                        _ => {
                            proof {
                                lemma_cpu_for_numbers_err(values, i as int, *numbers);
                            }
                            return Err(ConfigError::InvalidCpuNumber);
                        },
                    }
                    i = i + 1;
                }
                assert(values.take(items@.len() as int) == values);
                Some(wanted)
            },
        };
        let mut selected: Vec<&'a Cpu> = Vec::new();
        let mut i: usize = 0;
        while i < state.cpus.len()
            invariant
                0 <= i <= state.cpus@.len(),
                selected@.map_values(|c: &Cpu| *c) == match wanted {
                    Some(w) => select_cpus(state.cpus@.take(i as int), w@),
                    None => state.cpus@.take(i as int),
                },
            decreases state.cpus@.len() - i,
        {
            let cpu: &'a Cpu = &state.cpus[i];
            assert(state.cpus@.take(i + 1).drop_last() == state.cpus@.take(i as int));
            let keep = match &wanted {
                Some(w) => contains_number(w, cpu.number),
                None => true,
            };
            let ghost before = selected@;
            if keep {
                selected.push(cpu);
                assert(selected@.map_values(|c: &Cpu| *c) == before.map_values(|c: &Cpu| *c).push(*cpu));
            }
            i = i + 1;
        }
        assert(state.cpus@.take(state.cpus@.len() as int) == state.cpus@);
        Ok(selected)
    }
}

/// Once an item of `cpu.for` is refused, the whole of it is, for the same
/// reason.
proof fn lemma_cpu_for_numbers_err<N, F: Fn(NumberQuery<N>) -> NumberAnswer<N>>(values: Seq<Value<N>>, i: int, f: F)
    requires
        0 <= i < values.len(),
        cpu_for_numbers(values.take(i + 1), f) is Err,
    ensures
        cpu_for_numbers(values, f) == cpu_for_numbers(values.take(i + 1), f),
{
    lemma_cpu_for_numbers_prefix_err(values, i + 1, values.len() as int, f);
    assert(values.take(values.len() as int) == values);
}

proof fn lemma_cpu_for_numbers_prefix_err<N, F: Fn(NumberQuery<N>) -> NumberAnswer<N>>(values: Seq<Value<N>>, k: int, j: int, f: F)
    requires
        0 <= k <= j <= values.len(),
        cpu_for_numbers(values.take(k), f) is Err,
    ensures
        cpu_for_numbers(values.take(j), f) == cpu_for_numbers(values.take(k), f),
    decreases j - k,
{
    if j > k {
        lemma_cpu_for_numbers_prefix_err(values, k, j - 1, f);
        assert(values.take(j).drop_last() == values.take(j - 1));
    }
}


impl<N: Copy> CpusDelta<N> {
    /// A refusal for one CPU refuses the deltas of all.
    proof fn lemma_deltas_err<F: Fn(NumberQuery<N>) -> NumberAnswer<N>>(self, cpus: Seq<Cpu>, k: int, j: int, state: EvalState<N>, f: F)
        requires
            0 <= k <= j <= cpus.len(),
            self.spec_deltas(cpus.take(k), state, f) is Err,
        ensures
            self.spec_deltas(cpus.take(j), state, f) == self.spec_deltas(cpus.take(k), state, f),
        decreases j - k,
    {
        if j > k {
            self.lemma_deltas_err(cpus, k, j - 1, state, f);
            assert(cpus.take(j).drop_last() == cpus.take(j - 1));
        }
    }

    /// Evaluates these settings against `state`: the delta of each CPU that
    /// `cpu.for` selects (all CPUs of `state` when absent), each evaluated
    /// for its CPU, in the order of `state.cpus`; and turbo, evaluated
    /// against `state` itself. Exactly `spec_eval`.
    pub fn eval<F: Fn(NumberQuery<N>) -> NumberAnswer<N>>(&self, state: &EvalState<N>, numbers: &F) -> (result: Result<(Vec<(u32, Delta)>, Option<bool>), ConfigError>)
        requires
            number_model(*numbers),
        ensures
            match result {
                Ok((ds, turbo)) => self.spec_eval(*state, *numbers) == Ok::<(Seq<(u32, DeltaView)>, Option<bool>), ConfigFailure>((deltas_view(ds@), turbo)),
                Err(e) => self.spec_eval(*state, *numbers) == Err::<(Seq<(u32, DeltaView)>, Option<bool>), ConfigFailure>(config_failure_of(e)),
            },
    {
        let cpus = match self.selected(state, numbers) {
            Err(e) => return Err(e),
            Ok(cpus) => cpus,
        };
        let ghost sel = cpus@.map_values(|c: &Cpu| *c);
        let mut deltas: Vec<(u32, Delta)> = Vec::new();
        let mut i: usize = 0;
        assert(sel.take(0) == Seq::<Cpu>::empty());
        assert(deltas_view(deltas@) == Seq::<(u32, DeltaView)>::empty());
        while i < cpus.len()
            invariant
                0 <= i <= cpus@.len(),
                number_model(*numbers),
                sel == cpus@.map_values(|c: &Cpu| *c),
                self.spec_selected(*state, *numbers) == Ok::<Seq<Cpu>, ConfigFailure>(sel),
                self.spec_deltas(sel.take(i as int), *state, *numbers) == Ok::<Seq<(u32, DeltaView)>, ConfigFailure>(deltas_view(deltas@)),
            decreases cpus@.len() - i,
        {
            let cpu: &Cpu = cpus[i];
            assert(sel.take(i + 1).drop_last() == sel.take(i as int));
            assert(sel.take(i + 1).last() == *cpu);
            let cpu_state = state.in_context(EvalContext::Cpu(cpu));
            match self.eval_delta(&cpu_state, numbers) {
                Err(e) => {
                    proof {
                        self.lemma_deltas_err(sel, i + 1, sel.len() as int, *state, *numbers);
                        assert(sel.take(sel.len() as int) == sel);
                    }
                    return Err(e);
                },
                Ok(d) => {
                    let ghost before = deltas@;
                    deltas.push((cpu.number, d));
                    assert(deltas_view(deltas@) == deltas_view(before).push((cpu.number, d@)));
                },
            }
            i = i + 1;
        }
        assert(sel.take(cpus@.len() as int) == sel);
        let turbo = match boolean_of(eval_optional(&self.turbo, state, numbers), Field::CpuTurbo) {
            Err(e) => return Err(e),
            Ok(t) => t,
        };
        Ok((deltas, turbo))
    }
}


/// The power supply settings of a rule.
#[derive(Debug)]
pub struct PowersDelta<N> {
    /// The power supplies to apply the changes to, by name; all when absent.
    pub for_: Option<Expression<N>>,
    /// The percentage under which charging starts.
    pub charge_threshold_start: Option<Expression<N>>,
    /// The percentage at which charging stops.
    pub charge_threshold_end: Option<Expression<N>>,
    /// The ACPI platform profile, for all power supplies at once.
    pub platform_profile: Option<Expression<N>>,
}

/// The names that the values of `power.for` give, or why they do not.
pub open spec fn power_for_names<N>(items: Seq<Value<N>>) -> Result<Seq<Seq<char>>, ConfigFailure>
    decreases items.len(),
{
    if items.len() == 0 {
        Ok(seq![])
    } else {
        match power_for_names(items.drop_last()) {
            Err(e) => Err(e),
            Ok(ns) => match items.last() {
                Value::String(s) => Ok(ns.push(s)),
                _ => Err(ConfigFailure::WrongItemType(Field::PowerFor)),
            },
        }
    }
}

/// The power supplies of `supplies` whose names are among `names`, in order.
pub open spec fn select_supplies(supplies: Seq<PowerSupply>, names: Seq<Seq<char>>) -> Seq<PowerSupply>
    decreases supplies.len(),
{
    if supplies.len() == 0 {
        seq![]
    } else {
        let before = select_supplies(supplies.drop_last(), names);
        if names.contains(supplies.last().name@) {
            before.push(supplies.last())
        } else {
            before
        }
    }
}

/// The state of `state` evaluated for `supply`.
pub open spec fn supply_state<'p, 'c, N>(state: EvalState<'p, 'c, N>, supply: &'c PowerSupply) -> EvalState<'p, 'c, N> {
    EvalState { context: EvalContext::PowerSupply(supply), ..state }
}

/// A charge threshold: a percentage, as a fraction by the number model.
pub open spec fn threshold_setting<N, F: Fn(NumberQuery<N>) -> NumberAnswer<N>>(f: F, r: Result<Option<Value<N>>, Failure>, field: Field) -> Result<Option<N>, ConfigFailure> {
    match number_setting(r, field) {
        Err(e) => Err(e),
        Ok(None) => Ok(None),
        Ok(Some(n)) => match answer(f, NumberQuery::Hundredth(n)) {
            NumberAnswer::Number(m) => Ok(Some(m)),
            _ => arbitrary(),
        },
    }
}

/// Power supply deltas keyed by name, with the names as views.
pub open spec fn supply_deltas_view<N>(v: Seq<(String, power_supply::Delta<N>)>) -> Seq<(Seq<char>, power_supply::Delta<N>)> {
    v.map_values(|p: (String, power_supply::Delta<N>)| (p.0@, p.1))
}

impl<N> PowersDelta<N> {
    /// The power supplies that `power.for` selects from those of `state`.
    pub open spec fn spec_selected<F: Fn(NumberQuery<N>) -> NumberAnswer<N>>(self, state: EvalState<N>, f: F) -> Result<Seq<PowerSupply>, ConfigFailure> {
        match self.for_ {
            None => Ok(state.power_supplies@),
            Some(e) => match spec_eval(e, state, f) {
                Err(x) => Err(ConfigFailure::Eval(x)),
                Ok(None) => Err(ConfigFailure::Undefined(Field::PowerFor)),
                Ok(Some(Value::List(items))) => match power_for_names(items) {
                    Err(x) => Err(x),
                    Ok(ns) => Ok(select_supplies(state.power_supplies@, ns)),
                },
                Ok(Some(_)) => Err(ConfigFailure::WrongType(Field::PowerFor)),
            },
        }
    }

    /// The delta these settings ask of the power supply that `state` is
    /// evaluated for.
    pub open spec fn spec_delta<F: Fn(NumberQuery<N>) -> NumberAnswer<N>>(self, state: EvalState<N>, f: F) -> Result<power_supply::Delta<N>, ConfigFailure> {
        match threshold_setting(f, opt_eval(self.charge_threshold_start, state, f), Field::PowerChargeThresholdStart) {
            Err(e) => Err(e),
            Ok(start) => match threshold_setting(f, opt_eval(self.charge_threshold_end, state, f), Field::PowerChargeThresholdEnd) {
                Err(e) => Err(e),
                Ok(end) => Ok(power_supply::Delta { charge_threshold_start: start, charge_threshold_end: end }),
            },
        }
    }

    /// The deltas of `supplies`, each evaluated for its power supply.
    pub open spec fn spec_deltas<F: Fn(NumberQuery<N>) -> NumberAnswer<N>>(self, supplies: Seq<PowerSupply>, state: EvalState<N>, f: F) -> Result<Seq<(Seq<char>, power_supply::Delta<N>)>, ConfigFailure>
        decreases supplies.len(),
    {
        if supplies.len() == 0 {
            Ok(seq![])
        } else {
            match self.spec_deltas(supplies.drop_last(), state, f) {
                Err(e) => Err(e),
                Ok(ds) => {
                    let p = supplies.last();
                    match self.spec_delta(supply_state(state, &p), f) {
                        Err(e) => Err(e),
                        Ok(d) => Ok(ds.push((p.name@, d))),
                    }
                },
            }
        }
    }

    /// What these settings ask: a delta for each selected power supply, and
    /// the platform profile.
    pub open spec fn spec_eval<F: Fn(NumberQuery<N>) -> NumberAnswer<N>>(self, state: EvalState<N>, f: F) -> Result<(Seq<(Seq<char>, power_supply::Delta<N>)>, Option<Seq<char>>), ConfigFailure> {
        match self.spec_selected(state, f) {
            Err(e) => Err(e),
            Ok(supplies) => match self.spec_deltas(supplies, state, f) {
                Err(e) => Err(e),
                Ok(ds) => match string_setting(opt_eval(self.platform_profile, state, f), Field::PowerPlatformProfile) {
                    Err(e) => Err(e),
                    Ok(profile) => Ok((ds, profile)),
                },
            },
        }
    }
}

/// Once an item of `power.for` is refused, the whole of it is.
proof fn lemma_power_for_names_err<N>(values: Seq<Value<N>>, k: int, j: int)
    requires
        0 <= k <= j <= values.len(),
        power_for_names(values.take(k)) is Err,
    ensures
        power_for_names(values.take(j)) == power_for_names(values.take(k)),
    decreases j - k,
{
    if j > k {
        lemma_power_for_names_err(values, k, j - 1);
        assert(values.take(j).drop_last() == values.take(j - 1));
    }
}

/// The charge threshold a setting evaluated to (see `threshold_setting`).
fn threshold_of<N: Copy, F: Fn(NumberQuery<N>) -> NumberAnswer<N>>(r: Result<Option<Expression<N>>, EvalError>, field: Field, numbers: &F) -> (m: Result<Option<N>, ConfigError>)
    requires
        number_model(*numbers),
    ensures
        lifted_config(m) == threshold_setting(*numbers, outcome(r), field),
{
    match number_of_setting(r, field) {
        Err(e) => Err(e),
        Ok(None) => Ok(None),
        Ok(Some(n)) => match ask(numbers, NumberQuery::Hundredth(n)) {
            NumberAnswer::Number(m) => Ok(Some(m)),
            _ => unreached(),
        },
    }
}

impl<N: Copy> PowersDelta<N> {
    proof fn lemma_deltas_err<F: Fn(NumberQuery<N>) -> NumberAnswer<N>>(self, supplies: Seq<PowerSupply>, k: int, j: int, state: EvalState<N>, f: F)
        requires
            0 <= k <= j <= supplies.len(),
            self.spec_deltas(supplies.take(k), state, f) is Err,
        ensures
            self.spec_deltas(supplies.take(j), state, f) == self.spec_deltas(supplies.take(k), state, f),
        decreases j - k,
    {
        if j > k {
            self.lemma_deltas_err(supplies, k, j - 1, state, f);
            assert(supplies.take(j).drop_last() == supplies.take(j - 1));
        }
    }

    /// The power supplies of `state` that `power.for` selects.
    fn selected<'a, F: Fn(NumberQuery<N>) -> NumberAnswer<N>>(&self, state: &EvalState<'a, '_, N>, numbers: &F) -> (result: Result<Vec<&'a PowerSupply>, ConfigError>)
        requires
            number_model(*numbers),
        ensures
            match result {
                Ok(ps) => self.spec_selected(*state, *numbers) == Ok::<Seq<PowerSupply>, ConfigFailure>(ps@.map_values(|p: &PowerSupply| *p)),
                Err(e) => self.spec_selected(*state, *numbers) == Err::<Seq<PowerSupply>, ConfigFailure>(config_failure_of(e)),
            },
    {
        let wanted: Option<Vec<String>> = match &self.for_ {
            None => None,
            Some(e) => {
                let items = match e.eval(state, numbers) {
                    Err(x) => return Err(ConfigError::Eval(x)),
                    Ok(None) => return Err(ConfigError::Undefined(Field::PowerFor)),
                    Ok(Some(Expression::List(items))) => items,
                    Ok(Some(_)) => return Err(ConfigError::WrongType(Field::PowerFor)),
                };
                let ghost values = crate::expression::values_of(items@);
                proof {
                    crate::expression::lemma_values_of(items@);
                }
                let mut wanted: Vec<String> = Vec::new();
                let mut i: usize = 0;
                assert(values.take(0) == Seq::<Value<N>>::empty());
                assert(views(wanted@) == Seq::<Seq<char>>::empty());
                while i < items.len()
                    invariant
                        0 <= i <= items@.len(),
                        values == crate::expression::values_of(items@),
                        values.len() == items@.len(),
                        forall|k: int| 0 <= k < items@.len() ==> #[trigger] values[k] == crate::expression::value_of(items@[k]),
                        power_for_names(values.take(i as int)) == Ok::<Seq<Seq<char>>, ConfigFailure>(views(wanted@)),
                        self.for_ == Some(*e),
                        spec_eval(*e, *state, *numbers) == Ok::<Option<Value<N>>, Failure>(Some(Value::List(values))),
                    decreases items@.len() - i,
                {
                    assert(values.take(i + 1).drop_last() == values.take(i as int));
                    assert(values.take(i + 1).last() == values[i as int]);
                    match &items[i] {
                        Expression::String(name) => {
                            let ghost before = wanted@;
                            wanted.push(cpu::copy_str(name.as_str()));
                            assert(views(wanted@) == views(before).push(name@));
                        },
                        _ => {
                            proof {
                                lemma_power_for_names_err(values, i + 1, values.len() as int);
                                assert(values.take(values.len() as int) == values);
                            }
                            return Err(ConfigError::WrongItemType(Field::PowerFor));
                        },
                    }
                    i = i + 1;
                }
                assert(values.take(items@.len() as int) == values);
                Some(wanted)
            },
        };
        let mut selected: Vec<&'a PowerSupply> = Vec::new();
        let mut i: usize = 0;
        while i < state.power_supplies.len()
            invariant
                0 <= i <= state.power_supplies@.len(),
                selected@.map_values(|p: &PowerSupply| *p) == match wanted {
                    Some(w) => select_supplies(state.power_supplies@.take(i as int), views(w@)),
                    None => state.power_supplies@.take(i as int),
                },
            decreases state.power_supplies@.len() - i,
        {
            let supply: &'a PowerSupply = &state.power_supplies[i];
            assert(state.power_supplies@.take(i + 1).drop_last() == state.power_supplies@.take(i as int));
            let keep = match &wanted {
                Some(w) => crate::text::contains_str(w, supply.name.as_str()),
                None => true,
            };
            let ghost before = selected@;
            if keep {
                selected.push(supply);
                assert(selected@.map_values(|p: &PowerSupply| *p) == before.map_values(|p: &PowerSupply| *p).push(*supply));
            }
            i = i + 1;
        }
        assert(state.power_supplies@.take(state.power_supplies@.len() as int) == state.power_supplies@);
        Ok(selected)
    }

    /// The delta these settings ask of the power supply `state` is for.
    fn eval_delta<F: Fn(NumberQuery<N>) -> NumberAnswer<N>>(&self, state: &EvalState<N>, numbers: &F) -> (result: Result<power_supply::Delta<N>, ConfigError>)
        requires
            number_model(*numbers),
        ensures
            lifted_config(result) == self.spec_delta(*state, *numbers),
    {
        let start = match threshold_of(eval_optional(&self.charge_threshold_start, state, numbers), Field::PowerChargeThresholdStart, numbers) {
            Err(e) => return Err(e),
            Ok(t) => t,
        };
        let end = match threshold_of(eval_optional(&self.charge_threshold_end, state, numbers), Field::PowerChargeThresholdEnd, numbers) {
            Err(e) => return Err(e),
            Ok(t) => t,
        };
        Ok(power_supply::Delta { charge_threshold_start: start, charge_threshold_end: end })
    }

    /// Evaluates these settings against `state`: the delta of each power
    /// supply that `power.for` selects by name (all of `state` when absent),
    /// each evaluated for its power supply, in order; and the platform
    /// profile, evaluated against `state` itself. Exactly `spec_eval`.
    pub fn eval<F: Fn(NumberQuery<N>) -> NumberAnswer<N>>(&self, state: &EvalState<N>, numbers: &F) -> (result: Result<(Vec<(String, power_supply::Delta<N>)>, Option<String>), ConfigError>)
        requires
            number_model(*numbers),
        ensures
            match result {
                Ok((ds, profile)) => self.spec_eval(*state, *numbers) == Ok::<(Seq<(Seq<char>, power_supply::Delta<N>)>, Option<Seq<char>>), ConfigFailure>((supply_deltas_view(ds@), cpu::opt_view(profile))),
                Err(e) => self.spec_eval(*state, *numbers) == Err::<(Seq<(Seq<char>, power_supply::Delta<N>)>, Option<Seq<char>>), ConfigFailure>(config_failure_of(e)),
            },
    {
        let supplies = match self.selected(state, numbers) {
            Err(e) => return Err(e),
            Ok(s) => s,
        };
        let ghost sel = supplies@.map_values(|p: &PowerSupply| *p);
        let mut deltas: Vec<(String, power_supply::Delta<N>)> = Vec::new();
        let mut i: usize = 0;
        assert(sel.take(0) == Seq::<PowerSupply>::empty());
        assert(supply_deltas_view(deltas@) == Seq::<(Seq<char>, power_supply::Delta<N>)>::empty());
        while i < supplies.len()
            invariant
                0 <= i <= supplies@.len(),
                number_model(*numbers),
                sel == supplies@.map_values(|p: &PowerSupply| *p),
                self.spec_selected(*state, *numbers) == Ok::<Seq<PowerSupply>, ConfigFailure>(sel),
                self.spec_deltas(sel.take(i as int), *state, *numbers) == Ok::<Seq<(Seq<char>, power_supply::Delta<N>)>, ConfigFailure>(supply_deltas_view(deltas@)),
            decreases supplies@.len() - i,
        {
            let supply: &PowerSupply = supplies[i];
            assert(sel.take(i + 1).drop_last() == sel.take(i as int));
            assert(sel.take(i + 1).last() == *supply);
            let supply_state = state.in_context(EvalContext::PowerSupply(supply));
            match self.eval_delta(&supply_state, numbers) {
                Err(e) => {
                    proof {
                        self.lemma_deltas_err(sel, i + 1, sel.len() as int, *state, *numbers);
                        assert(sel.take(sel.len() as int) == sel);
                    }
                    return Err(e);
                },
                Ok(d) => {
                    let ghost before = deltas@;
                    deltas.push((cpu::copy_str(supply.name.as_str()), d));
                    assert(supply_deltas_view(deltas@) == supply_deltas_view(before).push((supply.name@, d)));
                },
            }
            i = i + 1;
        }
        assert(sel.take(supplies@.len() as int) == sel);
        let profile = match string_of(eval_optional(&self.platform_profile, state, numbers), Field::PowerPlatformProfile) {
            Err(e) => return Err(e),
            Ok(p) => p,
        };
        Ok((deltas, profile))
    }
}


/// A rule: when its condition holds, the settings it asks.
#[derive(Debug)]
pub struct Rule<N> {
    pub name: String,
    /// Higher priorities shadow lower ones.
    pub priority: u16,
    /// The condition; true when the configuration gives none.
    pub condition: Expression<N>,
    pub cpu: CpusDelta<N>,
    pub power: PowersDelta<N>,
}

impl<N> Default for CpusDelta<N> {
    fn default() -> (d: Self)
        ensures
            d.for_ is None && d.governor is None && d.energy_performance_preference is None && d.energy_perf_bias is None
                && d.frequency_mhz_minimum is None && d.frequency_mhz_maximum is None && d.turbo is None,
    {
        CpusDelta {
            for_: None,
            governor: None,
            energy_performance_preference: None,
            energy_perf_bias: None,
            frequency_mhz_minimum: None,
            frequency_mhz_maximum: None,
            turbo: None,
        }
    }
}

impl<N> Default for PowersDelta<N> {
    fn default() -> (d: Self)
        ensures
            d.for_ is None && d.charge_threshold_start is None && d.charge_threshold_end is None && d.platform_profile is None,
    {
        PowersDelta { for_: None, charge_threshold_start: None, charge_threshold_end: None, platform_profile: None }
    }
}

impl<N> Default for Rule<N> {
    /// The rule that always holds, with no name, priority 0 and no settings.
    fn default() -> (r: Self)
        ensures
            r.name@ == Seq::<char>::empty(),
            r.priority == 0,
            r.condition == Expression::<N>::Boolean(true),
            r.cpu.for_ is None && r.cpu.governor is None && r.cpu.energy_performance_preference is None
                && r.cpu.energy_perf_bias is None && r.cpu.frequency_mhz_minimum is None && r.cpu.frequency_mhz_maximum is None
                && r.cpu.turbo is None,
            r.power.for_ is None && r.power.charge_threshold_start is None && r.power.charge_threshold_end is None
                && r.power.platform_profile is None,
    {
        Rule {
            name: String::new(),
            priority: 0,
            condition: Expression::Boolean(true),
            cpu: CpusDelta::default(),
            power: PowersDelta::default(),
        }
    }
}

/// The configuration of the daemon: its rules.
#[derive(Debug)]
pub struct DaemonConfig<N> {
    pub rules: Vec<Rule<N>>,
}

/// Whether the rules are in increasing order of priority.
pub open spec fn sorted_by_priority<N>(rules: Seq<Rule<N>>) -> bool {
    forall|i: int, j: int| 0 <= i < j < rules.len() ==> rules[i].priority <= rules[j].priority
}

/// Whether the rule at `j` has the priority of an earlier rule.
pub open spec fn repeats_priority<N>(rules: Seq<Rule<N>>, j: int) -> bool {
    exists|i: int| 0 <= i < j && rules[i].priority == rules[j].priority
}

/// Whether the rules are in strictly increasing order of priority.
pub open spec fn strictly_by_priority<N>(rules: Seq<Rule<N>>) -> bool {
    forall|i: int, j: int| 0 <= i < j < rules.len() ==> rules[i].priority < rules[j].priority
}

/// Whether every rule has a priority of its own.
pub open spec fn distinct_priorities<N>(rules: Seq<Rule<N>>) -> bool {
    forall|i: int, j: int| 0 <= i < j < rules.len() ==> rules[i].priority != rules[j].priority
}

impl<N> DaemonConfig<N> {
    /// Checks that no two rules share a priority and puts the rules in
    /// increasing order of priority. The error names the priority of the
    /// first rule that repeats one of an earlier rule.
    pub fn prioritized(self) -> (result: Result<DaemonConfig<N>, ConfigError>)
        ensures
            result is Ok <==> distinct_priorities(self.rules@),
            result matches Err(e) ==> exists|j: int|
                0 <= j < self.rules@.len() && repeats_priority(self.rules@, j) && (forall|k: int| 0 <= k < j ==> !repeats_priority(self.rules@, k))
                && e == ConfigError::DuplicatePriority(self.rules@[j].priority),
            result matches Ok(c) ==> {
                &&& c.rules@.to_multiset() == self.rules@.to_multiset()
                &&& strictly_by_priority(c.rules@)
            },
    {
        let mut priorities: Vec<u16> = Vec::new();
        let mut j: usize = 0;
        while j < self.rules.len()
            invariant
                0 <= j <= self.rules@.len(),
                priorities@.len() == j,
                forall|k: int| 0 <= k < j ==> priorities@[k] == #[trigger] self.rules@[k].priority,
                forall|a: int, b: int| 0 <= a < b < j ==> self.rules@[a].priority != self.rules@[b].priority,
            decreases self.rules@.len() - j,
        {
            let p = self.rules[j].priority;
            let mut k: usize = 0;
            while k < priorities.len()
                invariant
                    0 <= k <= priorities@.len(),
                    priorities@.len() == j,
                    j < self.rules@.len(),
                    p == self.rules@[j as int].priority,
                    forall|t: int| 0 <= t < j ==> priorities@[t] == #[trigger] self.rules@[t].priority,
                    forall|t: int| 0 <= t < k ==> priorities@[t] != p,
                    forall|a: int, b: int| 0 <= a < b < j ==> self.rules@[a].priority != self.rules@[b].priority,
                decreases priorities@.len() - k,
            {
                if priorities[k] == p {
                    proof {
                        assert(repeats_priority(self.rules@, j as int));
                        assert forall|t: int| 0 <= t < j implies !repeats_priority(self.rules@, t) by {
                            if repeats_priority(self.rules@, t) {
                                let a = choose|a: int| 0 <= a < t && self.rules@[a].priority == self.rules@[t].priority;
                                assert(self.rules@[a].priority != self.rules@[t].priority);
                            }
                        }
                        assert(!distinct_priorities(self.rules@)) by {
                            assert(self.rules@[k as int].priority == self.rules@[j as int].priority);
                        }
                    }
                    return Err(ConfigError::DuplicatePriority(p));
                }
                k = k + 1;
            }
            priorities.push(p);
            j = j + 1;
        }
        let ghost given = self.rules@;
        let mut remaining = self.rules;
        let mut sorted: Vec<Rule<N>> = Vec::new();
        proof {
            sorted@.to_multiset_ensures();
            vstd::multiset::lemma_multiset_empty_len(sorted@.to_multiset());
            assert(sorted@.to_multiset().add(remaining@.to_multiset()) =~= given.to_multiset());
        }
        while remaining.len() > 0
            invariant
                distinct_priorities(given),
                sorted@.to_multiset().add(remaining@.to_multiset()) == given.to_multiset(),
                forall|a: int, b: int| 0 <= a < b < sorted@.len() ==> sorted@[a].priority < sorted@[b].priority,
                forall|a: int, b: int| 0 <= a < sorted@.len() && 0 <= b < remaining@.len() ==> sorted@[a].priority < remaining@[b].priority,
                forall|a: int, b: int| 0 <= a < b < remaining@.len() ==> remaining@[a].priority != remaining@[b].priority,
            decreases remaining@.len(),
        {
            let mut least: usize = 0;
            let mut i: usize = 1;
            while i < remaining.len()
                invariant
                    0 <= least < i <= remaining@.len(),
                    forall|b: int| 0 <= b < i ==> remaining@[least as int].priority <= remaining@[b].priority,
                decreases remaining@.len() - i,
            {
                if remaining[i].priority < remaining[least].priority {
                    least = i;
                }
                i = i + 1;
            }
            let ghost before_remaining = remaining@;
            let ghost before_sorted = sorted@;
            let rule = remaining.remove(least);
            proof {
                before_remaining.to_multiset_ensures();
                before_sorted.to_multiset_ensures();
            }
            assert(remaining@ == before_remaining.remove(least as int));
            assert(before_remaining.remove(least as int).to_multiset() == before_remaining.to_multiset().remove(rule));
            sorted.push(rule);
            assert(sorted@ == before_sorted.push(rule));
            assert(forall|b: int| 0 <= b < remaining@.len() ==> #[trigger] remaining@[b] == before_remaining[if b < least { b } else { b + 1 }]);
            assert(before_remaining.to_multiset().count(rule) > 0) by {
                assert(before_remaining[least as int] == rule);
            }
            assert(sorted@.to_multiset().add(remaining@.to_multiset()) =~= given.to_multiset());
        }
        proof {
            remaining@.to_multiset_ensures();
            vstd::multiset::lemma_multiset_empty_len(remaining@.to_multiset());
            assert(sorted@.to_multiset() =~= sorted@.to_multiset().add(remaining@.to_multiset()));
        }
        Ok(DaemonConfig { rules: sorted })
    }
}


/// What the rules ask, with strings as views: a delta for each CPU and each
/// power supply, turbo and the platform profile.
pub struct DecisionView<N> {
    pub cpus: Seq<(u32, DeltaView)>,
    pub turbo: Option<bool>,
    pub power_supplies: Seq<(Seq<char>, power_supply::Delta<N>)>,
    pub platform_profile: Option<Seq<char>>,
}

/// What the rules ask of the system.
#[derive(Debug)]
pub struct Decision<N> {
    /// A delta for each CPU, by number.
    pub cpu_deltas: Vec<(u32, Delta)>,
    pub turbo: Option<bool>,
    /// A delta for each power supply, by name.
    pub power_deltas: Vec<(String, power_supply::Delta<N>)>,
    pub platform_profile: Option<String>,
}

impl<N> View for Decision<N> {
    type V = DecisionView<N>;

    open spec fn view(&self) -> DecisionView<N> {
        DecisionView {
            cpus: deltas_view(self.cpu_deltas@),
            turbo: self.turbo,
            power_supplies: supply_deltas_view(self.power_deltas@),
            platform_profile: cpu::opt_view(self.platform_profile),
        }
    }
}

/// The first delta for CPU `n` in `deltas`.
pub open spec fn lookup_cpu(deltas: Seq<(u32, DeltaView)>, n: u32) -> Option<DeltaView>
    decreases deltas.len(),
{
    if deltas.len() == 0 {
        None
    } else if deltas[0].0 == n {
        Some(deltas[0].1)
    } else {
        lookup_cpu(deltas.drop_first(), n)
    }
}

/// The first delta for the power supply named `name` in `deltas`.
pub open spec fn lookup_supply<N>(deltas: Seq<(Seq<char>, power_supply::Delta<N>)>, name: Seq<char>) -> Option<power_supply::Delta<N>>
    decreases deltas.len(),
{
    if deltas.len() == 0 {
        None
    } else if deltas[0].0 == name {
        Some(deltas[0].1)
    } else {
        lookup_supply(deltas.drop_first(), name)
    }
}

/// Each delta of `acc` with the settings it leaves unset filled from the
/// delta of `lower` for the same CPU, if any.
pub open spec fn merge_cpus(acc: Seq<(u32, DeltaView)>, lower: Seq<(u32, DeltaView)>) -> Seq<(u32, DeltaView)> {
    Seq::new(acc.len(), |i: int| (acc[i].0, match lookup_cpu(lower, acc[i].0) {
        Some(d) => acc[i].1.or(d),
        None => acc[i].1,
    }))
}

/// Each delta of `acc` with the thresholds it leaves unset filled from the
/// delta of `lower` for the same power supply, if any.
pub open spec fn merge_supplies<N>(acc: Seq<(Seq<char>, power_supply::Delta<N>)>, lower: Seq<(Seq<char>, power_supply::Delta<N>)>) -> Seq<(Seq<char>, power_supply::Delta<N>)> {
    Seq::new(acc.len(), |i: int| (acc[i].0, match lookup_supply(lower, acc[i].0) {
        Some(d) => power_supply::Delta {
            charge_threshold_start: cpu::or_else(acc[i].1.charge_threshold_start, d.charge_threshold_start),
            charge_threshold_end: cpu::or_else(acc[i].1.charge_threshold_end, d.charge_threshold_end),
        },
        None => acc[i].1,
    }))
}

/// `acc` with what it leaves unset filled from what a lower-priority rule asks.
pub open spec fn merge_decision<N>(
    acc: DecisionView<N>,
    cpus: Seq<(u32, DeltaView)>,
    turbo: Option<bool>,
    supplies: Seq<(Seq<char>, power_supply::Delta<N>)>,
    profile: Option<Seq<char>>,
) -> DecisionView<N> {
    DecisionView {
        cpus: merge_cpus(acc.cpus, cpus),
        turbo: cpu::or_else(acc.turbo, turbo),
        power_supplies: merge_supplies(acc.power_supplies, supplies),
        platform_profile: cpu::or_else(acc.platform_profile, profile),
    }
}

/// Every setting of `d` is given, so no lower-priority rule can change it.
pub open spec fn decision_complete<N>(d: DecisionView<N>) -> bool {
    &&& forall|i: int| 0 <= i < d.cpus.len() ==> (#[trigger] d.cpus[i]).1.is_complete()
    &&& d.turbo is Some
    &&& forall|i: int| 0 <= i < d.power_supplies.len() ==> (#[trigger] d.power_supplies[i]).1.charge_threshold_start is Some
        && d.power_supplies[i].1.charge_threshold_end is Some
    &&& d.platform_profile is Some
}

/// Nothing asked yet: an empty delta for each CPU and power supply of
/// `state`.
pub open spec fn initial_decision<N>(state: EvalState<N>) -> DecisionView<N> {
    DecisionView {
        cpus: Seq::new(state.cpus@.len(), |i: int| (state.cpus@[i].number, DeltaView::empty())),
        turbo: None,
        power_supplies: Seq::new(state.power_supplies@.len(), |i: int| (state.power_supplies@[i].name@,
            power_supply::Delta { charge_threshold_start: None, charge_threshold_end: None })),
        platform_profile: None,
    }
}

/// Applies `rules` from the last (the highest priority) to the first onto
/// `acc`: each rule whose condition holds fills what is still unset, and
/// once nothing is unset the remaining rules are not evaluated.
pub open spec fn decide_rules<N, F: Fn(NumberQuery<N>) -> NumberAnswer<N>>(rules: Seq<Rule<N>>, acc: DecisionView<N>, state: EvalState<N>, f: F) -> Result<DecisionView<N>, ConfigFailure>
    decreases rules.len(),
{
    if rules.len() == 0 {
        Ok(acc)
    } else {
        let rule = rules.last();
        match spec_eval(rule.condition, state, f) {
            Err(e) => Err(ConfigFailure::Eval(e)),
            Ok(None) => decide_rules(rules.drop_last(), acc, state, f),
            Ok(Some(Value::Boolean(false))) => decide_rules(rules.drop_last(), acc, state, f),
            Ok(Some(Value::Boolean(true))) => match rule.cpu.spec_eval(state, f) {
                Err(e) => Err(e),
                Ok((cds, turbo)) => match rule.power.spec_eval(state, f) {
                    Err(e) => Err(e),
                    Ok((pds, profile)) => {
                        let next = merge_decision(acc, cds, turbo, pds, profile);
                        if decision_complete(next) {
                            Ok(next)
                        } else {
                            decide_rules(rules.drop_last(), next, state, f)
                        }
                    },
                },
            },
            Ok(Some(_)) => Err(ConfigFailure::WrongType(Field::Condition)),
        }
    }
}


/// The first delta for CPU `n` in `deltas`.
fn find_cpu_delta<'a>(deltas: &'a Vec<(u32, Delta)>, n: u32) -> (found: Option<&'a Delta>)
    ensures
        match found {
            Some(d) => lookup_cpu(deltas_view(deltas@), n) == Some(d@),
            None => lookup_cpu(deltas_view(deltas@), n) is None,
        },
{
    let ghost all = deltas_view(deltas@);
    let mut i: usize = 0;
    assert(all.skip(0) == all);
    while i < deltas.len()
        invariant
            0 <= i <= deltas@.len(),
            all == deltas_view(deltas@),
            all.len() == deltas@.len(),
            lookup_cpu(all, n) == lookup_cpu(all.skip(i as int), n),
        decreases deltas@.len() - i,
    {
        assert(all.skip(i as int).drop_first() == all.skip(i + 1));
        assert(all.skip(i as int)[0] == all[i as int]);
        if deltas[i].0 == n {
            return Some(&deltas[i].1);
        }
        i = i + 1;
    }
    assert(all.skip(i as int).len() == 0);
    None
}

/// The first delta for the power supply named `name` in `deltas`.
fn find_supply_delta<'a, N: Copy>(deltas: &'a Vec<(String, power_supply::Delta<N>)>, name: &str) -> (found: Option<&'a power_supply::Delta<N>>)
    ensures
        match found {
            Some(d) => lookup_supply(supply_deltas_view(deltas@), name@) == Some(*d),
            None => lookup_supply(supply_deltas_view(deltas@), name@) is None,
        },
{
    let ghost all = supply_deltas_view(deltas@);
    let mut i: usize = 0;
    assert(all.skip(0) == all);
    while i < deltas.len()
        invariant
            0 <= i <= deltas@.len(),
            all == supply_deltas_view(deltas@),
            all.len() == deltas@.len(),
            lookup_supply(all, name@) == lookup_supply(all.skip(i as int), name@),
        decreases deltas@.len() - i,
    {
        assert(all.skip(i as int).drop_first() == all.skip(i + 1));
        assert(all.skip(i as int)[0] == all[i as int]);
        if crate::text::str_equal(deltas[i].0.as_str(), name) {
            return Some(&deltas[i].1);
        }
        i = i + 1;
    }
    assert(all.skip(i as int).len() == 0);
    None
}

/// The deltas of `acc`, each filled from that of `lower` for its CPU.
fn merge_cpu_deltas(acc: &Vec<(u32, Delta)>, lower: &Vec<(u32, Delta)>) -> (merged: Vec<(u32, Delta)>)
    ensures
        deltas_view(merged@) == merge_cpus(deltas_view(acc@), deltas_view(lower@)),
{
    let ghost target = merge_cpus(deltas_view(acc@), deltas_view(lower@));
    let mut merged: Vec<(u32, Delta)> = Vec::new();
    let mut i: usize = 0;
    while i < acc.len()
        invariant
            0 <= i <= acc@.len(),
            target == merge_cpus(deltas_view(acc@), deltas_view(lower@)),
            merged@.len() == i,
            forall|k: int| 0 <= k < i ==> #[trigger] deltas_view(merged@)[k] == target[k],
        decreases acc@.len() - i,
    {
        let n = acc[i].0;
        let d = acc[i].1.copy();
        let next = match find_cpu_delta(lower, n) {
            Some(l) => d.or(l),
            None => d,
        };
        let ghost before = merged@;
        merged.push((n, next));
        assert(deltas_view(acc@)[i as int] == (acc@[i as int].0, acc@[i as int].1@));
        assert(deltas_view(merged@)[i as int] == (n, next@));
        assert(target[i as int] == (n, next@));
        assert forall|k: int| 0 <= k < i + 1 implies #[trigger] deltas_view(merged@)[k] == target[k] by {
            if k < i {
                assert(merged@[k] == before[k]);
                assert(deltas_view(merged@)[k] == deltas_view(before)[k]);
            }
        }
        i = i + 1;
    }
    assert(deltas_view(merged@) =~= target);
    merged
}

/// The deltas of `acc`, each filled from that of `lower` for its power supply.
fn merge_supply_deltas<N: Copy>(acc: &Vec<(String, power_supply::Delta<N>)>, lower: &Vec<(String, power_supply::Delta<N>)>) -> (merged: Vec<(String, power_supply::Delta<N>)>)
    ensures
        supply_deltas_view(merged@) == merge_supplies(supply_deltas_view(acc@), supply_deltas_view(lower@)),
{
    let ghost target = merge_supplies(supply_deltas_view(acc@), supply_deltas_view(lower@));
    let mut merged: Vec<(String, power_supply::Delta<N>)> = Vec::new();
    let mut i: usize = 0;
    while i < acc.len()
        invariant
            0 <= i <= acc@.len(),
            target == merge_supplies(supply_deltas_view(acc@), supply_deltas_view(lower@)),
            merged@.len() == i,
            forall|k: int| 0 <= k < i ==> #[trigger] supply_deltas_view(merged@)[k] == target[k],
        decreases acc@.len() - i,
    {
        let name = cpu::copy_str(acc[i].0.as_str());
        let d = acc[i].1;
        let next = match find_supply_delta(lower, acc[i].0.as_str()) {
            Some(l) => d.or(l),
            None => d,
        };
        let ghost before = merged@;
        merged.push((name, next));
        assert(supply_deltas_view(acc@)[i as int] == (acc@[i as int].0@, acc@[i as int].1));
        assert(supply_deltas_view(merged@)[i as int] == (name@, next));
        assert(target[i as int] == (name@, next));
        assert forall|k: int| 0 <= k < i + 1 implies #[trigger] supply_deltas_view(merged@)[k] == target[k] by {
            if k < i {
                assert(merged@[k] == before[k]);
                assert(supply_deltas_view(merged@)[k] == supply_deltas_view(before)[k]);
            }
        }
        i = i + 1;
    }
    assert(supply_deltas_view(merged@) =~= target);
    merged
}

/// Whether every setting of `d` is given.
fn is_complete<N: Copy>(d: &Decision<N>) -> (complete: bool)
    ensures
        complete == decision_complete(d@),
{
    if d.turbo.is_none() || d.platform_profile.is_none() {
        return false;
    }
    let mut i: usize = 0;
    while i < d.cpu_deltas.len()
        invariant
            0 <= i <= d.cpu_deltas@.len(),
            forall|k: int| 0 <= k < i ==> (#[trigger] deltas_view(d.cpu_deltas@)[k]).1.is_complete(),
        decreases d.cpu_deltas@.len() - i,
    {
        if !d.cpu_deltas[i].1.is_some() {
            assert(!deltas_view(d.cpu_deltas@)[i as int].1.is_complete());
            assert(d@.cpus.len() == d.cpu_deltas@.len());
            assert(!d@.cpus[i as int].1.is_complete());
            assert(!decision_complete(d@));
            return false;
        }
        i = i + 1;
    }
    let mut j: usize = 0;
    while j < d.power_deltas.len()
        invariant
            0 <= j <= d.power_deltas@.len(),
            forall|k: int| 0 <= k < j ==> (#[trigger] supply_deltas_view(d.power_deltas@)[k]).1.charge_threshold_start is Some
                && supply_deltas_view(d.power_deltas@)[k].1.charge_threshold_end is Some,
        decreases d.power_deltas@.len() - j,
    {
        if !d.power_deltas[j].1.is_some() {
            assert(!(supply_deltas_view(d.power_deltas@)[j as int].1.charge_threshold_start is Some
                && supply_deltas_view(d.power_deltas@)[j as int].1.charge_threshold_end is Some));
            assert(!decision_complete(d@));
            return false;
        }
        j = j + 1;
    }
    true
}

/// Nothing asked yet, for the CPUs and power supplies of `state`.
fn initial<N: Copy>(state: &EvalState<N>) -> (d: Decision<N>)
    ensures
        d@ == initial_decision(*state),
{
    let mut cpus: Vec<(u32, Delta)> = Vec::new();
    let mut i: usize = 0;
    while i < state.cpus.len()
        invariant
            0 <= i <= state.cpus@.len(),
            cpus@.len() == i,
            forall|k: int| 0 <= k < i ==> #[trigger] deltas_view(cpus@)[k] == (state.cpus@[k].number, DeltaView::empty()),
        decreases state.cpus@.len() - i,
    {
        let ghost before = cpus@;
        cpus.push((state.cpus[i].number, Delta::empty()));
        assert(deltas_view(cpus@)[i as int] == (state.cpus@[i as int].number, DeltaView::empty()));
        assert forall|k: int| 0 <= k < i + 1 implies #[trigger] deltas_view(cpus@)[k] == (state.cpus@[k].number, DeltaView::empty()) by {
            if k < i {
                assert(cpus@[k] == before[k]);
                assert(deltas_view(cpus@)[k] == deltas_view(before)[k]);
            }
        }
        i = i + 1;
    }
    let mut supplies: Vec<(String, power_supply::Delta<N>)> = Vec::new();
    let mut j: usize = 0;
    while j < state.power_supplies.len()
        invariant
            0 <= j <= state.power_supplies@.len(),
            supplies@.len() == j,
            forall|k: int| 0 <= k < j ==> #[trigger] supply_deltas_view(supplies@)[k] == (state.power_supplies@[k].name@,
                power_supply::Delta::<N> { charge_threshold_start: None, charge_threshold_end: None }),
        decreases state.power_supplies@.len() - j,
    {
        let ghost before = supplies@;
        let name = cpu::copy_str(state.power_supplies[j].name.as_str());
        supplies.push((name, power_supply::Delta::empty()));
        assert(supply_deltas_view(supplies@)[j as int] == (state.power_supplies@[j as int].name@,
            power_supply::Delta::<N> { charge_threshold_start: None, charge_threshold_end: None }));
        assert forall|k: int| 0 <= k < j + 1 implies #[trigger] supply_deltas_view(supplies@)[k] == (state.power_supplies@[k].name@,
            power_supply::Delta::<N> { charge_threshold_start: None, charge_threshold_end: None }) by {
            if k < j {
                assert(supplies@[k] == before[k]);
                assert(supply_deltas_view(supplies@)[k] == supply_deltas_view(before)[k]);
            }
        }
        j = j + 1;
    }
    let d = Decision { cpu_deltas: cpus, turbo: None, power_deltas: supplies, platform_profile: None };
    assert(d@.cpus =~= initial_decision(*state).cpus);
    assert(d@.power_supplies =~= initial_decision(*state).power_supplies);
    d
}

impl<N: Copy> DaemonConfig<N> {
    /// Decides what the rules ask of the system in `state`. Rules are taken
    /// from the highest priority down; each whose condition holds fills the
    /// settings that higher-priority rules left unset, for the CPUs and
    /// power supplies it selects; once every setting is given the remaining
    /// rules are not evaluated. Exactly `decide_rules`.
    pub fn decide<F: Fn(NumberQuery<N>) -> NumberAnswer<N>>(&self, state: &EvalState<N>, numbers: &F) -> (result: Result<Decision<N>, ConfigError>)
        requires
            number_model(*numbers),
            sorted_by_priority(self.rules@),
        ensures
            match result {
                Ok(d) => decide_rules(self.rules@, initial_decision(*state), *state, *numbers) == Ok::<DecisionView<N>, ConfigFailure>(d@),
                Err(e) => decide_rules(self.rules@, initial_decision(*state), *state, *numbers) == Err::<DecisionView<N>, ConfigFailure>(config_failure_of(e)),
            },
    {
        let mut acc = initial(state);
        let mut i: usize = self.rules.len();
        assert(self.rules@.take(i as int) == self.rules@);
        while i > 0
            invariant
                0 <= i <= self.rules@.len(),
                number_model(*numbers),
                decide_rules(self.rules@, initial_decision(*state), *state, *numbers) == decide_rules(
                    self.rules@.take(i as int),
                    acc@,
                    *state,
                    *numbers,
                ),
            decreases i,
        {
            let rule = &self.rules[i - 1];
            assert(self.rules@.take(i as int).last() == *rule);
            assert(self.rules@.take(i as int).drop_last() == self.rules@.take(i - 1));
            let holds = match rule.condition.eval(state, numbers) {
                Err(e) => return Err(ConfigError::Eval(e)),
                Ok(None) => false,
                Ok(Some(Expression::Boolean(b))) => b,
                Ok(Some(_)) => return Err(ConfigError::WrongType(Field::Condition)),
            };
            if holds {
                let (cpu_deltas, turbo) = match rule.cpu.eval(state, numbers) {
                    Err(e) => return Err(e),
                    Ok(r) => r,
                };
                let (power_deltas, profile) = match rule.power.eval(state, numbers) {
                    Err(e) => return Err(e),
                    Ok(r) => r,
                };
                let next = Decision {
                    cpu_deltas: merge_cpu_deltas(&acc.cpu_deltas, &cpu_deltas),
                    turbo: match acc.turbo {
                        Some(t) => Some(t),
                        None => turbo,
                    },
                    power_deltas: merge_supply_deltas(&acc.power_deltas, &power_deltas),
                    platform_profile: match acc.platform_profile {
                        Some(p) => Some(p),
                        None => profile,
                    },
                };
                assert(next@ == merge_decision(acc@, deltas_view(cpu_deltas@), turbo, supply_deltas_view(power_deltas@), cpu::opt_view(profile)));
                if is_complete(&next) {
                    return Ok(next);
                }
                acc = next;
            }
            i = i - 1;
        }
        Ok(acc)
    }
}


/// What the rules from the highest priority down ask of CPU `n`: each rule
/// whose condition holds gives what it asks of `n`, and higher rules
/// shadow lower ones setting by setting.
pub open spec fn layered_cpu<N, F: Fn(NumberQuery<N>) -> NumberAnswer<N>>(rules: Seq<Rule<N>>, state: EvalState<N>, f: F, n: u32) -> DeltaView
    decreases rules.len(),
{
    if rules.len() == 0 {
        DeltaView::empty()
    } else {
        let rule = rules.last();
        let contribution = if spec_eval(rule.condition, state, f) == Ok::<Option<Value<N>>, Failure>(Some(Value::Boolean(true))) {
            match rule.cpu.spec_eval(state, f) {
                Ok((cds, _)) => match lookup_cpu(cds, n) {
                    Some(d) => d,
                    None => DeltaView::empty(),
                },
                Err(_) => DeltaView::empty(),
            }
        } else {
            DeltaView::empty()
        };
        contribution.or(layered_cpu(rules.drop_last(), state, f, n))
    }
}

/// Turbo as the rules from the highest priority down ask it: that of the
/// highest rule whose condition holds and that sets it.
pub open spec fn layered_turbo<N, F: Fn(NumberQuery<N>) -> NumberAnswer<N>>(rules: Seq<Rule<N>>, state: EvalState<N>, f: F) -> Option<bool>
    decreases rules.len(),
{
    if rules.len() == 0 {
        None
    } else {
        let rule = rules.last();
        let contribution = if spec_eval(rule.condition, state, f) == Ok::<Option<Value<N>>, Failure>(Some(Value::Boolean(true))) {
            match rule.cpu.spec_eval(state, f) {
                Ok((_, t)) => t,
                Err(_) => None,
            }
        } else {
            None
        };
        cpu::or_else(contribution, layered_turbo(rules.drop_last(), state, f))
    }
}

/// The platform profile as the rules from the highest priority down ask
/// it: that of the highest rule whose condition holds and that sets it.
pub open spec fn layered_profile<N, F: Fn(NumberQuery<N>) -> NumberAnswer<N>>(rules: Seq<Rule<N>>, state: EvalState<N>, f: F) -> Option<Seq<char>>
    decreases rules.len(),
{
    if rules.len() == 0 {
        None
    } else {
        let rule = rules.last();
        let contribution = if spec_eval(rule.condition, state, f) == Ok::<Option<Value<N>>, Failure>(Some(Value::Boolean(true))) {
            match rule.power.spec_eval(state, f) {
                Ok((_, p)) => p,
                Err(_) => None,
            }
        } else {
            None
        };
        cpu::or_else(contribution, layered_profile(rules.drop_last(), state, f))
    }
}

/// The charge thresholds as the rules from the highest priority down ask
/// them of the power supply named `name`.
pub open spec fn layered_supply<N, F: Fn(NumberQuery<N>) -> NumberAnswer<N>>(rules: Seq<Rule<N>>, state: EvalState<N>, f: F, name: Seq<char>) -> power_supply::Delta<N>
    decreases rules.len(),
{
    if rules.len() == 0 {
        power_supply::Delta { charge_threshold_start: None, charge_threshold_end: None }
    } else {
        let rule = rules.last();
        let contribution = if spec_eval(rule.condition, state, f) == Ok::<Option<Value<N>>, Failure>(Some(Value::Boolean(true))) {
            match rule.power.spec_eval(state, f) {
                Ok((pds, _)) => match lookup_supply(pds, name) {
                    Some(d) => d,
                    None => power_supply::Delta { charge_threshold_start: None, charge_threshold_end: None },
                },
                Err(_) => power_supply::Delta { charge_threshold_start: None, charge_threshold_end: None },
            }
        } else {
            power_supply::Delta { charge_threshold_start: None, charge_threshold_end: None }
        };
        let lower = layered_supply(rules.drop_last(), state, f, name);
        power_supply::Delta {
            charge_threshold_start: cpu::or_else(contribution.charge_threshold_start, lower.charge_threshold_start),
            charge_threshold_end: cpu::or_else(contribution.charge_threshold_end, lower.charge_threshold_end),
        }
    }
}

/// `a` with what it leaves unset filled from `b`.
pub open spec fn supply_or<N>(a: power_supply::Delta<N>, b: power_supply::Delta<N>) -> power_supply::Delta<N> {
    power_supply::Delta {
        charge_threshold_start: cpu::or_else(a.charge_threshold_start, b.charge_threshold_start),
        charge_threshold_end: cpu::or_else(a.charge_threshold_end, b.charge_threshold_end),
    }
}

/// Deciding from `acc` gives, for every CPU and power supply, what `acc`
/// already holds, filled from what the rules ask in priority order.
pub proof fn lemma_decide_layers<N, F: Fn(NumberQuery<N>) -> NumberAnswer<N>>(rules: Seq<Rule<N>>, acc: DecisionView<N>, state: EvalState<N>, f: F)
    requires
        decide_rules(rules, acc, state, f) is Ok,
    ensures
        ({
            let d = decide_rules(rules, acc, state, f)->Ok_0;
            &&& d.cpus.len() == acc.cpus.len()
            &&& forall|i: int| 0 <= i < acc.cpus.len() ==> #[trigger] d.cpus[i] == (acc.cpus[i].0, acc.cpus[i].1.or(layered_cpu(rules, state, f, acc.cpus[i].0)))
            &&& d.turbo == cpu::or_else(acc.turbo, layered_turbo(rules, state, f))
            &&& d.platform_profile == cpu::or_else(acc.platform_profile, layered_profile(rules, state, f))
            &&& d.power_supplies.len() == acc.power_supplies.len()
            &&& forall|i: int| 0 <= i < acc.power_supplies.len() ==> #[trigger] d.power_supplies[i] == (acc.power_supplies[i].0,
                supply_or(acc.power_supplies[i].1, layered_supply(rules, state, f, acc.power_supplies[i].0)))
        }),
    decreases rules.len(),
{
    if rules.len() == 0 {
        assert forall|i: int| 0 <= i < acc.cpus.len() implies #[trigger] acc.cpus[i] == (acc.cpus[i].0, acc.cpus[i].1.or(layered_cpu(rules, state, f, acc.cpus[i].0))) by {
            assert(acc.cpus[i].1.or(DeltaView::empty()) == acc.cpus[i].1);
        }
        assert forall|i: int| 0 <= i < acc.power_supplies.len() implies #[trigger] acc.power_supplies[i] == (acc.power_supplies[i].0,
            supply_or(acc.power_supplies[i].1, layered_supply(rules, state, f, acc.power_supplies[i].0))) by {
        }
    } else {
        let rule = rules.last();
        let rest = rules.drop_last();
        let holds = spec_eval(rule.condition, state, f) == Ok::<Option<Value<N>>, Failure>(Some(Value::Boolean(true)));
        if !holds {
            lemma_decide_layers(rest, acc, state, f);
            let d = decide_rules(rules, acc, state, f)->Ok_0;
            assert forall|i: int| 0 <= i < acc.cpus.len() implies #[trigger] d.cpus[i] == (acc.cpus[i].0, acc.cpus[i].1.or(layered_cpu(rules, state, f, acc.cpus[i].0))) by {
                assert(layered_cpu(rules, state, f, acc.cpus[i].0) == DeltaView::empty().or(layered_cpu(rest, state, f, acc.cpus[i].0)));
            }
            assert forall|i: int| 0 <= i < acc.power_supplies.len() implies #[trigger] d.power_supplies[i] == (acc.power_supplies[i].0,
                supply_or(acc.power_supplies[i].1, layered_supply(rules, state, f, acc.power_supplies[i].0))) by {
            }
        } else {
            let (cds, turbo) = rule.cpu.spec_eval(state, f)->Ok_0;
            let (pds, profile) = rule.power.spec_eval(state, f)->Ok_0;
            let next = merge_decision(acc, cds, turbo, pds, profile);
            let d = decide_rules(rules, acc, state, f)->Ok_0;
            if decision_complete(next) {
                assert(d == next);
                assert forall|i: int| 0 <= i < acc.cpus.len() implies #[trigger] d.cpus[i] == (acc.cpus[i].0, acc.cpus[i].1.or(layered_cpu(rules, state, f, acc.cpus[i].0))) by {
                    assert(next.cpus[i].1.is_complete());
                }
                assert forall|i: int| 0 <= i < acc.power_supplies.len() implies #[trigger] d.power_supplies[i] == (acc.power_supplies[i].0,
                    supply_or(acc.power_supplies[i].1, layered_supply(rules, state, f, acc.power_supplies[i].0))) by {
                    assert(next.power_supplies[i].1.charge_threshold_start is Some);
                    assert(next.power_supplies[i].1.charge_threshold_end is Some);
                }
            } else {
                lemma_decide_layers(rest, next, state, f);
                assert forall|i: int| 0 <= i < acc.cpus.len() implies #[trigger] d.cpus[i] == (acc.cpus[i].0, acc.cpus[i].1.or(layered_cpu(rules, state, f, acc.cpus[i].0))) by {
                    assert(next.cpus[i].0 == acc.cpus[i].0);
                }
                assert forall|i: int| 0 <= i < acc.power_supplies.len() implies #[trigger] d.power_supplies[i] == (acc.power_supplies[i].0,
                    supply_or(acc.power_supplies[i].1, layered_supply(rules, state, f, acc.power_supplies[i].0))) by {
                    assert(next.power_supplies[i].0 == acc.power_supplies[i].0);
                }
            }
        }
    }
}

/// The order in which a configuration writes its rules does not matter:
/// rules in strictly increasing order of priority are fixed by which rules
/// they are, so configurations with the same rules are prioritized alike.
pub proof fn lemma_priority_order_unique<N>(a: Seq<Rule<N>>, b: Seq<Rule<N>>)
    requires
        a.to_multiset() == b.to_multiset(),
        strictly_by_priority(a),
        strictly_by_priority(b),
    ensures
        a == b,
    decreases a.len(),
{
    a.to_multiset_ensures();
    b.to_multiset_ensures();
    if a.len() == 0 {
        assert(b.len() == 0);
        assert(a =~= b);
    } else {
        assert(a.contains(a[0]));
        assert(a.to_multiset().count(a[0]) > 0);
        assert(b.to_multiset().count(a[0]) > 0);
        assert(b.contains(a[0]));
        let j = choose|j: int| 0 <= j < b.len() && b[j] == a[0];
        assert(b.contains(b[0]));
        assert(b.to_multiset().count(b[0]) > 0);
        assert(a.to_multiset().count(b[0]) > 0);
        assert(a.contains(b[0]));
        let i = choose|i: int| 0 <= i < a.len() && a[i] == b[0];
        if i > 0 {
            assert(a[0].priority < a[i].priority);
            if j > 0 {
                assert(b[0].priority < b[j].priority);
            }
            assert(false);
        }
        assert(a[0] == b[0]);
        let ra = a.remove(0);
        let rb = b.remove(0);
        assert(ra.len() == a.len() - 1 && rb.len() == b.len() - 1);
        assert(ra.to_multiset() == rb.to_multiset());
        assert forall|x: int, y: int| 0 <= x < y < ra.len() implies ra[x].priority < ra[y].priority by {
            assert(ra[x] == a[x + 1] && ra[y] == a[y + 1]);
        }
        assert forall|x: int, y: int| 0 <= x < y < rb.len() implies rb[x].priority < rb[y].priority by {
            assert(rb[x] == b[x + 1] && rb[y] == b[y + 1]);
        }
        lemma_priority_order_unique(ra, rb);
        assert(a =~= b) by {
            assert forall|k: int| 0 <= k < a.len() implies a[k] == b[k] by {
                if k > 0 {
                    assert(a[k] == ra[k - 1] && b[k] == rb[k - 1]);
                }
            }
        }
    }
}


/// Higher priorities shadow lower ones: what the decision asks of each CPU
/// is, setting by setting, what the highest-priority rule whose condition
/// holds asks of that CPU; likewise turbo, the platform profile and the
/// charge thresholds of each power supply.
pub proof fn lemma_higher_priority_shadows<N, F: Fn(NumberQuery<N>) -> NumberAnswer<N>>(rules: Seq<Rule<N>>, state: EvalState<N>, f: F)
    requires
        decide_rules(rules, initial_decision(state), state, f) is Ok,
    ensures
        ({
            let d = decide_rules(rules, initial_decision(state), state, f)->Ok_0;
            &&& d.cpus.len() == state.cpus@.len()
            &&& forall|i: int| 0 <= i < state.cpus@.len() ==> #[trigger] d.cpus[i] == (state.cpus@[i].number, layered_cpu(rules, state, f, state.cpus@[i].number))
            &&& d.turbo == layered_turbo(rules, state, f)
            &&& d.platform_profile == layered_profile(rules, state, f)
            &&& d.power_supplies.len() == state.power_supplies@.len()
            &&& forall|i: int| 0 <= i < state.power_supplies@.len() ==> #[trigger] d.power_supplies[i] == (state.power_supplies@[i].name@,
                layered_supply(rules, state, f, state.power_supplies@[i].name@))
        }),
{
    let acc = initial_decision(state);
    lemma_decide_layers(rules, acc, state, f);
    let d = decide_rules(rules, acc, state, f)->Ok_0;
    assert forall|i: int| 0 <= i < state.cpus@.len() implies #[trigger] d.cpus[i] == (state.cpus@[i].number, layered_cpu(rules, state, f, state.cpus@[i].number)) by {
        assert(acc.cpus[i] == (state.cpus@[i].number, DeltaView::empty()));
        assert(DeltaView::empty().or(layered_cpu(rules, state, f, state.cpus@[i].number)) == layered_cpu(rules, state, f, state.cpus@[i].number));
    }
    assert forall|i: int| 0 <= i < state.power_supplies@.len() implies #[trigger] d.power_supplies[i] == (state.power_supplies@[i].name@,
        layered_supply(rules, state, f, state.power_supplies@[i].name@)) by {
        assert(acc.power_supplies[i].0 == state.power_supplies@[i].name@);
    }
}

/// A setting written as `{ if = c, then = x }`, with no `else`, whose
/// condition `c` evaluates to false.
pub open spec fn unmet_conditional<N, F: Fn(NumberQuery<N>) -> NumberAnswer<N>>(e: Option<Expression<N>>, state: EvalState<N>, f: F) -> bool {
    e matches Some(Expression::IfElse { condition, alternative: None, .. })
        && spec_eval(*condition, state, f) == Ok::<Option<Value<N>>, Failure>(Some(Value::Boolean(false)))
}

/// If the condition of a conditional CPU setting is not met, the setting
/// is not applied: the delta leaves it unset (and so does turbo).
pub proof fn lemma_unmet_cpu_condition_not_applied<N, F: Fn(NumberQuery<N>) -> NumberAnswer<N>>(d: CpusDelta<N>, state: EvalState<N>, f: F)
    ensures
        d.spec_delta(state, f) matches Ok(v) ==> {
            &&& unmet_conditional(d.governor, state, f) ==> v.governor is None
            &&& unmet_conditional(d.energy_performance_preference, state, f) ==> v.energy_performance_preference is None
            &&& unmet_conditional(d.energy_perf_bias, state, f) ==> v.energy_perf_bias is None
            &&& unmet_conditional(d.frequency_mhz_minimum, state, f) ==> v.frequency_mhz_minimum is None
            &&& unmet_conditional(d.frequency_mhz_maximum, state, f) ==> v.frequency_mhz_maximum is None
        },
        d.spec_eval(state, f) matches Ok((_, turbo)) ==> (unmet_conditional(d.turbo, state, f) ==> turbo is None),
{
}

/// If the condition of a conditional power setting is not met, the setting
/// is not applied: the delta leaves it unset (and so does the platform
/// profile).
pub proof fn lemma_unmet_power_condition_not_applied<N, F: Fn(NumberQuery<N>) -> NumberAnswer<N>>(d: PowersDelta<N>, state: EvalState<N>, f: F)
    ensures
        d.spec_delta(state, f) matches Ok(v) ==> {
            &&& unmet_conditional(d.charge_threshold_start, state, f) ==> v.charge_threshold_start is None
            &&& unmet_conditional(d.charge_threshold_end, state, f) ==> v.charge_threshold_end is None
        },
        d.spec_eval(state, f) matches Ok((_, profile)) ==> (unmet_conditional(d.platform_profile, state, f) ==> profile is None),
{
}

/// A frequency setting is unset when it is unset or undefined, fails when
/// it is not a number, and otherwise is the number rounded to whole MHz by
/// the number model, whether or not the number is whole: never a failure.
pub proof fn lemma_megahertz_setting<N, F: Fn(NumberQuery<N>) -> NumberAnswer<N>>(f: F, r: Result<Option<Value<N>>, Failure>, field: Field)
    requires
        number_model(f),
    ensures
        r == Ok::<Option<Value<N>>, Failure>(None) ==> megahertz_setting(f, r, field) == Ok::<Option<u64>, ConfigFailure>(None),
        r matches Ok(Some(v)) && !(v is Number) ==> megahertz_setting(f, r, field) == Err::<Option<u64>, ConfigFailure>(ConfigFailure::WrongType(field)),
        r matches Ok(Some(Value::Number(n))) ==> (answer(f, NumberQuery::RoundedMegahertz(n)) matches NumberAnswer::Megahertz(m)
            && megahertz_setting(f, r, field) == Ok::<Option<u64>, ConfigFailure>(Some(m))),
{
    if let Ok(Some(Value::Number(n))) = r {
        crate::expression::lemma_answer_fits(f, NumberQuery::RoundedMegahertz(n));
    }
}

/// A charge-threshold setting is unset when it is unset or undefined,
/// fails when it is not a number, and otherwise is the percentage it gives
/// as a fraction: the number model's hundredth of it.
pub proof fn lemma_threshold_setting<N, F: Fn(NumberQuery<N>) -> NumberAnswer<N>>(f: F, r: Result<Option<Value<N>>, Failure>, field: Field)
    requires
        number_model(f),
    ensures
        r == Ok::<Option<Value<N>>, Failure>(None) ==> threshold_setting(f, r, field) == Ok::<Option<N>, ConfigFailure>(None),
        r matches Ok(Some(v)) && !(v is Number) ==> threshold_setting(f, r, field) == Err::<Option<N>, ConfigFailure>(ConfigFailure::WrongType(field)),
        r matches Ok(Some(Value::Number(n))) ==> (answer(f, NumberQuery::Hundredth(n)) matches NumberAnswer::Number(m)
            && threshold_setting(f, r, field) == Ok::<Option<N>, ConfigFailure>(Some(m))),
{
    if let Ok(Some(Value::Number(n))) = r {
        crate::expression::lemma_answer_fits(f, NumberQuery::Hundredth(n));
    }
}

/// The CPUs that `select_cpus` keeps are those of `cpus` whose numbers are
/// among `numbers`.
pub proof fn lemma_select_cpus(cpus: Seq<Cpu>, numbers: Seq<u32>)
    ensures
        forall|c: Cpu| #[trigger] select_cpus(cpus, numbers).contains(c) <==> (cpus.contains(c) && numbers.contains(c.number)),
    decreases cpus.len(),
{
    if cpus.len() > 0 {
        let init = cpus.drop_last();
        lemma_select_cpus(init, numbers);
        let before = select_cpus(init, numbers);
        assert forall|c: Cpu| #[trigger] select_cpus(cpus, numbers).contains(c) <==> (cpus.contains(c) && numbers.contains(c.number)) by {
            if cpus.contains(c) && numbers.contains(c.number) {
                let i = choose|i: int| 0 <= i < cpus.len() && cpus[i] == c;
                if i < cpus.len() - 1 {
                    assert(init[i] == c);
                    assert(init.contains(c));
                    assert(before.contains(c));
                    let j = choose|j: int| 0 <= j < before.len() && before[j] == c;
                    if numbers.contains(cpus.last().number) {
                        assert(before.push(cpus.last())[j] == c);
                    }
                } else {
                    assert(before.push(cpus.last())[before.len() as int] == c);
                }
            }
            if select_cpus(cpus, numbers).contains(c) {
                let j = choose|j: int| 0 <= j < select_cpus(cpus, numbers).len() && select_cpus(cpus, numbers)[j] == c;
                if numbers.contains(cpus.last().number) && j == before.len() {
                    assert(c == cpus.last());
                    assert(cpus[cpus.len() - 1] == c);
                } else {
                    assert(before[j] == c);
                    assert(before.contains(c));
                    let i = choose|i: int| 0 <= i < init.len() && init[i] == c;
                    assert(cpus[i] == c);
                }
            }
        }
    }
}

/// The power supplies that `select_supplies` keeps are those of `supplies`
/// whose names are among `names`.
pub proof fn lemma_select_supplies(supplies: Seq<PowerSupply>, names: Seq<Seq<char>>)
    ensures
        forall|p: PowerSupply| #[trigger] select_supplies(supplies, names).contains(p) <==> (supplies.contains(p) && names.contains(p.name@)),
    decreases supplies.len(),
{
    if supplies.len() > 0 {
        let init = supplies.drop_last();
        lemma_select_supplies(init, names);
        let before = select_supplies(init, names);
        assert forall|p: PowerSupply| #[trigger] select_supplies(supplies, names).contains(p) <==> (supplies.contains(p) && names.contains(p.name@)) by {
            if supplies.contains(p) && names.contains(p.name@) {
                let i = choose|i: int| 0 <= i < supplies.len() && supplies[i] == p;
                if i < supplies.len() - 1 {
                    assert(init[i] == p);
                    assert(init.contains(p));
                    assert(before.contains(p));
                    let j = choose|j: int| 0 <= j < before.len() && before[j] == p;
                    if names.contains(supplies.last().name@) {
                        assert(before.push(supplies.last())[j] == p);
                    }
                } else {
                    assert(before.push(supplies.last())[before.len() as int] == p);
                }
            }
            if select_supplies(supplies, names).contains(p) {
                let j = choose|j: int| 0 <= j < select_supplies(supplies, names).len() && select_supplies(supplies, names)[j] == p;
                if names.contains(supplies.last().name@) && j == before.len() {
                    assert(p == supplies.last());
                    assert(supplies[supplies.len() - 1] == p);
                } else {
                    assert(before[j] == p);
                    assert(before.contains(p));
                    let i = choose|i: int| 0 <= i < init.len() && init[i] == p;
                    assert(supplies[i] == p);
                }
            }
        }
    }
}

impl<N> CpusDelta<N> {
    /// The deltas of `cpus` are one per CPU, in order, each what the
    /// settings ask of that CPU.
    pub proof fn lemma_deltas_shape<F: Fn(NumberQuery<N>) -> NumberAnswer<N>>(self, cpus: Seq<Cpu>, state: EvalState<N>, f: F)
        requires
            self.spec_deltas(cpus, state, f) is Ok,
        ensures
            self.spec_deltas(cpus, state, f)->Ok_0.len() == cpus.len(),
            forall|i: int| 0 <= i < cpus.len() ==> #[trigger] self.spec_deltas(cpus, state, f)->Ok_0[i]
                == (cpus[i].number, self.spec_delta(cpu_state(state, &cpus[i]), f)->Ok_0),
        decreases cpus.len(),
    {
        if cpus.len() > 0 {
            self.lemma_deltas_shape(cpus.drop_last(), state, f);
        }
    }

    /// What the CPU settings of a rule give: a delta for each CPU it
    /// selects, in order, and no other. Without `for` every CPU is selected;
    /// with it, exactly the CPUs whose numbers it lists (numbers naming no
    /// CPU are ignored). Each delta is what the settings, evaluated for that
    /// CPU, ask: a string setting is unset when it is unset or undefined,
    /// and the string it gives otherwise.
    pub proof fn lemma_eval_per_selected_cpu<F: Fn(NumberQuery<N>) -> NumberAnswer<N>>(self, state: EvalState<N>, f: F)
        requires
            number_model(f),
            self.spec_eval(state, f) is Ok,
        ensures
            ({
                let sel = self.spec_selected(state, f)->Ok_0;
                let ds = self.spec_eval(state, f)->Ok_0.0;
                &&& self.for_ is None ==> sel == state.cpus@
                &&& self.for_ matches Some(e) ==> (spec_eval(e, state, f) matches Ok(Some(Value::List(items)))
                    && cpu_for_numbers(items, f) matches Ok(ns)
                    && (forall|c: Cpu| #[trigger] sel.contains(c) <==> (state.cpus@.contains(c) && ns.contains(c.number))))
                &&& ds.len() == sel.len()
                &&& forall|i: int| 0 <= i < sel.len() ==> {
                    let v = self.spec_delta(cpu_state(state, &sel[i]), f)->Ok_0;
                    let st = cpu_state(state, &sel[i]);
                    &&& #[trigger] ds[i] == (sel[i].number, v)
                    &&& Ok::<Option<Seq<char>>, ConfigFailure>(v.governor) == string_setting(opt_eval(self.governor, st, f), Field::CpuGovernor)
                    &&& Ok::<Option<Seq<char>>, ConfigFailure>(v.energy_performance_preference)
                        == string_setting(opt_eval(self.energy_performance_preference, st, f), Field::CpuEnergyPerformancePreference)
                    &&& Ok::<Option<Seq<char>>, ConfigFailure>(v.energy_perf_bias)
                        == string_setting(opt_eval(self.energy_perf_bias, st, f), Field::CpuEnergyPerfBias)
                    &&& Ok::<Option<u64>, ConfigFailure>(v.frequency_mhz_minimum)
                        == megahertz_setting(f, opt_eval(self.frequency_mhz_minimum, st, f), Field::CpuFrequencyMhzMinimum)
                    &&& Ok::<Option<u64>, ConfigFailure>(v.frequency_mhz_maximum)
                        == megahertz_setting(f, opt_eval(self.frequency_mhz_maximum, st, f), Field::CpuFrequencyMhzMaximum)
                    &&& opt_eval(self.frequency_mhz_minimum, st, f) matches Ok(Some(Value::Number(n)))
                        ==> (answer(f, NumberQuery::RoundedMegahertz(n)) matches NumberAnswer::Megahertz(m) && v.frequency_mhz_minimum == Some(m))
                    &&& opt_eval(self.frequency_mhz_maximum, st, f) matches Ok(Some(Value::Number(n)))
                        ==> (answer(f, NumberQuery::RoundedMegahertz(n)) matches NumberAnswer::Megahertz(m) && v.frequency_mhz_maximum == Some(m))
                }
            }),
    {
        let sel = self.spec_selected(state, f)->Ok_0;
        self.lemma_deltas_shape(sel, state, f);
        if let Some(e) = self.for_ {
            if let Ok(Some(Value::List(items))) = spec_eval(e, state, f) {
                if let Ok(ns) = cpu_for_numbers(items, f) {
                    lemma_select_cpus(state.cpus@, ns);
                }
            }
        }
        assert forall|i: int| 0 <= i < sel.len() implies self.spec_delta(cpu_state(state, &sel[i]), f) is Ok by {
            assert(self.spec_deltas(sel, state, f) is Ok);
            self.lemma_deltas_ok(sel, state, f, i);
        }
        assert forall|i: int| #![trigger sel[i]] 0 <= i < sel.len() implies {
            let v = self.spec_delta(cpu_state(state, &sel[i]), f)->Ok_0;
            let st = cpu_state(state, &sel[i]);
            &&& opt_eval(self.frequency_mhz_minimum, st, f) matches Ok(Some(Value::Number(n)))
                ==> (answer(f, NumberQuery::RoundedMegahertz(n)) matches NumberAnswer::Megahertz(m) && v.frequency_mhz_minimum == Some(m))
            &&& opt_eval(self.frequency_mhz_maximum, st, f) matches Ok(Some(Value::Number(n)))
                ==> (answer(f, NumberQuery::RoundedMegahertz(n)) matches NumberAnswer::Megahertz(m) && v.frequency_mhz_maximum == Some(m))
        } by {
            let st = cpu_state(state, &sel[i]);
            self.lemma_deltas_ok(sel, state, f, i);
            lemma_megahertz_setting(f, opt_eval(self.frequency_mhz_minimum, st, f), Field::CpuFrequencyMhzMinimum);
            lemma_megahertz_setting(f, opt_eval(self.frequency_mhz_maximum, st, f), Field::CpuFrequencyMhzMaximum);
        }
    }

    /// A `cpu.for` that fails, is undefined, is not a list, or lists an
    /// item that is not a number or names no CPU number fails the whole
    /// evaluation.
    pub proof fn lemma_for_failures<F: Fn(NumberQuery<N>) -> NumberAnswer<N>>(self, state: EvalState<N>, f: F)
        ensures
            self.for_ matches Some(e) ==> (spec_eval(e, state, f) is Err ==> self.spec_eval(state, f) is Err),
            self.for_ matches Some(e) ==> (spec_eval(e, state, f) matches Ok(x) && (x is None || !(x->Some_0 is List))
                ==> self.spec_eval(state, f) is Err),
            self.for_ matches Some(e) ==> (spec_eval(e, state, f) matches Ok(Some(Value::List(items)))
                && cpu_for_numbers(items, f) is Err ==> self.spec_eval(state, f) is Err),
    {
    }

    /// Each delta of an evaluation that succeeds is itself evaluated
    /// without failure.
    proof fn lemma_deltas_ok<F: Fn(NumberQuery<N>) -> NumberAnswer<N>>(self, cpus: Seq<Cpu>, state: EvalState<N>, f: F, i: int)
        requires
            self.spec_deltas(cpus, state, f) is Ok,
            0 <= i < cpus.len(),
        ensures
            self.spec_delta(cpu_state(state, &cpus[i]), f) is Ok,
        decreases cpus.len(),
    {
        if i < cpus.len() - 1 {
            self.lemma_deltas_ok(cpus.drop_last(), state, f, i);
        }
    }
}

impl<N> PowersDelta<N> {
    /// Each delta of an evaluation that succeeds is itself evaluated
    /// without failure.
    proof fn lemma_deltas_ok<F: Fn(NumberQuery<N>) -> NumberAnswer<N>>(self, supplies: Seq<PowerSupply>, state: EvalState<N>, f: F, i: int)
        requires
            self.spec_deltas(supplies, state, f) is Ok,
            0 <= i < supplies.len(),
        ensures
            self.spec_delta(supply_state(state, &supplies[i]), f) is Ok,
        decreases supplies.len(),
    {
        if i < supplies.len() - 1 {
            self.lemma_deltas_ok(supplies.drop_last(), state, f, i);
        }
    }

    /// The deltas of `supplies` are one per power supply, in order, each
    /// what the settings ask of that supply.
    pub proof fn lemma_deltas_shape<F: Fn(NumberQuery<N>) -> NumberAnswer<N>>(self, supplies: Seq<PowerSupply>, state: EvalState<N>, f: F)
        requires
            self.spec_deltas(supplies, state, f) is Ok,
        ensures
            self.spec_deltas(supplies, state, f)->Ok_0.len() == supplies.len(),
            forall|i: int| 0 <= i < supplies.len() ==> #[trigger] self.spec_deltas(supplies, state, f)->Ok_0[i]
                == (supplies[i].name@, self.spec_delta(supply_state(state, &supplies[i]), f)->Ok_0),
        decreases supplies.len(),
    {
        if supplies.len() > 0 {
            self.lemma_deltas_shape(supplies.drop_last(), state, f);
        }
    }

    /// What the power settings of a rule give: a delta for each power
    /// supply it selects, in order, and no other. Without `for` every power
    /// supply is selected; with it, exactly those whose names it lists. A
    /// `for` that is undefined, not a list, or lists something other than a
    /// string fails.
    pub proof fn lemma_eval_per_selected_supply<F: Fn(NumberQuery<N>) -> NumberAnswer<N>>(self, state: EvalState<N>, f: F)
        requires
            number_model(f),
        ensures
            self.for_ matches Some(e) ==> (spec_eval(e, state, f) matches Ok(x) && (x is None || !(x->Some_0 is List))
                ==> self.spec_eval(state, f) is Err),
            self.for_ matches Some(e) ==> (spec_eval(e, state, f) matches Ok(Some(Value::List(items)))
                && power_for_names(items) is Err ==> self.spec_eval(state, f) is Err),
            self.spec_eval(state, f) is Ok ==> ({
                let sel = self.spec_selected(state, f)->Ok_0;
                let ds = self.spec_eval(state, f)->Ok_0.0;
                &&& self.for_ is None ==> sel == state.power_supplies@
                &&& self.for_ matches Some(e) ==> (spec_eval(e, state, f) matches Ok(Some(Value::List(items)))
                    && power_for_names(items) matches Ok(ns)
                    && (forall|p: PowerSupply| #[trigger] sel.contains(p) <==> (state.power_supplies@.contains(p) && ns.contains(p.name@))))
                &&& ds.len() == sel.len()
                &&& forall|i: int| 0 <= i < sel.len() ==> {
                    let v = self.spec_delta(supply_state(state, &sel[i]), f)->Ok_0;
                    let st = supply_state(state, &sel[i]);
                    &&& #[trigger] ds[i] == (sel[i].name@, v)
                    &&& Ok::<Option<N>, ConfigFailure>(v.charge_threshold_start)
                        == threshold_setting(f, opt_eval(self.charge_threshold_start, st, f), Field::PowerChargeThresholdStart)
                    &&& Ok::<Option<N>, ConfigFailure>(v.charge_threshold_end)
                        == threshold_setting(f, opt_eval(self.charge_threshold_end, st, f), Field::PowerChargeThresholdEnd)
                    &&& opt_eval(self.charge_threshold_start, st, f) matches Ok(Some(Value::Number(n)))
                        ==> (answer(f, NumberQuery::Hundredth(n)) matches NumberAnswer::Number(m) && v.charge_threshold_start == Some(m))
                    &&& opt_eval(self.charge_threshold_end, st, f) matches Ok(Some(Value::Number(n)))
                        ==> (answer(f, NumberQuery::Hundredth(n)) matches NumberAnswer::Number(m) && v.charge_threshold_end == Some(m))
                }
            }),
    {
        if self.spec_eval(state, f) is Ok {
            let sel = self.spec_selected(state, f)->Ok_0;
            self.lemma_deltas_shape(sel, state, f);
            if let Some(e) = self.for_ {
                if let Ok(Some(Value::List(items))) = spec_eval(e, state, f) {
                    if let Ok(ns) = power_for_names(items) {
                        lemma_select_supplies(state.power_supplies@, ns);
                    }
                }
            }
            assert forall|i: int| 0 <= i < sel.len() implies self.spec_delta(supply_state(state, &sel[i]), f) is Ok by {
                self.lemma_deltas_ok(sel, state, f, i);
            }
            assert forall|i: int| #![trigger sel[i]] 0 <= i < sel.len() implies {
                let v = self.spec_delta(supply_state(state, &sel[i]), f)->Ok_0;
                let st = supply_state(state, &sel[i]);
                &&& opt_eval(self.charge_threshold_start, st, f) matches Ok(Some(Value::Number(n)))
                    ==> (answer(f, NumberQuery::Hundredth(n)) matches NumberAnswer::Number(m) && v.charge_threshold_start == Some(m))
                &&& opt_eval(self.charge_threshold_end, st, f) matches Ok(Some(Value::Number(n)))
                    ==> (answer(f, NumberQuery::Hundredth(n)) matches NumberAnswer::Number(m) && v.charge_threshold_end == Some(m))
            } by {
                let st = supply_state(state, &sel[i]);
                self.lemma_deltas_ok(sel, state, f, i);
                lemma_threshold_setting(f, opt_eval(self.charge_threshold_start, st, f), Field::PowerChargeThresholdStart);
                lemma_threshold_setting(f, opt_eval(self.charge_threshold_end, st, f), Field::PowerChargeThresholdEnd);
            }
        }
    }
}

} // verus!

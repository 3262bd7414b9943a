use vstd::prelude::*;

use crate::cpu::{copy_str, Cpu};
use crate::power_supply::PowerSupply;
use crate::text::{contains_str, str_equal, views};

verus! {

/// An arithmetic or comparison step on numbers of type `N`, which the
/// library hands to the caller's number model (see `number_model`).
#[derive(Clone, Copy, Debug)]
pub enum NumberQuery<N> {
    /// `a + b`
    Plus(N, N),
    /// `a - b`
    Minus(N, N),
    /// `a * b`
    Multiply(N, N),
    /// `a / b`
    Divide(N, N),
    /// `a` raised to the power `b`
    Power(N, N),
    /// `a < b`
    LessThan(N, N),
    /// `a > b`
    MoreThan(N, N),
    /// `a` comes after `b` in the total order of numbers
    TotalGreater(N, N),
    /// `a / 100`
    Hundredth(N),
    /// `a` as a whole number of MHz, rounded to the nearest
    RoundedMegahertz(N),
    /// `a` as a CPU number, when it is whole
    CpuNumber(N),
}

/// The answer of a number model to a `NumberQuery`.
#[derive(Clone, Copy, Debug)]
pub enum NumberAnswer<N> {
    Number(N),
    Truth(bool),
    Megahertz(u64),
    CpuNumber(Option<u32>),
}

/// Whether `a` is of the kind of answer that `q` asks for.
pub open spec fn fits<N>(q: NumberQuery<N>, a: NumberAnswer<N>) -> bool {
    match q {
        NumberQuery::LessThan(..) | NumberQuery::MoreThan(..) | NumberQuery::TotalGreater(..) => a is Truth,
        NumberQuery::RoundedMegahertz(..) => a is Megahertz,
        NumberQuery::CpuNumber(..) => a is CpuNumber,
        _ => a is Number,
    }
}

/// A number model answers every query, always the same way, with an answer
/// of the right kind, and its `TotalGreater` is a strict total order (as
/// `f64::total_cmp` is).
pub open spec fn number_model<N, F: Fn(NumberQuery<N>) -> NumberAnswer<N>>(f: F) -> bool {
    &&& forall|q: NumberQuery<N>| call_requires(f, (q,))
    &&& forall|q: NumberQuery<N>, a: NumberAnswer<N>, b: NumberAnswer<N>|
        #[trigger] call_ensures(f, (q,), a) && #[trigger] call_ensures(f, (q,), b) ==> a == b
    &&& forall|q: NumberQuery<N>, a: NumberAnswer<N>| #[trigger] call_ensures(f, (q,), a) ==> fits(q, a)
    &&& always_answers(f)
    &&& orders_strictly(f)
}

/// Every query has an answer: the model returns for every query.
#[verifier::opaque]
pub open spec fn always_answers<N, F: Fn(NumberQuery<N>) -> NumberAnswer<N>>(f: F) -> bool {
    forall|q: NumberQuery<N>| #[trigger] call_requires(f, (q,)) ==> exists|a: NumberAnswer<N>| call_ensures(f, (q,), a)
}

/// The answer of a number model is of the kind its query asks for.
pub proof fn lemma_answer_fits<N, F: Fn(NumberQuery<N>) -> NumberAnswer<N>>(f: F, q: NumberQuery<N>)
    requires
        number_model(f),
    ensures
        fits(q, answer(f, q)),
{
    reveal(always_answers);
    assert(call_requires(f, (q,)));
    let a = choose|a: NumberAnswer<N>| call_ensures(f, (q,), a);
    assert(call_ensures(f, (q,), a));
}

/// The answer of the number model `f` to `q`.
pub open spec fn answer<N, F: Fn(NumberQuery<N>) -> NumberAnswer<N>>(f: F, q: NumberQuery<N>) -> NumberAnswer<N> {
    choose|a: NumberAnswer<N>| call_ensures(f, (q,), a)
}

/// Asks the number model `f`.
pub fn ask<N: Copy, F: Fn(NumberQuery<N>) -> NumberAnswer<N>>(f: &F, q: NumberQuery<N>) -> (a: NumberAnswer<N>)
    requires
        number_model(*f),
    ensures
        a == answer(*f, q),
        fits(q, a),
{
    let a = f(q);
    proof {
        let b = answer(*f, q);
        assert(call_ensures(*f, (q,), b));
    }
    a
}

/// Asks the number model `f` for a number.
pub fn ask_number<N: Copy, F: Fn(NumberQuery<N>) -> NumberAnswer<N>>(f: &F, q: NumberQuery<N>) -> (n: N)
    requires
        number_model(*f),
        !(q is LessThan || q is MoreThan || q is TotalGreater || q is RoundedMegahertz || q is CpuNumber),
    ensures
        answer(*f, q) == NumberAnswer::Number(n),
{
    match ask(f, q) {
        NumberAnswer::Number(n) => n,
        _ => unreached(),
    }
}

/// Asks the number model `f` for a truth.
pub fn ask_truth<N: Copy, F: Fn(NumberQuery<N>) -> NumberAnswer<N>>(f: &F, q: NumberQuery<N>) -> (b: bool)
    requires
        number_model(*f),
        q is LessThan || q is MoreThan || q is TotalGreater,
    ensures
        answer(*f, q) == NumberAnswer::<N>::Truth(b),
{
    match ask(f, q) {
        NumberAnswer::Truth(b) => b,
        _ => unreached(),
    }
}

/// The number that the model `f` answers to `q`.
pub open spec fn number_of<N, F: Fn(NumberQuery<N>) -> NumberAnswer<N>>(f: F, q: NumberQuery<N>) -> N {
    match answer(f, q) {
        NumberAnswer::Number(n) => n,
        _ => arbitrary(),
    }
}

/// The truth that the model `f` answers to `q`.
pub open spec fn truth_of<N, F: Fn(NumberQuery<N>) -> NumberAnswer<N>>(f: F, q: NumberQuery<N>) -> bool {
    match answer(f, q) {
        NumberAnswer::Truth(b) => b,
        _ => arbitrary(),
    }
}

/// A configuration expression: values, readings of the system, predicates
/// on what the system offers, and operators.
#[derive(Debug)]
pub enum Expression<N> {
    IsGovernorAvailable { value: Box<Expression<N>> },
    IsEnergyPerformancePreferenceAvailable { value: Box<Expression<N>> },
    IsEnergyPerfBiasAvailable { value: Box<Expression<N>> },
    IsPlatformProfileAvailable { value: Box<Expression<N>> },
    IsDriverLoaded { value: Box<Expression<N>> },
    FrequencyAvailable,
    TurboAvailable,
    CpuUsage,
    CpuUsageVolatility,
    CpuTemperature,
    CpuTemperatureVolatility,
    CpuIdleSeconds,
    CpuFrequencyMaximum,
    CpuFrequencyMinimum,
    PowerSupplyCharge,
    PowerSupplyDischargeRate,
    Discharging,
    Boolean(bool),
    Number(N),
    String(String),
    List(Vec<Expression<N>>),
    Plus { a: Box<Expression<N>>, b: Box<Expression<N>> },
    Minus { a: Box<Expression<N>>, b: Box<Expression<N>> },
    Multiply { a: Box<Expression<N>>, b: Box<Expression<N>> },
    Power { a: Box<Expression<N>>, b: Box<Expression<N>> },
    Divide { a: Box<Expression<N>>, b: Box<Expression<N>> },
    LessThan { a: Box<Expression<N>>, b: Box<Expression<N>> },
    MoreThan { a: Box<Expression<N>>, b: Box<Expression<N>> },
    Minimum { numbers: Vec<Expression<N>> },
    Maximum { numbers: Vec<Expression<N>> },
    IfElse {
        condition: Box<Expression<N>>,
        consequence: Box<Expression<N>>,
        alternative: Option<Box<Expression<N>>>,
    },
    IsUnset { a: Box<Expression<N>> },
    And { a: Box<Expression<N>>, b: Box<Expression<N>> },
    Or { a: Box<Expression<N>>, b: Box<Expression<N>> },
    All { all: Vec<Expression<N>> },
    Any { any: Vec<Expression<N>> },
    Not { not: Box<Expression<N>> },
    Equal { a: Box<Expression<N>>, b: Box<Expression<N>>, leeway: Box<Expression<N>> },
}

/// What an expression evaluates to, as a mathematical value.
pub enum Value<N> {
    Boolean(bool),
    Number(N),
    String(Seq<char>),
    List(Seq<Value<N>>),
    /// An expression that is not a value.
    Unevaluated,
}

/// The value that an expression denotes when it is one.
pub open spec fn value_of<N>(e: Expression<N>) -> Value<N>
    decreases e,
{
    match e {
        Expression::Boolean(b) => Value::Boolean(b),
        Expression::Number(n) => Value::Number(n),
        Expression::String(s) => Value::String(s@),
        Expression::List(items) => Value::List(values_of(items@)),
        _ => Value::Unevaluated,
    }
}

/// The values of a sequence of expressions.
pub open spec fn values_of<N>(items: Seq<Expression<N>>) -> Seq<Value<N>>
    decreases items,
{
    if items.len() == 0 {
        seq![]
    } else {
        values_of(items.drop_last()).push(value_of(items.last()))
    }
}

/// Why an expression cannot be evaluated.
#[derive(Debug, Clone, PartialEq, Eq)]
pub enum EvalError {
    /// A value that had to be a number was not.
    NotANumber,
    /// A value that had to be a boolean was not.
    NotABoolean,
    /// A value that had to be a string was not.
    NotAString,
    /// A value that had to be a list was not.
    NotAList,
    /// `minimum` was given no expression.
    EmptyMinimum,
    /// `maximum` was given no expression.
    EmptyMaximum,
    /// The available platform profiles are needed but not yet read; read
    /// them into the state and evaluate again.
    NeedsPlatformProfiles,
    /// Whether this kernel module is loaded is needed but not yet known;
    /// look it up, add it to the state and evaluate again.
    NeedsDriver(String),
}

/// Where an expression is evaluated: for one CPU, for one power supply, or
/// for the whole system.
#[derive(Debug)]
pub enum EvalContext<'a> {
    Cpu(&'a Cpu),
    PowerSupply(&'a PowerSupply),
    WidestPossible,
}

/// The readings of the system that expressions are evaluated against.
pub struct EvalState<'peripherals, 'context, N> {
    pub frequency_available: bool,
    pub turbo_available: bool,
    pub cpu_usage: N,
    pub cpu_usage_volatility: Option<N>,
    pub cpu_temperature: Option<N>,
    pub cpu_temperature_volatility: Option<N>,
    pub cpu_idle_seconds: N,
    pub cpu_frequency_maximum: Option<N>,
    pub cpu_frequency_minimum: Option<N>,
    pub power_supply_charge: Option<N>,
    pub power_supply_discharge_rate: Option<N>,
    pub discharging: bool,
    pub context: EvalContext<'context>,
    pub cpus: &'peripherals [Cpu],
    pub power_supplies: &'peripherals [PowerSupply],
    /// The platform profiles that the firmware offers, once read.
    pub platform_profiles: Option<&'peripherals [String]>,
    /// The kernel modules looked up so far, each with whether it is loaded.
    pub drivers: &'peripherals [(String, bool)],
}


/// Why an evaluation failed, as a mathematical value.
pub enum Failure {
    NotANumber,
    NotABoolean,
    NotAString,
    NotAList,
    EmptyMinimum,
    EmptyMaximum,
    NeedsPlatformProfiles,
    NeedsDriver(Seq<char>),
}

/// An evaluation error as a mathematical value.
pub open spec fn failure_of(e: EvalError) -> Failure {
    match e {
        EvalError::NotANumber => Failure::NotANumber,
        EvalError::NotABoolean => Failure::NotABoolean,
        EvalError::NotAString => Failure::NotAString,
        EvalError::NotAList => Failure::NotAList,
        EvalError::EmptyMinimum => Failure::EmptyMinimum,
        EvalError::EmptyMaximum => Failure::EmptyMaximum,
        EvalError::NeedsPlatformProfiles => Failure::NeedsPlatformProfiles,
        EvalError::NeedsDriver(d) => Failure::NeedsDriver(d@),
    }
}

/// An outcome with its error as a `Failure`.
pub open spec fn lifted<T>(r: Result<T, EvalError>) -> Result<T, Failure> {
    match r {
        Ok(t) => Ok(t),
        Err(e) => Err(failure_of(e)),
    }
}

/// The outcome of an evaluation as a mathematical value: the value it
/// yields, none when the expression is undefined, or why it failed.
pub open spec fn outcome<N>(r: Result<Option<Expression<N>>, EvalError>) -> Result<Option<Value<N>>, Failure> {
    match r {
        Ok(Some(e)) => Ok(Some(value_of(e))),
        Ok(None) => Ok(None),
        Err(e) => Err(failure_of(e)),
    }
}

/// A defined outcome that must be a number.
pub open spec fn then_number<N>(r: Result<Option<Value<N>>, Failure>) -> Result<Option<N>, Failure> {
    match r {
        Err(e) => Err(e),
        Ok(None) => Ok(None),
        Ok(Some(Value::Number(n))) => Ok(Some(n)),
        Ok(Some(_)) => Err(Failure::NotANumber),
    }
}

/// A defined outcome that must be a boolean.
pub open spec fn then_boolean<N>(r: Result<Option<Value<N>>, Failure>) -> Result<Option<bool>, Failure> {
    match r {
        Err(e) => Err(e),
        Ok(None) => Ok(None),
        Ok(Some(Value::Boolean(b))) => Ok(Some(b)),
        Ok(Some(_)) => Err(Failure::NotABoolean),
    }
}

/// A defined outcome that must be a string.
pub open spec fn then_string<N>(r: Result<Option<Value<N>>, Failure>) -> Result<Option<Seq<char>>, Failure> {
    match r {
        Err(e) => Err(e),
        Ok(None) => Ok(None),
        Ok(Some(Value::String(s))) => Ok(Some(s)),
        Ok(Some(_)) => Err(Failure::NotAString),
    }
}

/// Two outcomes in sequence: the first failure or undefined one wins.
pub open spec fn both<A, B>(ra: Result<Option<A>, Failure>, rb: Result<Option<B>, Failure>) -> Result<Option<(A, B)>, Failure> {
    match ra {
        Err(e) => Err(e),
        Ok(None) => Ok(None),
        Ok(Some(a)) => match rb {
            Err(e) => Err(e),
            Ok(None) => Ok(None),
            Ok(Some(b)) => Ok(Some((a, b))),
        },
    }
}

/// The value that the number model gives for `q`.
pub open spec fn model_value<N, F: Fn(NumberQuery<N>) -> NumberAnswer<N>>(f: F, q: NumberQuery<N>) -> Value<N> {
    match answer(f, q) {
        NumberAnswer::Number(n) => Value::Number(n),
        NumberAnswer::Truth(b) => Value::Boolean(b),
        _ => Value::Unevaluated,
    }
}

/// An operation on two defined numbers.
pub open spec fn binary<N, F: Fn(NumberQuery<N>) -> NumberAnswer<N>>(
    f: F,
    ra: Result<Option<Value<N>>, Failure>,
    rb: Result<Option<Value<N>>, Failure>,
    op: spec_fn(N, N) -> NumberQuery<N>,
) -> Result<Option<Value<N>>, Failure> {
    match both(then_number(ra), then_number(rb)) {
        Err(e) => Err(e),
        Ok(None) => Ok(None),
        Ok(Some((x, y))) => Ok(Some(model_value(f, op(x, y)))),
    }
}

/// A value that is defined with the value `v`.
pub open spec fn defined<N>(v: Value<N>) -> Result<Option<Value<N>>, Failure> {
    Ok(Some(v))
}

/// A reading that is undefined when the system did not provide it.
pub open spec fn reading<N>(r: Option<N>) -> Result<Option<Value<N>>, Failure> {
    match r {
        Some(n) => Ok(Some(Value::Number(n))),
        None => Ok(None),
    }
}

/// The lists of offered values that the availability predicates search.
pub enum Offering {
    Governors,
    EnergyPerformancePreferences,
    EnergyPerfBiases,
}

/// What `cpu` offers of `which`.
pub open spec fn offered(cpu: Cpu, which: Offering) -> Seq<Seq<char>> {
    match which {
        Offering::Governors => views(cpu.available_governors@),
        Offering::EnergyPerformancePreferences => views(cpu.available_epps@),
        Offering::EnergyPerfBiases => views(cpu.available_epbs@),
    }
}

/// Whether `s` is offered where `state` is evaluated: by its CPU, by no
/// power supply, or by any CPU of the system.
pub open spec fn is_offered<N>(state: EvalState<N>, which: Offering, s: Seq<char>) -> bool {
    match state.context {
        EvalContext::Cpu(cpu) => offered(*cpu, which).contains(s),
        EvalContext::PowerSupply(_) => false,
        EvalContext::WidestPossible => exists|i: int|
            0 <= i < state.cpus@.len() && #[trigger] offered(state.cpus@[i], which).contains(s),
    }
}

/// An availability predicate on the string that `r` yields.
pub open spec fn availability<N>(state: EvalState<N>, which: Offering, r: Result<Option<Value<N>>, Failure>) -> Result<Option<Value<N>>, Failure> {
    match then_string(r) {
        Err(e) => Err(e),
        Ok(None) => Ok(None),
        Ok(Some(s)) => Ok(Some(Value::Boolean(is_offered(state, which, s)))),
    }
}

/// The first answer recorded for the kernel module `name`.
pub open spec fn driver_lookup(drivers: Seq<(String, bool)>, name: Seq<char>) -> Option<bool>
    decreases drivers.len(),
{
    if drivers.len() == 0 {
        None
    } else if drivers[0].0@ == name {
        Some(drivers[0].1)
    } else {
        driver_lookup(drivers.drop_first(), name)
    }
}

/// The number that a number value holds.
pub open spec fn number_value<N>(v: Value<N>) -> N {
    match v {
        Value::Number(n) => n,
        _ => arbitrary(),
    }
}

/// The least of a non-empty sequence of numbers in the total order, the first
/// of equal ones.
pub open spec fn fold_minimum<N, F: Fn(NumberQuery<N>) -> NumberAnswer<N>>(f: F, ns: Seq<Value<N>>) -> N
    decreases ns.len(),
{
    if ns.len() <= 1 {
        number_value(ns[0])
    } else {
        let acc = fold_minimum(f, ns.drop_last());
        let x = number_value(ns.last());
        if truth_of(f, NumberQuery::TotalGreater(acc, x)) {
            x
        } else {
            acc
        }
    }
}

/// The greatest of a non-empty sequence of numbers in the total order, the
/// last of equal ones.
pub open spec fn fold_maximum<N, F: Fn(NumberQuery<N>) -> NumberAnswer<N>>(f: F, ns: Seq<Value<N>>) -> N
    decreases ns.len(),
{
    if ns.len() <= 1 {
        number_value(ns[0])
    } else {
        let acc = fold_maximum(f, ns.drop_last());
        let x = number_value(ns.last());
        if truth_of(f, NumberQuery::TotalGreater(acc, x)) {
            acc
        } else {
            x
        }
    }
}

/// What evaluating `e` against `state` yields, with `f` as the number model.
pub open spec fn spec_eval<N, F: Fn(NumberQuery<N>) -> NumberAnswer<N>>(e: Expression<N>, state: EvalState<N>, f: F) -> Result<Option<Value<N>>, Failure>
    decreases e,
{
    match e {
        Expression::IsGovernorAvailable { value } => availability(state, Offering::Governors, spec_eval(*value, state, f)),
        Expression::IsEnergyPerformancePreferenceAvailable { value } => availability(state, Offering::EnergyPerformancePreferences, spec_eval(*value, state, f)),
        Expression::IsEnergyPerfBiasAvailable { value } => availability(state, Offering::EnergyPerfBiases, spec_eval(*value, state, f)),
        Expression::IsPlatformProfileAvailable { value } => match then_string(spec_eval(*value, state, f)) {
            Err(e) => Err(e),
            Ok(None) => Ok(None),
            Ok(Some(s)) => match state.platform_profiles {
                None => Err(Failure::NeedsPlatformProfiles),
                Some(p) => Ok(Some(Value::Boolean(views(p@).contains(s)))),
            },
        },
        Expression::IsDriverLoaded { value } => match then_string(spec_eval(*value, state, f)) {
            Err(e) => Err(e),
            Ok(None) => Ok(None),
            Ok(Some(s)) => match driver_lookup(state.drivers@, s) {
                None => Err(Failure::NeedsDriver(s)),
                Some(loaded) => Ok(Some(Value::Boolean(loaded))),
            },
        },
        Expression::FrequencyAvailable => defined(Value::Boolean(state.frequency_available)),
        Expression::TurboAvailable => defined(Value::Boolean(state.turbo_available)),
        Expression::CpuUsage => defined(Value::Number(state.cpu_usage)),
        Expression::CpuUsageVolatility => reading(state.cpu_usage_volatility),
        Expression::CpuTemperature => reading(state.cpu_temperature),
        Expression::CpuTemperatureVolatility => reading(state.cpu_temperature_volatility),
        Expression::CpuIdleSeconds => defined(Value::Number(state.cpu_idle_seconds)),
        Expression::CpuFrequencyMaximum => reading(state.cpu_frequency_maximum),
        Expression::CpuFrequencyMinimum => reading(state.cpu_frequency_minimum),
        Expression::PowerSupplyCharge => reading(state.power_supply_charge),
        Expression::PowerSupplyDischargeRate => reading(state.power_supply_discharge_rate),
        Expression::Discharging => defined(Value::Boolean(state.discharging)),
        Expression::Boolean(b) => defined(Value::Boolean(b)),
        Expression::Number(n) => defined(Value::Number(n)),
        Expression::String(s) => defined(Value::String(s@)),
        Expression::List(items) => match spec_eval_items(items@, false, state, f) {
            Err(e) => Err(e),
            Ok(None) => Ok(None),
            Ok(Some(vs)) => Ok(Some(Value::List(vs))),
        },
        Expression::Plus { a, b } => binary(f, spec_eval(*a, state, f), spec_eval(*b, state, f), |x: N, y: N| NumberQuery::Plus(x, y)),
        Expression::Minus { a, b } => binary(f, spec_eval(*a, state, f), spec_eval(*b, state, f), |x: N, y: N| NumberQuery::Minus(x, y)),
        Expression::Multiply { a, b } => binary(f, spec_eval(*a, state, f), spec_eval(*b, state, f), |x: N, y: N| NumberQuery::Multiply(x, y)),
        Expression::Power { a, b } => binary(f, spec_eval(*a, state, f), spec_eval(*b, state, f), |x: N, y: N| NumberQuery::Power(x, y)),
        Expression::Divide { a, b } => binary(f, spec_eval(*a, state, f), spec_eval(*b, state, f), |x: N, y: N| NumberQuery::Divide(x, y)),
        Expression::LessThan { a, b } => binary(f, spec_eval(*a, state, f), spec_eval(*b, state, f), |x: N, y: N| NumberQuery::LessThan(x, y)),
        Expression::MoreThan { a, b } => binary(f, spec_eval(*a, state, f), spec_eval(*b, state, f), |x: N, y: N| NumberQuery::MoreThan(x, y)),
        Expression::Minimum { numbers } => match spec_eval_items(numbers@, true, state, f) {
            Err(e) => Err(e),
            Ok(None) => Ok(None),
            Ok(Some(ns)) => if ns.len() == 0 {
                Err(Failure::EmptyMinimum)
            } else {
                Ok(Some(Value::Number(fold_minimum(f, ns))))
            },
        },
        Expression::Maximum { numbers } => match spec_eval_items(numbers@, true, state, f) {
            Err(e) => Err(e),
            Ok(None) => Ok(None),
            Ok(Some(ns)) => if ns.len() == 0 {
                Err(Failure::EmptyMaximum)
            } else {
                Ok(Some(Value::Number(fold_maximum(f, ns))))
            },
        },
        Expression::IsUnset { a } => match spec_eval(*a, state, f) {
            Err(e) => Err(e),
            Ok(r) => Ok(Some(Value::Boolean(r is None))),
        },
        Expression::IfElse { condition, consequence, alternative } => match then_boolean(spec_eval(*condition, state, f)) {
            Err(e) => Err(e),
            Ok(None) => Ok(None),
            Ok(Some(true)) => spec_eval(*consequence, state, f),
            Ok(Some(false)) => match alternative {
                Some(alt) => spec_eval(*alt, state, f),
                None => Ok(None),
            },
        },
        Expression::And { a, b } => match then_boolean(spec_eval(*a, state, f)) {
            Err(e) => Err(e),
            Ok(None) => Ok(None),
            Ok(Some(false)) => defined(Value::Boolean(false)),
            Ok(Some(true)) => match then_boolean(spec_eval(*b, state, f)) {
                Err(e) => Err(e),
                Ok(None) => Ok(None),
                Ok(Some(y)) => defined(Value::Boolean(y)),
            },
        },
        Expression::Or { a, b } => match then_boolean(spec_eval(*a, state, f)) {
            Err(e) => Err(e),
            Ok(None) => Ok(None),
            Ok(Some(true)) => defined(Value::Boolean(true)),
            Ok(Some(false)) => match then_boolean(spec_eval(*b, state, f)) {
                Err(e) => Err(e),
                Ok(None) => Ok(None),
                Ok(Some(y)) => defined(Value::Boolean(y)),
            },
        },
        Expression::All { all } => match spec_eval_junction(all@, true, state, f) {
            Err(e) => Err(e),
            Ok(None) => Ok(None),
            Ok(Some(b)) => defined(Value::Boolean(b)),
        },
        Expression::Any { any } => match spec_eval_junction(any@, false, state, f) {
            Err(e) => Err(e),
            Ok(None) => Ok(None),
            Ok(Some(b)) => defined(Value::Boolean(b)),
        },
        Expression::Not { not } => match then_boolean(spec_eval(*not, state, f)) {
            Err(e) => Err(e),
            Ok(None) => Ok(None),
            Ok(Some(b)) => defined(Value::Boolean(!b)),
        },
        Expression::Equal { a, b, leeway } => match both(
            then_number(spec_eval(*a, state, f)),
            both(then_number(spec_eval(*b, state, f)), then_number(spec_eval(*leeway, state, f))),
        ) {
            Err(e) => Err(e),
            Ok(None) => Ok(None),
            Ok(Some((x, (y, l)))) => {
                let minimum = number_of(f, NumberQuery::Minus(x, l));
                let maximum = number_of(f, NumberQuery::Plus(x, l));
                defined(
                    Value::Boolean(
                        truth_of(f, NumberQuery::LessThan(minimum, y)) && truth_of(
                            f,
                            NumberQuery::LessThan(y, maximum),
                        ),
                    ),
                )
            },
        },
    }
}

/// Evaluating `items` in order, each to a number when `numeric`: the values,
/// or the first failure or undefined item.
pub open spec fn spec_eval_items<N, F: Fn(NumberQuery<N>) -> NumberAnswer<N>>(items: Seq<Expression<N>>, numeric: bool, state: EvalState<N>, f: F) -> Result<Option<Seq<Value<N>>>, Failure>
    decreases items,
{
    if items.len() == 0 {
        Ok(Some(seq![]))
    } else {
        match spec_eval(items[0], state, f) {
            Err(e) => Err(e),
            Ok(None) => Ok(None),
            Ok(Some(v)) => if numeric && !(v is Number) {
                Err(Failure::NotANumber)
            } else {
                match spec_eval_items(items.drop_first(), numeric, state, f) {
                    Err(e) => Err(e),
                    Ok(None) => Ok(None),
                    Ok(Some(rest)) => Ok(Some(seq![v] + rest)),
                }
            },
        }
    }
}

/// `all` (when `conjunction`) or `any` of boolean `items`, evaluated in order
/// and stopping at the first that decides it.
pub open spec fn spec_eval_junction<N, F: Fn(NumberQuery<N>) -> NumberAnswer<N>>(items: Seq<Expression<N>>, conjunction: bool, state: EvalState<N>, f: F) -> Result<Option<bool>, Failure>
    decreases items,
{
    if items.len() == 0 {
        Ok(Some(conjunction))
    } else {
        match then_boolean(spec_eval(items[0], state, f)) {
            Err(e) => Err(e),
            Ok(None) => Ok(None),
            Ok(Some(b)) => if b != conjunction {
                Ok(Some(b))
            } else {
                spec_eval_junction(items.drop_first(), conjunction, state, f)
            },
        }
    }
}


/// An outcome holding a string, with the string as its view.
pub open spec fn lifted_string(r: Result<Option<String>, EvalError>) -> Result<Option<Seq<char>>, Failure> {
    match r {
        Ok(Some(s)) => Ok(Some(s@)),
        Ok(None) => Ok(None),
        Err(e) => Err(failure_of(e)),
    }
}

/// The number an operand evaluated to, if it is defined.
fn number_result<N: Copy>(r: Result<Option<Expression<N>>, EvalError>) -> (x: Result<Option<N>, EvalError>)
    ensures
        lifted(x) == then_number(outcome(r)),
{
    match r {
        Err(e) => Err(e),
        Ok(None) => Ok(None),
        Ok(Some(Expression::Number(n))) => Ok(Some(n)),
        Ok(Some(_)) => Err(EvalError::NotANumber),
    }
}

/// The boolean an operand evaluated to, if it is defined.
fn boolean_result<N: Copy>(r: Result<Option<Expression<N>>, EvalError>) -> (x: Result<Option<bool>, EvalError>)
    ensures
        lifted(x) == then_boolean(outcome(r)),
{
    match r {
        Err(e) => Err(e),
        Ok(None) => Ok(None),
        Ok(Some(Expression::Boolean(b))) => Ok(Some(b)),
        Ok(Some(_)) => Err(EvalError::NotABoolean),
    }
}

/// The string an operand evaluated to, if it is defined.
fn string_result<N: Copy>(r: Result<Option<Expression<N>>, EvalError>) -> (x: Result<Option<String>, EvalError>)
    ensures
        lifted_string(x) == then_string(outcome(r)),
{
    match r {
        Err(e) => Err(e),
        Ok(None) => Ok(None),
        Ok(Some(Expression::String(s))) => Ok(Some(s)),
        Ok(Some(_)) => Err(EvalError::NotAString),
    }
}

/// Whether some CPU of `cpus` offers `s` as `which`.
fn offered_by_any(cpus: &[Cpu], which: &Offering, s: &str) -> (found: bool)
    ensures
        found == exists|i: int| 0 <= i < cpus@.len() && #[trigger] offered(cpus@[i], *which).contains(s@),
{
    let mut i: usize = 0;
    while i < cpus.len()
        invariant
            0 <= i <= cpus@.len(),
            forall|j: int| 0 <= j < i ==> !(#[trigger] offered(cpus@[j], *which).contains(s@)),
        decreases cpus@.len() - i,
    {
        if offered_by(&cpus[i], which, s) {
            return true;
        }
        i = i + 1;
    }
    false
}

/// Whether `cpu` offers `s` as `which`.
fn offered_by(cpu: &Cpu, which: &Offering, s: &str) -> (found: bool)
    ensures
        found == offered(*cpu, *which).contains(s@),
{
    match which {
        Offering::Governors => contains_str(&cpu.available_governors, s),
        Offering::EnergyPerformancePreferences => contains_str(&cpu.available_epps, s),
        Offering::EnergyPerfBiases => contains_str(&cpu.available_epbs, s),
    }
}

/// The first answer recorded for the kernel module `name`.
fn find_driver(drivers: &[(String, bool)], name: &str) -> (loaded: Option<bool>)
    ensures
        loaded == driver_lookup(drivers@, name@),
{
    let mut i: usize = 0;
    assert(drivers@.skip(0) == drivers@);
    while i < drivers.len()
        invariant
            0 <= i <= drivers@.len(),
            driver_lookup(drivers@, name@) == driver_lookup(drivers@.skip(i as int), name@),
        decreases drivers@.len() - i,
    {
        assert(drivers@.skip(i as int).drop_first() == drivers@.skip(i + 1));
        if crate::text::str_equal(drivers[i].0.as_str(), name) {
            return Some(drivers[i].1);
        }
        i = i + 1;
    }
    None
}

impl<'p, 'c, N: Copy> EvalState<'p, 'c, N> {
    /// The same readings, evaluated in `context`.
    pub fn in_context<'d>(&self, context: EvalContext<'d>) -> (state: EvalState<'p, 'd, N>)
        ensures
            state == (EvalState { context, ..*self }),
    {
        EvalState {
            frequency_available: self.frequency_available,
            turbo_available: self.turbo_available,
            cpu_usage: self.cpu_usage,
            cpu_usage_volatility: self.cpu_usage_volatility,
            cpu_temperature: self.cpu_temperature,
            cpu_temperature_volatility: self.cpu_temperature_volatility,
            cpu_idle_seconds: self.cpu_idle_seconds,
            cpu_frequency_maximum: self.cpu_frequency_maximum,
            cpu_frequency_minimum: self.cpu_frequency_minimum,
            power_supply_charge: self.power_supply_charge,
            power_supply_discharge_rate: self.power_supply_discharge_rate,
            discharging: self.discharging,
            context,
            cpus: self.cpus,
            power_supplies: self.power_supplies,
            platform_profiles: self.platform_profiles,
            drivers: self.drivers,
        }
    }
}

/// The reading of the system that a configuration names by a string, such
/// as `?discharging` or `%cpu-usage`, if the string is such a name.
pub open spec fn spec_named<N>(name: Seq<char>) -> Option<Expression<N>> {
    if name == "?frequency-available"@ {
        Some(Expression::FrequencyAvailable)
    } else if name == "?turbo-available"@ {
        Some(Expression::TurboAvailable)
    } else if name == "%cpu-usage"@ {
        Some(Expression::CpuUsage)
    } else if name == "$cpu-usage-volatility"@ {
        Some(Expression::CpuUsageVolatility)
    } else if name == "$cpu-temperature"@ {
        Some(Expression::CpuTemperature)
    } else if name == "$cpu-temperature-volatility"@ {
        Some(Expression::CpuTemperatureVolatility)
    } else if name == "$cpu-idle-seconds"@ {
        Some(Expression::CpuIdleSeconds)
    } else if name == "$cpu-frequency-maximum"@ {
        Some(Expression::CpuFrequencyMaximum)
    } else if name == "$cpu-frequency-minimum"@ {
        Some(Expression::CpuFrequencyMinimum)
    } else if name == "%power-supply-charge"@ {
        Some(Expression::PowerSupplyCharge)
    } else if name == "%power-supply-discharge-rate"@ {
        Some(Expression::PowerSupplyDischargeRate)
    } else if name == "?discharging"@ {
        Some(Expression::Discharging)
    } else {
        None
    }
}

impl<N: Copy> Expression<N> {
    /// The reading that `name` names (see `spec_named`); a configuration
    /// string that names none is a plain string.
    pub fn named(name: &str) -> (e: Option<Expression<N>>)
        ensures
            e == spec_named::<N>(name@),
    {
        if str_equal(name, "?frequency-available") {
            Some(Expression::FrequencyAvailable)
        } else if str_equal(name, "?turbo-available") {
            Some(Expression::TurboAvailable)
        } else if str_equal(name, "%cpu-usage") {
            Some(Expression::CpuUsage)
        } else if str_equal(name, "$cpu-usage-volatility") {
            Some(Expression::CpuUsageVolatility)
        } else if str_equal(name, "$cpu-temperature") {
            Some(Expression::CpuTemperature)
        } else if str_equal(name, "$cpu-temperature-volatility") {
            Some(Expression::CpuTemperatureVolatility)
        } else if str_equal(name, "$cpu-idle-seconds") {
            Some(Expression::CpuIdleSeconds)
        } else if str_equal(name, "$cpu-frequency-maximum") {
            Some(Expression::CpuFrequencyMaximum)
        } else if str_equal(name, "$cpu-frequency-minimum") {
            Some(Expression::CpuFrequencyMinimum)
        } else if str_equal(name, "%power-supply-charge") {
            Some(Expression::PowerSupplyCharge)
        } else if str_equal(name, "%power-supply-discharge-rate") {
            Some(Expression::PowerSupplyDischargeRate)
        } else if str_equal(name, "?discharging") {
            Some(Expression::Discharging)
        } else {
            None
        }
    }
}

impl<N: Copy> Expression<N> {
    /// The number this expression is, or `NotANumber`.
    pub fn try_into_number(self) -> (r: Result<N, EvalError>)
        ensures
            r == match self {
                Expression::Number(n) => Ok::<N, EvalError>(n),
                _ => Err(EvalError::NotANumber),
            },
    {
        match self {
            Expression::Number(n) => Ok(n),
            _ => Err(EvalError::NotANumber),
        }
    }

    /// The boolean this expression is, or `NotABoolean`.
    pub fn try_into_boolean(self) -> (r: Result<bool, EvalError>)
        ensures
            r == match self {
                Expression::Boolean(b) => Ok::<bool, EvalError>(b),
                _ => Err(EvalError::NotABoolean),
            },
    {
        match self {
            Expression::Boolean(b) => Ok(b),
            _ => Err(EvalError::NotABoolean),
        }
    }

    /// The string this expression is, or `NotAString`.
    pub fn try_into_string(self) -> (r: Result<String, EvalError>)
        ensures
            r == match self {
                Expression::String(s) => Ok::<String, EvalError>(s),
                _ => Err(EvalError::NotAString),
            },
    {
        match self {
            Expression::String(s) => Ok(s),
            _ => Err(EvalError::NotAString),
        }
    }

    /// The list this expression is, or `NotAList`.
    pub fn try_into_list(self) -> (r: Result<Vec<Expression<N>>, EvalError>)
        ensures
            r == match self {
                Expression::List(l) => Ok::<Vec<Expression<N>>, EvalError>(l),
                _ => Err(EvalError::NotAList),
            },
    {
        match self {
            Expression::List(l) => Ok(l),
            _ => Err(EvalError::NotAList),
        }
    }
}


impl<N: Copy> Expression<N> {
    /// Evaluates this expression against `state`, with `numbers` as the
    /// number model. The outcome is a value, `None` when the expression is
    /// undefined (a missing reading, or an `if` without `else` whose
    /// condition is false), or why it cannot be evaluated; exactly
    /// `spec_eval`.
    pub fn eval<F: Fn(NumberQuery<N>) -> NumberAnswer<N>>(&self, state: &EvalState<N>, numbers: &F) -> (result: Result<Option<Expression<N>>, EvalError>)
        requires
            number_model(*numbers),
        ensures
            outcome(result) == spec_eval(*self, *state, *numbers),
        decreases self,
    {
        match self {
            Expression::IsGovernorAvailable { value } => {
                let s = match string_result(value.eval(state, numbers)) {
                    Err(e) => return Err(e),
                    Ok(None) => return Ok(None),
                    Ok(Some(s)) => s,
                };
                Ok(Some(Expression::Boolean(self::available(state, &Offering::Governors, s.as_str()))))
            },
            Expression::IsEnergyPerformancePreferenceAvailable { value } => {
                let s = match string_result(value.eval(state, numbers)) {
                    Err(e) => return Err(e),
                    Ok(None) => return Ok(None),
                    Ok(Some(s)) => s,
                };
                Ok(Some(Expression::Boolean(self::available(state, &Offering::EnergyPerformancePreferences, s.as_str()))))
            },
            Expression::IsEnergyPerfBiasAvailable { value } => {
                let s = match string_result(value.eval(state, numbers)) {
                    Err(e) => return Err(e),
                    Ok(None) => return Ok(None),
                    Ok(Some(s)) => s,
                };
                Ok(Some(Expression::Boolean(self::available(state, &Offering::EnergyPerfBiases, s.as_str()))))
            },
            Expression::IsPlatformProfileAvailable { value } => {
                let s = match string_result(value.eval(state, numbers)) {
                    Err(e) => return Err(e),
                    Ok(None) => return Ok(None),
                    Ok(Some(s)) => s,
                };
                match state.platform_profiles {
                    None => Err(EvalError::NeedsPlatformProfiles),
                    Some(profiles) => Ok(Some(Expression::Boolean(contains_in(profiles, s.as_str())))),
                }
            },
            Expression::IsDriverLoaded { value } => {
                let s = match string_result(value.eval(state, numbers)) {
                    Err(e) => return Err(e),
                    Ok(None) => return Ok(None),
                    Ok(Some(s)) => s,
                };
                match find_driver(state.drivers, s.as_str()) {
                    None => Err(EvalError::NeedsDriver(s)),
                    Some(loaded) => Ok(Some(Expression::Boolean(loaded))),
                }
            },
            Expression::FrequencyAvailable => Ok(Some(Expression::Boolean(state.frequency_available))),
            Expression::TurboAvailable => Ok(Some(Expression::Boolean(state.turbo_available))),
            Expression::CpuUsage => Ok(Some(Expression::Number(state.cpu_usage))),
            Expression::CpuUsageVolatility => Ok(number_reading(state.cpu_usage_volatility)),
            Expression::CpuTemperature => Ok(number_reading(state.cpu_temperature)),
            Expression::CpuTemperatureVolatility => Ok(number_reading(state.cpu_temperature_volatility)),
            Expression::CpuIdleSeconds => Ok(Some(Expression::Number(state.cpu_idle_seconds))),
            Expression::CpuFrequencyMaximum => Ok(number_reading(state.cpu_frequency_maximum)),
            Expression::CpuFrequencyMinimum => Ok(number_reading(state.cpu_frequency_minimum)),
            Expression::PowerSupplyCharge => Ok(number_reading(state.power_supply_charge)),
            Expression::PowerSupplyDischargeRate => Ok(number_reading(state.power_supply_discharge_rate)),
            Expression::Discharging => Ok(Some(Expression::Boolean(state.discharging))),
            Expression::Boolean(b) => Ok(Some(Expression::Boolean(*b))),
            Expression::Number(n) => Ok(Some(Expression::Number(*n))),
            Expression::String(s) => Ok(Some(Expression::String(copy_str(s.as_str())))),
            Expression::List(items) => {
                match eval_items(items, false, state, numbers) {
                    Err(e) => Err(e),
                    Ok(None) => Ok(None),
                    Ok(Some(values)) => Ok(Some(Expression::List(values))),
                }
            },
            Expression::Plus { a, b } => {
                let x = match number_result(a.eval(state, numbers)) { Err(e) => return Err(e), Ok(None) => return Ok(None), Ok(Some(x)) => x };
                let y = match number_result(b.eval(state, numbers)) { Err(e) => return Err(e), Ok(None) => return Ok(None), Ok(Some(y)) => y };
                Ok(Some(Expression::Number(ask_number(numbers, NumberQuery::Plus(x, y)))))
            },
            Expression::Minus { a, b } => {
                let x = match number_result(a.eval(state, numbers)) { Err(e) => return Err(e), Ok(None) => return Ok(None), Ok(Some(x)) => x };
                let y = match number_result(b.eval(state, numbers)) { Err(e) => return Err(e), Ok(None) => return Ok(None), Ok(Some(y)) => y };
                Ok(Some(Expression::Number(ask_number(numbers, NumberQuery::Minus(x, y)))))
            },
            Expression::Multiply { a, b } => {
                let x = match number_result(a.eval(state, numbers)) { Err(e) => return Err(e), Ok(None) => return Ok(None), Ok(Some(x)) => x };
                let y = match number_result(b.eval(state, numbers)) { Err(e) => return Err(e), Ok(None) => return Ok(None), Ok(Some(y)) => y };
                Ok(Some(Expression::Number(ask_number(numbers, NumberQuery::Multiply(x, y)))))
            },
            Expression::Power { a, b } => {
                let x = match number_result(a.eval(state, numbers)) { Err(e) => return Err(e), Ok(None) => return Ok(None), Ok(Some(x)) => x };
                let y = match number_result(b.eval(state, numbers)) { Err(e) => return Err(e), Ok(None) => return Ok(None), Ok(Some(y)) => y };
                Ok(Some(Expression::Number(ask_number(numbers, NumberQuery::Power(x, y)))))
            },
            Expression::Divide { a, b } => {
                let x = match number_result(a.eval(state, numbers)) { Err(e) => return Err(e), Ok(None) => return Ok(None), Ok(Some(x)) => x };
                let y = match number_result(b.eval(state, numbers)) { Err(e) => return Err(e), Ok(None) => return Ok(None), Ok(Some(y)) => y };
                Ok(Some(Expression::Number(ask_number(numbers, NumberQuery::Divide(x, y)))))
            },
            Expression::LessThan { a, b } => {
                let x = match number_result(a.eval(state, numbers)) { Err(e) => return Err(e), Ok(None) => return Ok(None), Ok(Some(x)) => x };
                let y = match number_result(b.eval(state, numbers)) { Err(e) => return Err(e), Ok(None) => return Ok(None), Ok(Some(y)) => y };
                Ok(Some(Expression::Boolean(ask_truth(numbers, NumberQuery::LessThan(x, y)))))
            },
            Expression::MoreThan { a, b } => {
                let x = match number_result(a.eval(state, numbers)) { Err(e) => return Err(e), Ok(None) => return Ok(None), Ok(Some(x)) => x };
                let y = match number_result(b.eval(state, numbers)) { Err(e) => return Err(e), Ok(None) => return Ok(None), Ok(Some(y)) => y };
                Ok(Some(Expression::Boolean(ask_truth(numbers, NumberQuery::MoreThan(x, y)))))
            },
            Expression::Minimum { numbers: items } => {
                let values = match eval_items(items, true, state, numbers) {
                    Err(e) => return Err(e),
                    Ok(None) => return Ok(None),
                    Ok(Some(values)) => values,
                };
                if values.len() == 0 {
                    return Err(EvalError::EmptyMinimum);
                }
                Ok(Some(Expression::Number(fold_extreme(&values, true, numbers))))
            },
            Expression::Maximum { numbers: items } => {
                let values = match eval_items(items, true, state, numbers) {
                    Err(e) => return Err(e),
                    Ok(None) => return Ok(None),
                    Ok(Some(values)) => values,
                };
                if values.len() == 0 {
                    return Err(EvalError::EmptyMaximum);
                }
                Ok(Some(Expression::Number(fold_extreme(&values, false, numbers))))
            },
            Expression::IsUnset { a } => {
                match a.eval(state, numbers) {
                    Err(e) => Err(e),
                    Ok(r) => Ok(Some(Expression::Boolean(r.is_none()))),
                }
            },
            Expression::IfElse { condition, consequence, alternative } => {
                let c = match boolean_result(condition.eval(state, numbers)) { Err(e) => return Err(e), Ok(None) => return Ok(None), Ok(Some(c)) => c };
                if c {
                    consequence.eval(state, numbers)
                } else {
                    match alternative {
                        Some(alt) => alt.eval(state, numbers),
                        None => Ok(None),
                    }
                }
            },
            Expression::And { a, b } => {
                let x = match boolean_result(a.eval(state, numbers)) { Err(e) => return Err(e), Ok(None) => return Ok(None), Ok(Some(x)) => x };
                if !x {
                    return Ok(Some(Expression::Boolean(false)));
                }
                let y = match boolean_result(b.eval(state, numbers)) { Err(e) => return Err(e), Ok(None) => return Ok(None), Ok(Some(y)) => y };
                Ok(Some(Expression::Boolean(y)))
            },
            Expression::Or { a, b } => {
                let x = match boolean_result(a.eval(state, numbers)) { Err(e) => return Err(e), Ok(None) => return Ok(None), Ok(Some(x)) => x };
                if x {
                    return Ok(Some(Expression::Boolean(true)));
                }
                let y = match boolean_result(b.eval(state, numbers)) { Err(e) => return Err(e), Ok(None) => return Ok(None), Ok(Some(y)) => y };
                Ok(Some(Expression::Boolean(y)))
            },
            Expression::All { all } => {
                match eval_junction(all, true, state, numbers) {
                    Err(e) => Err(e),
                    Ok(None) => Ok(None),
                    Ok(Some(b)) => Ok(Some(Expression::Boolean(b))),
                }
            },
            Expression::Any { any } => {
                match eval_junction(any, false, state, numbers) {
                    Err(e) => Err(e),
                    Ok(None) => Ok(None),
                    Ok(Some(b)) => Ok(Some(Expression::Boolean(b))),
                }
            },
            Expression::Not { not } => {
                let x = match boolean_result(not.eval(state, numbers)) { Err(e) => return Err(e), Ok(None) => return Ok(None), Ok(Some(x)) => x };
                Ok(Some(Expression::Boolean(!x)))
            },
            Expression::Equal { a, b, leeway } => {
                let x = match number_result(a.eval(state, numbers)) { Err(e) => return Err(e), Ok(None) => return Ok(None), Ok(Some(x)) => x };
                let y = match number_result(b.eval(state, numbers)) { Err(e) => return Err(e), Ok(None) => return Ok(None), Ok(Some(y)) => y };
                let l = match number_result(leeway.eval(state, numbers)) { Err(e) => return Err(e), Ok(None) => return Ok(None), Ok(Some(l)) => l };
                let minimum = ask_number(numbers, NumberQuery::Minus(x, l));
                let maximum = ask_number(numbers, NumberQuery::Plus(x, l));
                let within = ask_truth(numbers, NumberQuery::LessThan(minimum, y)) && ask_truth(numbers, NumberQuery::LessThan(y, maximum));
                Ok(Some(Expression::Boolean(within)))
            },
        }
    }
}


/// `values_of` keeps the length and maps each item.
pub proof fn lemma_values_of<N>(items: Seq<Expression<N>>)
    ensures
        values_of(items).len() == items.len(),
        forall|k: int| 0 <= k < items.len() ==> #[trigger] values_of(items)[k] == value_of(items[k]),
    decreases items.len(),
{
    if items.len() > 0 {
        lemma_values_of(items.drop_last());
    }
}

/// `vs` followed by the values of a defined outcome.
pub open spec fn prepend<N>(vs: Seq<Value<N>>, r: Result<Option<Seq<Value<N>>>, Failure>) -> Result<Option<Seq<Value<N>>>, Failure> {
    match r {
        Ok(Some(rest)) => Ok(Some(vs + rest)),
        other => other,
    }
}

/// The outcome of evaluating a sequence of expressions, as values.
pub open spec fn items_outcome<N>(r: Result<Option<Vec<Expression<N>>>, EvalError>) -> Result<Option<Seq<Value<N>>>, Failure> {
    match r {
        Ok(Some(v)) => Ok(Some(values_of(v@))),
        Ok(None) => Ok(None),
        Err(e) => Err(failure_of(e)),
    }
}

/// A reading as a number expression, undefined when absent.
fn number_reading<N: Copy>(r: Option<N>) -> (e: Option<Expression<N>>)
    ensures
        outcome(Ok(e)) == reading(r),
{
    match r {
        Some(n) => Some(Expression::Number(n)),
        None => None,
    }
}

/// Whether `list` holds a string equal to `s`.
fn contains_in(list: &[String], s: &str) -> (found: bool)
    ensures
        found == views(list@).contains(s@),
{
    let mut i: usize = 0;
    while i < list.len()
        invariant
            0 <= i <= list@.len(),
            forall|j: int| 0 <= j < i ==> list@[j]@ != s@,
        decreases list@.len() - i,
    {
        if crate::text::str_equal(list[i].as_str(), s) {
            assert(views(list@)[i as int] == s@);
            return true;
        }
        i = i + 1;
    }
    assert forall|j: int| 0 <= j < views(list@).len() implies views(list@)[j] != s@ by {
        assert(views(list@)[j] == list@[j]@);
    }
    false
}

/// Whether `s` is offered as `which` where `state` is evaluated.
fn available<N>(state: &EvalState<N>, which: &Offering, s: &str) -> (found: bool)
    ensures
        found == is_offered(*state, *which, s@),
{
    match state.context {
        EvalContext::Cpu(cpu) => offered_by(cpu, which, s),
        EvalContext::PowerSupply(_) => false,
        EvalContext::WidestPossible => offered_by_any(state.cpus, which, s),
    }
}

/// Evaluates `items` in order, each to a number when `numeric`.
fn eval_items<N: Copy, F: Fn(NumberQuery<N>) -> NumberAnswer<N>>(items: &Vec<Expression<N>>, numeric: bool, state: &EvalState<N>, numbers: &F) -> (result: Result<Option<Vec<Expression<N>>>, EvalError>)
    requires
        number_model(*numbers),
    ensures
        items_outcome(result) == spec_eval_items(items@, numeric, *state, *numbers),
        result matches Ok(Some(v)) ==> numeric ==> forall|j: int| 0 <= j < v@.len() ==> #[trigger] v@[j] is Number,
    decreases items@,
{
    let mut values: Vec<Expression<N>> = Vec::new();
    let mut i: usize = 0;
    assert(items@.skip(0) == items@);
    while i < items.len()
        invariant
            0 <= i <= items@.len(),
            number_model(*numbers),
            spec_eval_items(items@, numeric, *state, *numbers) == prepend(
                values_of(values@),
                spec_eval_items(items@.skip(i as int), numeric, *state, *numbers),
            ),
            numeric ==> forall|j: int| 0 <= j < values@.len() ==> #[trigger] values@[j] is Number,
        decreases items@.len() - i,
    {
        let ghost rest = items@.skip(i as int);
        assert(rest[0] == items@[i as int]);
        assert(rest.drop_first() == items@.skip(i + 1));
        let r = items[i].eval(state, numbers);
        match r {
            Err(e) => {
                return Err(e);
            },
            Ok(None) => {
                return Ok(None);
            },
            Ok(Some(v)) => {
                let is_number = match &v {
                    Expression::Number(_) => true,
                    _ => false,
                };
                if numeric && !is_number {
                    return Err(EvalError::NotANumber);
                }
                let ghost before = values_of(values@);
                let ghost old_values = values@;
                values.push(v);
                assert(values@.drop_last() == old_values);
                assert(values_of(values@) == before.push(value_of(v)));
                assert(forall|t: Seq<Value<N>>| #[trigger] (before + (seq![value_of(v)] + t)) == before.push(value_of(v)) + t) by {
                    assert forall|t: Seq<Value<N>>| #[trigger] (before + (seq![value_of(v)] + t)) == before.push(value_of(v)) + t by {
                        assert(before + (seq![value_of(v)] + t) =~= before.push(value_of(v)) + t);
                    }
                };
            },
        }
        i = i + 1;
    }
    assert(items@.skip(i as int) =~= Seq::<Expression<N>>::empty());
    assert(values_of(values@) + Seq::<Value<N>>::empty() == values_of(values@));
    Ok(Some(values))
}


/// All or any of `items`, evaluated in order as booleans.
fn eval_junction<N: Copy, F: Fn(NumberQuery<N>) -> NumberAnswer<N>>(items: &Vec<Expression<N>>, conjunction: bool, state: &EvalState<N>, numbers: &F) -> (result: Result<Option<bool>, EvalError>)
    requires
        number_model(*numbers),
    ensures
        lifted(result) == spec_eval_junction(items@, conjunction, *state, *numbers),
    decreases items@,
{
    let mut i: usize = 0;
    assert(items@.skip(0) == items@);
    while i < items.len()
        invariant
            0 <= i <= items@.len(),
            number_model(*numbers),
            spec_eval_junction(items@, conjunction, *state, *numbers) == spec_eval_junction(
                items@.skip(i as int),
                conjunction,
                *state,
                *numbers,
            ),
        decreases items@.len() - i,
    {
        let ghost rest = items@.skip(i as int);
        assert(rest[0] == items@[i as int]);
        assert(rest.drop_first() == items@.skip(i + 1));
        match boolean_result(items[i].eval(state, numbers)) {
            Err(e) => {
                return Err(e);
            },
            Ok(None) => {
                return Ok(None);
            },
            Ok(Some(b)) => {
                if b != conjunction {
                    return Ok(Some(b));
                }
            },
        }
        i = i + 1;
    }
    assert(items@.skip(i as int) =~= Seq::<Expression<N>>::empty());
    Ok(Some(conjunction))
}

/// The least (when `minimum`) or greatest of the numbers `values` in the
/// total order of the number model.
fn fold_extreme<N: Copy, F: Fn(NumberQuery<N>) -> NumberAnswer<N>>(values: &Vec<Expression<N>>, minimum: bool, numbers: &F) -> (n: N)
    requires
        number_model(*numbers),
        values@.len() > 0,
        forall|j: int| 0 <= j < values@.len() ==> #[trigger] values@[j] is Number,
    ensures
        n == if minimum { fold_minimum(*numbers, values_of(values@)) } else { fold_maximum(*numbers, values_of(values@)) },
{
    proof {
        lemma_values_of(values@);
    }
    let mut acc = match &values[0] {
        Expression::Number(n) => *n,
        _ => unreached(),
    };
    assert(values@.take(1).drop_last() == Seq::<Expression<N>>::empty());
    assert(values_of(Seq::<Expression<N>>::empty()) == Seq::<Value<N>>::empty());
    assert(values@.take(1).last() == values@[0]);
    assert(values_of(values@.take(1)) == seq![value_of(values@[0])]);
    let mut i: usize = 1;
    while i < values.len()
        invariant
            1 <= i <= values@.len(),
            number_model(*numbers),
            forall|j: int| 0 <= j < values@.len() ==> #[trigger] values@[j] is Number,
            acc == if minimum { fold_minimum(*numbers, values_of(values@.take(i as int))) } else { fold_maximum(*numbers, values_of(values@.take(i as int))) },
        decreases values@.len() - i,
    {
        let x = match &values[i] {
            Expression::Number(n) => *n,
            _ => unreached(),
        };
        proof {
            lemma_values_of(values@.take(i + 1));
            assert(values@.take(i + 1).drop_last() == values@.take(i as int));
            assert(values@.take(i + 1).last() == values@[i as int]);
            let vs = values_of(values@.take(i + 1));
            assert(vs == values_of(values@.take(i as int)).push(value_of(values@[i as int])));
            assert(vs.drop_last() == values_of(values@.take(i as int)));
            assert(number_value(vs.last()) == x);
        }
        let greater = ask_truth(numbers, NumberQuery::TotalGreater(acc, x));
        if minimum {
            if greater {
                acc = x;
            }
        } else {
            if !greater {
                acc = x;
            }
        }
        i = i + 1;
    }
    assert(values@.take(values@.len() as int) == values@);
    acc
}

/// `all` of no items is true and `any` of no items is false; otherwise
/// the items are taken in order and the first whose outcome is not the
/// neutral one (true for `all`, false for `any`) decides: its failure, its
/// undefinedness or its boolean is the outcome, whatever the items after it
/// are. When every item gives the neutral boolean, so does the whole.
pub proof fn lemma_junction_decided_by_first<N, F: Fn(NumberQuery<N>) -> NumberAnswer<N>>(items: Seq<Expression<N>>, conjunction: bool, state: EvalState<N>, f: F, k: int)
    requires
        0 <= k <= items.len(),
        forall|j: int| 0 <= j < k ==> then_boolean(#[trigger] spec_eval(items[j], state, f)) == Ok::<Option<bool>, Failure>(Some(conjunction)),
        k < items.len() ==> then_boolean(spec_eval(items[k], state, f)) != Ok::<Option<bool>, Failure>(Some(conjunction)),
    ensures
        k == items.len() ==> spec_eval_junction(items, conjunction, state, f) == Ok::<Option<bool>, Failure>(Some(conjunction)),
        k < items.len() ==> spec_eval_junction(items, conjunction, state, f) == then_boolean(spec_eval(items[k], state, f)),
        k < items.len() ==> forall|rest: Seq<Expression<N>>| spec_eval_junction(#[trigger] (items.take(k + 1) + rest), conjunction, state, f)
            == spec_eval_junction(items, conjunction, state, f),
    decreases k,
{
    if k > 0 {
        let tail = items.drop_first();
        assert forall|j: int| 0 <= j < k - 1 implies then_boolean(#[trigger] spec_eval(tail[j], state, f)) == Ok::<Option<bool>, Failure>(Some(conjunction)) by {
            assert(tail[j] == items[j + 1]);
            assert(then_boolean(spec_eval(items[j + 1], state, f)) == Ok::<Option<bool>, Failure>(Some(conjunction)));
        }
        if k < items.len() {
            assert(tail[k - 1] == items[k]);
        }
        lemma_junction_decided_by_first(tail, conjunction, state, f, k - 1);
        assert(then_boolean(spec_eval(items[0], state, f)) == Ok::<Option<bool>, Failure>(Some(conjunction)));
        if k < items.len() {
            assert forall|rest: Seq<Expression<N>>| spec_eval_junction(#[trigger] (items.take(k + 1) + rest), conjunction, state, f)
                == spec_eval_junction(items, conjunction, state, f) by {
                let whole = items.take(k + 1) + rest;
                assert(whole[0] == items[0]);
                assert(whole.drop_first() =~= tail.take(k) + rest);
            }
        }
    } else if k < items.len() {
        assert forall|rest: Seq<Expression<N>>| spec_eval_junction(#[trigger] (items.take(k + 1) + rest), conjunction, state, f)
            == spec_eval_junction(items, conjunction, state, f) by {
            let whole = items.take(k + 1) + rest;
            assert(whole[0] == items[0]);
        }
    }
}

/// A strict order on numbers, as `TotalGreater` must give for the least and
/// greatest of numbers to be those: never `a > a`; `a > b > c` gives `a > c`;
/// and neither `a > b` nor `b > c` gives not `a > c`.
#[verifier::opaque]
pub open spec fn orders_strictly<N, F: Fn(NumberQuery<N>) -> NumberAnswer<N>>(f: F) -> bool {
    &&& forall|a: N| !#[trigger] truth_of(f, NumberQuery::TotalGreater(a, a))
    &&& forall|a: N, b: N, c: N|
        #![trigger truth_of(f, NumberQuery::TotalGreater(a, b)), truth_of(f, NumberQuery::TotalGreater(b, c))]
        truth_of(f, NumberQuery::TotalGreater(a, b)) && truth_of(f, NumberQuery::TotalGreater(b, c))
            ==> truth_of(f, NumberQuery::TotalGreater(a, c))
    &&& forall|a: N, b: N, c: N|
        #![trigger truth_of(f, NumberQuery::TotalGreater(a, b)), truth_of(f, NumberQuery::TotalGreater(b, c))]
        !truth_of(f, NumberQuery::TotalGreater(a, b)) && !truth_of(f, NumberQuery::TotalGreater(b, c))
            ==> !truth_of(f, NumberQuery::TotalGreater(a, c))
}

/// The least of numbers is one of them and no greater than any of them.
pub proof fn lemma_fold_minimum_is_least<N, F: Fn(NumberQuery<N>) -> NumberAnswer<N>>(f: F, ns: Seq<Value<N>>)
    requires
        orders_strictly(f),
        ns.len() >= 1,
    ensures
        exists|k: int| 0 <= k < ns.len() && fold_minimum(f, ns) == number_value(#[trigger] ns[k]),
        forall|j: int| 0 <= j < ns.len() ==> !truth_of(f, NumberQuery::TotalGreater(fold_minimum(f, ns), number_value(#[trigger] ns[j]))),
    decreases ns.len(),
{
    reveal(orders_strictly);
    let m = fold_minimum(f, ns);
    if ns.len() == 1 {
        assert(m == number_value(ns[0]));
        assert(!truth_of(f, NumberQuery::TotalGreater(m, m)));
    } else {
        let init = ns.drop_last();
        lemma_fold_minimum_is_least(f, init);
        let acc = fold_minimum(f, init);
        let x = number_value(ns.last());
        if truth_of(f, NumberQuery::TotalGreater(acc, x)) {
            assert(m == x);
            assert(m == number_value(ns[ns.len() - 1]));
            assert forall|j: int| 0 <= j < ns.len() implies !truth_of(f, NumberQuery::TotalGreater(m, number_value(#[trigger] ns[j]))) by {
                if j < ns.len() - 1 {
                    assert(ns[j] == init[j]);
                    assert(!truth_of(f, NumberQuery::TotalGreater(acc, number_value(init[j]))));
                    if truth_of(f, NumberQuery::TotalGreater(x, number_value(ns[j]))) {
                        assert(truth_of(f, NumberQuery::TotalGreater(acc, number_value(ns[j]))));
                    }
                } else {
                    assert(!truth_of(f, NumberQuery::TotalGreater(x, x)));
                }
            }
        } else {
            assert(m == acc);
            let k = choose|k: int| 0 <= k < init.len() && acc == number_value(#[trigger] init[k]);
            assert(ns[k] == init[k]);
            assert forall|j: int| 0 <= j < ns.len() implies !truth_of(f, NumberQuery::TotalGreater(m, number_value(#[trigger] ns[j]))) by {
                if j < ns.len() - 1 {
                    assert(ns[j] == init[j]);
                }
            }
        }
    }
}

/// The greatest of numbers is one of them and no less than any of them.
pub proof fn lemma_fold_maximum_is_greatest<N, F: Fn(NumberQuery<N>) -> NumberAnswer<N>>(f: F, ns: Seq<Value<N>>)
    requires
        orders_strictly(f),
        ns.len() >= 1,
    ensures
        exists|k: int| 0 <= k < ns.len() && fold_maximum(f, ns) == number_value(#[trigger] ns[k]),
        forall|j: int| 0 <= j < ns.len() ==> !truth_of(f, NumberQuery::TotalGreater(number_value(#[trigger] ns[j]), fold_maximum(f, ns))),
    decreases ns.len(),
{
    reveal(orders_strictly);
    let m = fold_maximum(f, ns);
    if ns.len() == 1 {
        assert(m == number_value(ns[0]));
        assert(!truth_of(f, NumberQuery::TotalGreater(m, m)));
    } else {
        let init = ns.drop_last();
        lemma_fold_maximum_is_greatest(f, init);
        let acc = fold_maximum(f, init);
        let x = number_value(ns.last());
        if truth_of(f, NumberQuery::TotalGreater(acc, x)) {
            assert(m == acc);
            let k = choose|k: int| 0 <= k < init.len() && acc == number_value(#[trigger] init[k]);
            assert(ns[k] == init[k]);
            assert forall|j: int| 0 <= j < ns.len() implies !truth_of(f, NumberQuery::TotalGreater(number_value(#[trigger] ns[j]), m)) by {
                if j < ns.len() - 1 {
                    assert(ns[j] == init[j]);
                } else {
                    if truth_of(f, NumberQuery::TotalGreater(x, acc)) {
                        assert(truth_of(f, NumberQuery::TotalGreater(x, x)));
                    }
                }
            }
        } else {
            assert(m == x);
            assert(m == number_value(ns[ns.len() - 1]));
            assert forall|j: int| 0 <= j < ns.len() implies !truth_of(f, NumberQuery::TotalGreater(number_value(#[trigger] ns[j]), m)) by {
                if j < ns.len() - 1 {
                    assert(ns[j] == init[j]);
                    assert(!truth_of(f, NumberQuery::TotalGreater(number_value(init[j]), acc)));
                    assert(!truth_of(f, NumberQuery::TotalGreater(acc, x)));
                } else {
                    assert(!truth_of(f, NumberQuery::TotalGreater(x, x)));
                }
            }
        }
    }
}

/// Items that each evaluate to a number evaluate, as numbers, to those
/// numbers in order.
proof fn lemma_items_numbers<N, F: Fn(NumberQuery<N>) -> NumberAnswer<N>>(items: Seq<Expression<N>>, xs: Seq<N>, state: EvalState<N>, f: F)
    requires
        items.len() == xs.len(),
        forall|i: int| 0 <= i < items.len() ==> spec_eval(#[trigger] items[i], state, f) == Ok::<Option<Value<N>>, Failure>(Some(Value::Number(xs[i]))),
    ensures
        spec_eval_items(items, true, state, f) == Ok::<Option<Seq<Value<N>>>, Failure>(Some(Seq::new(xs.len(), |i: int| Value::Number(xs[i])))),
    decreases items.len(),
{
    if items.len() > 0 {
        let tail = items.drop_first();
        assert forall|i: int| 0 <= i < tail.len() implies spec_eval(#[trigger] tail[i], state, f) == Ok::<Option<Value<N>>, Failure>(Some(Value::Number(xs.drop_first()[i]))) by {
            assert(tail[i] == items[i + 1]);
        }
        lemma_items_numbers(tail, xs.drop_first(), state, f);
        assert(spec_eval(items[0], state, f) == Ok::<Option<Value<N>>, Failure>(Some(Value::Number(xs[0]))));
        assert(seq![Value::Number(xs[0])] + Seq::new(xs.drop_first().len(), |i: int| Value::Number(xs.drop_first()[i]))
            =~= Seq::new(xs.len(), |i: int| Value::Number(xs[i])));
    } else {
        assert(Seq::new(xs.len(), |i: int| Value::Number(xs[i])) =~= Seq::<Value<N>>::empty());
    }
}

/// `minimum` and `maximum` of expressions that each evaluate to a number:
/// with none they fail; otherwise `minimum` is one of the numbers and no
/// greater than any of them, and `maximum` is one of them and no less than
/// any of them, in the order `TotalGreater` gives.
pub proof fn lemma_minimum_maximum<N, F: Fn(NumberQuery<N>) -> NumberAnswer<N>>(numbers: Vec<Expression<N>>, xs: Seq<N>, state: EvalState<N>, f: F)
    requires
        number_model(f),
        numbers@.len() == xs.len(),
        forall|i: int| 0 <= i < xs.len() ==> spec_eval(#[trigger] numbers@[i], state, f) == Ok::<Option<Value<N>>, Failure>(Some(Value::Number(xs[i]))),
    ensures
        xs.len() == 0 ==> spec_eval(Expression::Minimum { numbers }, state, f) == Err::<Option<Value<N>>, Failure>(Failure::EmptyMinimum),
        xs.len() == 0 ==> spec_eval(Expression::Maximum { numbers }, state, f) == Err::<Option<Value<N>>, Failure>(Failure::EmptyMaximum),
        xs.len() > 0 ==> (spec_eval(Expression::Minimum { numbers }, state, f) matches Ok(Some(Value::Number(m)))
            && (exists|k: int| 0 <= k < xs.len() && m == #[trigger] xs[k])
            && (forall|j: int| 0 <= j < xs.len() ==> !truth_of(f, NumberQuery::TotalGreater(m, #[trigger] xs[j])))),
        xs.len() > 0 ==> (spec_eval(Expression::Maximum { numbers }, state, f) matches Ok(Some(Value::Number(m)))
            && (exists|k: int| 0 <= k < xs.len() && m == #[trigger] xs[k])
            && (forall|j: int| 0 <= j < xs.len() ==> !truth_of(f, NumberQuery::TotalGreater(#[trigger] xs[j], m)))),
{
    lemma_items_numbers(numbers@, xs, state, f);
    let ns = Seq::new(xs.len(), |i: int| Value::Number(xs[i]));
    if xs.len() > 0 {
        lemma_fold_minimum_is_least(f, ns);
        lemma_fold_maximum_is_greatest(f, ns);
        let lo = fold_minimum(f, ns);
        let hi = fold_maximum(f, ns);
        let k = choose|k: int| 0 <= k < ns.len() && lo == number_value(#[trigger] ns[k]);
        assert(lo == xs[k]);
        let k2 = choose|k: int| 0 <= k < ns.len() && hi == number_value(#[trigger] ns[k]);
        assert(hi == xs[k2]);
        assert forall|j: int| 0 <= j < xs.len() implies !truth_of(f, NumberQuery::TotalGreater(lo, #[trigger] xs[j])) by {
            assert(number_value(ns[j]) == xs[j]);
        }
        assert forall|j: int| 0 <= j < xs.len() implies !truth_of(f, NumberQuery::TotalGreater(#[trigger] xs[j], hi)) by {
            assert(number_value(ns[j]) == xs[j]);
        }
    }
}

/// `all` and `any` as expressions: `all` of no items is true, `any` of no
/// items is false; otherwise the first item (in order) whose outcome is not
/// the neutral one decides the outcome, and the items after it are not
/// looked at; when every item gives the neutral boolean, so does the whole.
pub proof fn lemma_all_any<N, F: Fn(NumberQuery<N>) -> NumberAnswer<N>>(items: Vec<Expression<N>>, conjunction: bool, state: EvalState<N>, f: F, k: int)
    requires
        0 <= k <= items@.len(),
        forall|j: int| 0 <= j < k ==> then_boolean(#[trigger] spec_eval(items@[j], state, f)) == Ok::<Option<bool>, Failure>(Some(conjunction)),
        k < items@.len() ==> then_boolean(spec_eval(items@[k], state, f)) != Ok::<Option<bool>, Failure>(Some(conjunction)),
    ensures
        ({
            let e = if conjunction { Expression::All { all: items } } else { Expression::Any { any: items } };
            &&& k == items@.len() ==> spec_eval(e, state, f) == Ok::<Option<Value<N>>, Failure>(Some(Value::Boolean(conjunction)))
            &&& k < items@.len() ==> spec_eval(e, state, f) == match then_boolean(spec_eval(items@[k], state, f)) {
                Err(x) => Err::<Option<Value<N>>, Failure>(x),
                Ok(None) => Ok(None),
                Ok(Some(b)) => Ok(Some(Value::<N>::Boolean(b))),
            }
        }),
{
    lemma_junction_decided_by_first(items@, conjunction, state, f, k);
}

/// Arithmetic and comparison on two numbers: once `a` evaluates to the
/// number `x` and `b` to the number `y`, `plus`, `minus`, `multiply`,
/// `divide` and `power` give the number model's `x + y`, `x - y`, `x * y`,
/// `x / y` and `x` to the power `y`; `is-less-than` gives the truth of
/// `x < y` and `is-more-than` that of `x > y`, always with `a` (the
/// `value`) on the left.
pub proof fn lemma_binary_operators<N, F: Fn(NumberQuery<N>) -> NumberAnswer<N>>(a: Box<Expression<N>>, b: Box<Expression<N>>, x: N, y: N, state: EvalState<N>, f: F)
    requires
        number_model(f),
        spec_eval(*a, state, f) == Ok::<Option<Value<N>>, Failure>(Some(Value::Number(x))),
        spec_eval(*b, state, f) == Ok::<Option<Value<N>>, Failure>(Some(Value::Number(y))),
    ensures
        spec_eval(Expression::Plus { a, b }, state, f) == Ok::<Option<Value<N>>, Failure>(Some(Value::Number(number_of(f, NumberQuery::Plus(x, y))))),
        spec_eval(Expression::Minus { a, b }, state, f) == Ok::<Option<Value<N>>, Failure>(Some(Value::Number(number_of(f, NumberQuery::Minus(x, y))))),
        spec_eval(Expression::Multiply { a, b }, state, f) == Ok::<Option<Value<N>>, Failure>(Some(Value::Number(number_of(f, NumberQuery::Multiply(x, y))))),
        spec_eval(Expression::Divide { a, b }, state, f) == Ok::<Option<Value<N>>, Failure>(Some(Value::Number(number_of(f, NumberQuery::Divide(x, y))))),
        spec_eval(Expression::Power { a, b }, state, f) == Ok::<Option<Value<N>>, Failure>(Some(Value::Number(number_of(f, NumberQuery::Power(x, y))))),
        spec_eval(Expression::LessThan { a, b }, state, f) == Ok::<Option<Value<N>>, Failure>(Some(Value::Boolean(truth_of(f, NumberQuery::LessThan(x, y))))),
        spec_eval(Expression::MoreThan { a, b }, state, f) == Ok::<Option<Value<N>>, Failure>(Some(Value::Boolean(truth_of(f, NumberQuery::MoreThan(x, y))))),
{
    lemma_answer_fits(f, NumberQuery::Plus(x, y));
    lemma_answer_fits(f, NumberQuery::Minus(x, y));
    lemma_answer_fits(f, NumberQuery::Multiply(x, y));
    lemma_answer_fits(f, NumberQuery::Divide(x, y));
    lemma_answer_fits(f, NumberQuery::Power(x, y));
    lemma_answer_fits(f, NumberQuery::LessThan(x, y));
    lemma_answer_fits(f, NumberQuery::MoreThan(x, y));
}

/// Logic on two booleans: once `a` evaluates to the boolean `p` and `b` to
/// `q`, `and` gives `p && q`, `or` gives `p || q`, and `not` of `a` gives
/// `!p`.
pub proof fn lemma_boolean_operators<N, F: Fn(NumberQuery<N>) -> NumberAnswer<N>>(a: Box<Expression<N>>, b: Box<Expression<N>>, p: bool, q: bool, state: EvalState<N>, f: F)
    requires
        spec_eval(*a, state, f) == Ok::<Option<Value<N>>, Failure>(Some(Value::Boolean(p))),
        spec_eval(*b, state, f) == Ok::<Option<Value<N>>, Failure>(Some(Value::Boolean(q))),
    ensures
        spec_eval(Expression::And { a, b }, state, f) == Ok::<Option<Value<N>>, Failure>(Some(Value::Boolean(p && q))),
        spec_eval(Expression::Or { a, b }, state, f) == Ok::<Option<Value<N>>, Failure>(Some(Value::Boolean(p || q))),
        spec_eval(Expression::Not { not: a }, state, f) == Ok::<Option<Value<N>>, Failure>(Some(Value::Boolean(!p))),
{
}

/// The name by which a configuration writes each reading of the system.
pub open spec fn reading_name<N>(e: Expression<N>) -> Option<Seq<char>> {
    match e {
        Expression::FrequencyAvailable => Some("?frequency-available"@),
        Expression::TurboAvailable => Some("?turbo-available"@),
        Expression::CpuUsage => Some("%cpu-usage"@),
        Expression::CpuUsageVolatility => Some("$cpu-usage-volatility"@),
        Expression::CpuTemperature => Some("$cpu-temperature"@),
        Expression::CpuTemperatureVolatility => Some("$cpu-temperature-volatility"@),
        Expression::CpuIdleSeconds => Some("$cpu-idle-seconds"@),
        Expression::CpuFrequencyMaximum => Some("$cpu-frequency-maximum"@),
        Expression::CpuFrequencyMinimum => Some("$cpu-frequency-minimum"@),
        Expression::PowerSupplyCharge => Some("%power-supply-charge"@),
        Expression::PowerSupplyDischargeRate => Some("%power-supply-discharge-rate"@),
        Expression::Discharging => Some("?discharging"@),
        _ => None,
    }
}

/// Names and readings correspond one to one: the name of each reading
/// names that reading, and a name that names a reading is that reading's
/// name.
pub proof fn lemma_named_round_trip<N>(e: Expression<N>, name: Seq<char>)
    ensures
        reading_name(e) == Some(name) ==> spec_named::<N>(name) == Some(e),
        spec_named::<N>(name) == Some(e) ==> reading_name(e) == Some(name),
{
    reveal_strlit("?frequency-available");
    reveal_strlit("?turbo-available");
    reveal_strlit("%cpu-usage");
    reveal_strlit("$cpu-usage-volatility");
    reveal_strlit("$cpu-temperature");
    reveal_strlit("$cpu-temperature-volatility");
    reveal_strlit("$cpu-idle-seconds");
    reveal_strlit("$cpu-frequency-maximum");
    reveal_strlit("$cpu-frequency-minimum");
    reveal_strlit("%power-supply-charge");
    reveal_strlit("%power-supply-discharge-rate");
    reveal_strlit("?discharging");
    if reading_name(e) == Some(name) {
        match e {
            Expression::FrequencyAvailable => {

            },
            Expression::TurboAvailable => {
                assert(name.len() != "?frequency-available"@.len());
            },
            Expression::CpuUsage => {
                assert(name.len() != "?frequency-available"@.len());
                assert(name.len() != "?turbo-available"@.len());
            },
            Expression::CpuUsageVolatility => {
                assert(name.len() != "?frequency-available"@.len());
                assert(name.len() != "?turbo-available"@.len());
                assert(name.len() != "%cpu-usage"@.len());
            },
            Expression::CpuTemperature => {
                assert(name.len() != "?frequency-available"@.len());
                assert(name[0] != "?turbo-available"@[0]);
                assert(name.len() != "%cpu-usage"@.len());
                assert(name.len() != "$cpu-usage-volatility"@.len());
            },
            Expression::CpuTemperatureVolatility => {
                assert(name.len() != "?frequency-available"@.len());
                assert(name.len() != "?turbo-available"@.len());
                assert(name.len() != "%cpu-usage"@.len());
                assert(name.len() != "$cpu-usage-volatility"@.len());
                assert(name.len() != "$cpu-temperature"@.len());
            },
            Expression::CpuIdleSeconds => {
                assert(name.len() != "?frequency-available"@.len());
                assert(name.len() != "?turbo-available"@.len());
                assert(name.len() != "%cpu-usage"@.len());
                assert(name.len() != "$cpu-usage-volatility"@.len());
                assert(name.len() != "$cpu-temperature"@.len());
                assert(name.len() != "$cpu-temperature-volatility"@.len());
            },
            Expression::CpuFrequencyMaximum => {
                assert(name.len() != "?frequency-available"@.len());
                assert(name.len() != "?turbo-available"@.len());
                assert(name.len() != "%cpu-usage"@.len());
                assert(name.len() != "$cpu-usage-volatility"@.len());
                assert(name.len() != "$cpu-temperature"@.len());
                assert(name.len() != "$cpu-temperature-volatility"@.len());
                assert(name.len() != "$cpu-idle-seconds"@.len());
            },
            Expression::CpuFrequencyMinimum => {
                assert(name.len() != "?frequency-available"@.len());
                assert(name.len() != "?turbo-available"@.len());
                assert(name.len() != "%cpu-usage"@.len());
                assert(name.len() != "$cpu-usage-volatility"@.len());
                assert(name.len() != "$cpu-temperature"@.len());
                assert(name.len() != "$cpu-temperature-volatility"@.len());
                assert(name.len() != "$cpu-idle-seconds"@.len());
                assert(name[16] != "$cpu-frequency-maximum"@[16]);
            },
            Expression::PowerSupplyCharge => {
                assert(name[0] != "?frequency-available"@[0]);
                assert(name.len() != "?turbo-available"@.len());
                assert(name.len() != "%cpu-usage"@.len());
                assert(name.len() != "$cpu-usage-volatility"@.len());
                assert(name.len() != "$cpu-temperature"@.len());
                assert(name.len() != "$cpu-temperature-volatility"@.len());
                assert(name.len() != "$cpu-idle-seconds"@.len());
                assert(name.len() != "$cpu-frequency-maximum"@.len());
                assert(name.len() != "$cpu-frequency-minimum"@.len());
            },
            Expression::PowerSupplyDischargeRate => {
                assert(name.len() != "?frequency-available"@.len());
                assert(name.len() != "?turbo-available"@.len());
                assert(name.len() != "%cpu-usage"@.len());
                assert(name.len() != "$cpu-usage-volatility"@.len());
                assert(name.len() != "$cpu-temperature"@.len());
                assert(name.len() != "$cpu-temperature-volatility"@.len());
                assert(name.len() != "$cpu-idle-seconds"@.len());
                assert(name.len() != "$cpu-frequency-maximum"@.len());
                assert(name.len() != "$cpu-frequency-minimum"@.len());
                assert(name.len() != "%power-supply-charge"@.len());
            },
            Expression::Discharging => {
                assert(name.len() != "?frequency-available"@.len());
                assert(name.len() != "?turbo-available"@.len());
                assert(name.len() != "%cpu-usage"@.len());
                assert(name.len() != "$cpu-usage-volatility"@.len());
                assert(name.len() != "$cpu-temperature"@.len());
                assert(name.len() != "$cpu-temperature-volatility"@.len());
                assert(name.len() != "$cpu-idle-seconds"@.len());
                assert(name.len() != "$cpu-frequency-maximum"@.len());
                assert(name.len() != "$cpu-frequency-minimum"@.len());
                assert(name.len() != "%power-supply-charge"@.len());
                assert(name.len() != "%power-supply-discharge-rate"@.len());
            },
            _ => {},
        }
    }
}

/// Whether `name` ends with `-volatility`.
pub open spec fn names_volatility(name: Seq<char>) -> bool {
    name.len() >= 11 && name.skip(name.len() - 11) == "-volatility"@
}

/// The kind of a reading shows in its name: names of boolean readings
/// begin with `?`, and names of volatilities end with `-volatility`.
pub proof fn lemma_name_shows_kind<N>(name: Seq<char>)
    ensures
        spec_named::<N>(name) matches Some(e) ==> (name[0] == '?' <==> (e is FrequencyAvailable || e is TurboAvailable || e is Discharging)),
        spec_named::<N>(name) matches Some(e) ==> (names_volatility(name) <==> (e is CpuUsageVolatility || e is CpuTemperatureVolatility)),
{
    reveal_strlit("?frequency-available");
    reveal_strlit("?turbo-available");
    reveal_strlit("%cpu-usage");
    reveal_strlit("$cpu-usage-volatility");
    reveal_strlit("$cpu-temperature");
    reveal_strlit("$cpu-temperature-volatility");
    reveal_strlit("$cpu-idle-seconds");
    reveal_strlit("$cpu-frequency-maximum");
    reveal_strlit("$cpu-frequency-minimum");
    reveal_strlit("%power-supply-charge");
    reveal_strlit("%power-supply-discharge-rate");
    reveal_strlit("?discharging");
    reveal_strlit("-volatility");
    if let Some(e) = spec_named::<N>(name) {
        lemma_named_round_trip::<N>(e, name);
        match e {
            Expression::FrequencyAvailable => {
                assert(name == "?frequency-available"@);
                assert(name.skip(name.len() - 11)[0] != "-volatility"@[0]);
            },
            Expression::TurboAvailable => {
                assert(name == "?turbo-available"@);
                assert(name.skip(name.len() - 11)[0] != "-volatility"@[0]);
            },
            Expression::CpuUsage => {
                assert(name == "%cpu-usage"@);
            },
            Expression::CpuUsageVolatility => {
                assert(name == "$cpu-usage-volatility"@);
                assert(name.skip(name.len() - 11) =~= "-volatility"@);
            },
            Expression::CpuTemperature => {
                assert(name == "$cpu-temperature"@);
                assert(name.skip(name.len() - 11)[0] != "-volatility"@[0]);
            },
            Expression::CpuTemperatureVolatility => {
                assert(name == "$cpu-temperature-volatility"@);
                assert(name.skip(name.len() - 11) =~= "-volatility"@);
            },
            Expression::CpuIdleSeconds => {
                assert(name == "$cpu-idle-seconds"@);
                assert(name.skip(name.len() - 11)[0] != "-volatility"@[0]);
            },
            Expression::CpuFrequencyMaximum => {
                assert(name == "$cpu-frequency-maximum"@);
                assert(name.skip(name.len() - 11)[0] != "-volatility"@[0]);
            },
            Expression::CpuFrequencyMinimum => {
                assert(name == "$cpu-frequency-minimum"@);
                assert(name.skip(name.len() - 11)[0] != "-volatility"@[0]);
            },
            Expression::PowerSupplyCharge => {
                assert(name == "%power-supply-charge"@);
                assert(name.skip(name.len() - 11)[0] != "-volatility"@[0]);
            },
            Expression::PowerSupplyDischargeRate => {
                assert(name == "%power-supply-discharge-rate"@);
                assert(name.skip(name.len() - 11)[0] != "-volatility"@[0]);
            },
            Expression::Discharging => {
                assert(name == "?discharging"@);
                assert(name.skip(name.len() - 11)[0] != "-volatility"@[0]);
            },
            _ => {},
        }
    }
}

/// `is-equal` with a leeway: once `a`, `b` and `leeway` evaluate to the
/// numbers `x`, `y` and `l`, the outcome is whether `y` lies strictly
/// between `x - l` and `x + l` (each computed by the number model).
pub proof fn lemma_equal_within_leeway<N, F: Fn(NumberQuery<N>) -> NumberAnswer<N>>(a: Box<Expression<N>>, b: Box<Expression<N>>, leeway: Box<Expression<N>>, x: N, y: N, l: N, state: EvalState<N>, f: F)
    requires
        spec_eval(*a, state, f) == Ok::<Option<Value<N>>, Failure>(Some(Value::Number(x))),
        spec_eval(*b, state, f) == Ok::<Option<Value<N>>, Failure>(Some(Value::Number(y))),
        spec_eval(*leeway, state, f) == Ok::<Option<Value<N>>, Failure>(Some(Value::Number(l))),
    ensures
        spec_eval(Expression::Equal { a, b, leeway }, state, f) == Ok::<Option<Value<N>>, Failure>(Some(Value::Boolean(
            truth_of(f, NumberQuery::LessThan(number_of(f, NumberQuery::Minus(x, l)), y))
                && truth_of(f, NumberQuery::LessThan(y, number_of(f, NumberQuery::Plus(x, l))))))),
{
}

/// `if`/`then`/`else` and `is-unset`: a true condition gives the `then`
/// outcome, a false one the `else` outcome (undefined without `else`), an
/// undefined one is undefined; `is-unset` is true exactly when its operand
/// is undefined.
pub proof fn lemma_conditional_and_unset<N, F: Fn(NumberQuery<N>) -> NumberAnswer<N>>(condition: Box<Expression<N>>, consequence: Box<Expression<N>>, alternative: Option<Box<Expression<N>>>, state: EvalState<N>, f: F)
    ensures
        spec_eval(*condition, state, f) == Ok::<Option<Value<N>>, Failure>(Some(Value::Boolean(true)))
            ==> spec_eval(Expression::IfElse { condition, consequence, alternative }, state, f) == spec_eval(*consequence, state, f),
        spec_eval(*condition, state, f) == Ok::<Option<Value<N>>, Failure>(Some(Value::Boolean(false)))
            ==> spec_eval(Expression::IfElse { condition, consequence, alternative }, state, f) == match alternative {
                Some(alt) => spec_eval(*alt, state, f),
                None => Ok::<Option<Value<N>>, Failure>(None),
            },
        spec_eval(*condition, state, f) == Ok::<Option<Value<N>>, Failure>(None)
            ==> spec_eval(Expression::IfElse { condition, consequence, alternative }, state, f) == Ok::<Option<Value<N>>, Failure>(None),
        spec_eval(*condition, state, f) is Ok ==> spec_eval(Expression::IsUnset { a: condition }, state, f)
            == Ok::<Option<Value<N>>, Failure>(Some(Value::Boolean(spec_eval(*condition, state, f) == Ok::<Option<Value<N>>, Failure>(None)))),
{
}

/// Each reading of the system evaluates to the matching reading of the
/// state: a flag to its boolean, a number to its number, and a reading the
/// system may lack to its number when present and to undefined when not.
pub proof fn lemma_readings<N, F: Fn(NumberQuery<N>) -> NumberAnswer<N>>(state: EvalState<N>, f: F)
    ensures
        spec_eval(Expression::<N>::FrequencyAvailable, state, f) == Ok::<Option<Value<N>>, Failure>(Some(Value::Boolean(state.frequency_available))),
        spec_eval(Expression::<N>::TurboAvailable, state, f) == Ok::<Option<Value<N>>, Failure>(Some(Value::Boolean(state.turbo_available))),
        spec_eval(Expression::<N>::Discharging, state, f) == Ok::<Option<Value<N>>, Failure>(Some(Value::Boolean(state.discharging))),
        spec_eval(Expression::<N>::CpuUsage, state, f) == Ok::<Option<Value<N>>, Failure>(Some(Value::Number(state.cpu_usage))),
        spec_eval(Expression::<N>::CpuIdleSeconds, state, f) == Ok::<Option<Value<N>>, Failure>(Some(Value::Number(state.cpu_idle_seconds))),
        spec_eval(Expression::<N>::CpuUsageVolatility, state, f) == match state.cpu_usage_volatility { Some(x) => Ok::<Option<Value<N>>, Failure>(Some(Value::Number(x))), None => Ok(None) },
        spec_eval(Expression::<N>::CpuTemperature, state, f) == match state.cpu_temperature { Some(x) => Ok::<Option<Value<N>>, Failure>(Some(Value::Number(x))), None => Ok(None) },
        spec_eval(Expression::<N>::CpuTemperatureVolatility, state, f) == match state.cpu_temperature_volatility { Some(x) => Ok::<Option<Value<N>>, Failure>(Some(Value::Number(x))), None => Ok(None) },
        spec_eval(Expression::<N>::CpuFrequencyMaximum, state, f) == match state.cpu_frequency_maximum { Some(x) => Ok::<Option<Value<N>>, Failure>(Some(Value::Number(x))), None => Ok(None) },
        spec_eval(Expression::<N>::CpuFrequencyMinimum, state, f) == match state.cpu_frequency_minimum { Some(x) => Ok::<Option<Value<N>>, Failure>(Some(Value::Number(x))), None => Ok(None) },
        spec_eval(Expression::<N>::PowerSupplyCharge, state, f) == match state.power_supply_charge { Some(x) => Ok::<Option<Value<N>>, Failure>(Some(Value::Number(x))), None => Ok(None) },
        spec_eval(Expression::<N>::PowerSupplyDischargeRate, state, f) == match state.power_supply_discharge_rate { Some(x) => Ok::<Option<Value<N>>, Failure>(Some(Value::Number(x))), None => Ok(None) },
{
}

/// The availability predicates ask about the string their operand gives:
/// for a CPU, whether that CPU lists it among its governors (EPPs, EPBs);
/// for the whole system, whether some CPU does; for a power supply, never.
/// An operand that is not a string fails.
pub proof fn lemma_availability<N, F: Fn(NumberQuery<N>) -> NumberAnswer<N>>(value: Box<Expression<N>>, name: Seq<char>, state: EvalState<N>, f: F)
    ensures
        spec_eval(*value, state, f) == Ok::<Option<Value<N>>, Failure>(Some(Value::String(name))) ==> {
            let g = spec_eval(Expression::IsGovernorAvailable { value }, state, f);
            let e = spec_eval(Expression::IsEnergyPerformancePreferenceAvailable { value }, state, f);
            let b = spec_eval(Expression::IsEnergyPerfBiasAvailable { value }, state, f);
            &&& state.context matches EvalContext::Cpu(cpu) ==> {
                &&& g == Ok::<Option<Value<N>>, Failure>(Some(Value::Boolean(views(cpu.available_governors@).contains(name))))
                &&& e == Ok::<Option<Value<N>>, Failure>(Some(Value::Boolean(views(cpu.available_epps@).contains(name))))
                &&& b == Ok::<Option<Value<N>>, Failure>(Some(Value::Boolean(views(cpu.available_epbs@).contains(name))))
            }
            &&& state.context is PowerSupply ==> g == Ok::<Option<Value<N>>, Failure>(Some(Value::Boolean(false)))
                && e == Ok::<Option<Value<N>>, Failure>(Some(Value::Boolean(false)))
                && b == Ok::<Option<Value<N>>, Failure>(Some(Value::Boolean(false)))
            &&& state.context is WidestPossible ==> g == Ok::<Option<Value<N>>, Failure>(Some(Value::Boolean(
                exists|i: int| 0 <= i < state.cpus@.len() && views(#[trigger] state.cpus@[i].available_governors@).contains(name))))
        },
        spec_eval(*value, state, f) matches Ok(Some(v)) && !(v is String) ==>
            spec_eval(Expression::IsGovernorAvailable { value }, state, f) == Err::<Option<Value<N>>, Failure>(Failure::NotAString),
{
    if state.context is WidestPossible && spec_eval(*value, state, f) == Ok::<Option<Value<N>>, Failure>(Some(Value::String(name))) {
        let found = exists|i: int| 0 <= i < state.cpus@.len() && views(#[trigger] state.cpus@[i].available_governors@).contains(name);
        if found {
            let i = choose|i: int| 0 <= i < state.cpus@.len() && views(#[trigger] state.cpus@[i].available_governors@).contains(name);
            assert(offered(state.cpus@[i], Offering::Governors).contains(name));
        }
        if is_offered(state, Offering::Governors, name) {
            let i = choose|i: int| 0 <= i < state.cpus@.len() && #[trigger] offered(state.cpus@[i], Offering::Governors).contains(name);
            assert(views(state.cpus@[i].available_governors@).contains(name));
        }
    }
}

} // verus!

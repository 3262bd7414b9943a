use vstd::prelude::*;

verus! {

/// A power supply as the rules see it.
#[derive(Debug)]
pub struct PowerSupply {
    /// The name of its entry under `/sys/class/power_supply`, such as `BAT0`.
    pub name: String,
    /// Its charging status, such as `Charging` or `Discharging`, if it reports one.
    pub charge_state: Option<String>,
}


/// Whether `supply` reports that it is discharging.
pub open spec fn reports_discharging(supply: PowerSupply) -> bool {
    supply.charge_state matches Some(s) && s@ == "Discharging"@
}

/// Whether some power supply reports that it is discharging.
pub open spec fn spec_is_discharging(supplies: Seq<PowerSupply>) -> bool {
    exists|i: int| 0 <= i < supplies.len() && reports_discharging(#[trigger] supplies[i])
}

/// Whether the system runs on battery: some power supply reports
/// `Discharging`.
pub fn is_discharging(supplies: &[PowerSupply]) -> (discharging: bool)
    ensures
        discharging == spec_is_discharging(supplies@),
{
    proof {
        reveal_strlit("Discharging");
    }
    let mut i: usize = 0;
    while i < supplies.len()
        invariant
            0 <= i <= supplies@.len(),
            forall|j: int| 0 <= j < i ==> !reports_discharging(#[trigger] supplies@[j]),
        decreases supplies@.len() - i,
    {
        if let Some(state) = &supplies[i].charge_state {
            if crate::text::str_equal(state.as_str(), "Discharging") {
                return true;
            }
        }
        i = i + 1;
    }
    false
}

/// The charge thresholds that rules ask of one power supply, as fractions
/// of a full charge; `None` leaves a threshold alone.
#[derive(Debug, Clone, Copy)]
pub struct Delta<N> {
    pub charge_threshold_start: Option<N>,
    pub charge_threshold_end: Option<N>,
}

impl<N: Copy> Delta<N> {
    /// Both thresholds are given.
    pub open spec fn spec_is_some(self) -> bool {
        self.charge_threshold_start is Some && self.charge_threshold_end is Some
    }

    /// Each threshold of `self`, or that of `that` where `self` leaves it unset.
    pub open spec fn spec_or(self, that: Delta<N>) -> Delta<N> {
        Delta {
            charge_threshold_start: crate::cpu::or_else(self.charge_threshold_start, that.charge_threshold_start),
            charge_threshold_end: crate::cpu::or_else(self.charge_threshold_end, that.charge_threshold_end),
        }
    }

    /// The delta that sets nothing.
    pub fn empty() -> (d: Delta<N>)
        ensures
            d.charge_threshold_start is None,
            d.charge_threshold_end is None,
    {
        Delta { charge_threshold_start: None, charge_threshold_end: None }
    }

    /// Whether both thresholds are given.
    pub fn is_some(&self) -> (all: bool)
        ensures
            all == self.spec_is_some(),
    {
        self.charge_threshold_start.is_some() && self.charge_threshold_end.is_some()
    }

    /// Fills the thresholds that `self` leaves unset from `that`.
    pub fn or(self, that: &Self) -> (merged: Self)
        ensures
            merged == self.spec_or(*that),
    {
        Delta {
            charge_threshold_start: match self.charge_threshold_start {
                Some(t) => Some(t),
                None => that.charge_threshold_start,
            },
            charge_threshold_end: match self.charge_threshold_end {
                Some(t) => Some(t),
                None => that.charge_threshold_end,
            },
        }
    }
}

/// Thresholds given by a higher-priority delta are kept over those of a
/// lower-priority one, however deltas are grouped: merging is associative.
pub proof fn lemma_delta_or_associative<N: Copy>(a: Delta<N>, b: Delta<N>, c: Delta<N>)
    ensures
        a.spec_or(b).spec_or(c) == a.spec_or(b.spec_or(c)),
{
}

/// A delta that gives both thresholds shadows whatever it is merged with,
/// and a delta that gives neither changes nothing.
pub proof fn lemma_delta_or_shadows<N: Copy>(a: Delta<N>, b: Delta<N>)
    ensures
        a.spec_is_some() ==> a.spec_or(b) == a,
        (Delta::<N> { charge_threshold_start: None, charge_threshold_end: None }).spec_or(b) == b,
        b.spec_or(Delta::<N> { charge_threshold_start: None, charge_threshold_end: None }) == b,
        a.spec_is_some() || b.spec_is_some() ==> a.spec_or(b).spec_is_some(),
{
}

/// The system is discharging exactly when some power supply, wherever it
/// stands in the list, reports the charge state `Discharging`.
pub proof fn lemma_discharging_iff_some_supply(supplies: Seq<PowerSupply>)
    ensures
        spec_is_discharging(supplies) <==> exists|i: int| 0 <= i < supplies.len()
            && (#[trigger] supplies[i]).charge_state is Some && supplies[i].charge_state->Some_0@ == "Discharging"@,
        forall|i: int| 0 <= i < supplies.len() && (#[trigger] supplies[i]).charge_state is Some
            && supplies[i].charge_state->Some_0@ == "Discharging"@ ==> spec_is_discharging(supplies),
        forall|i: int| 0 <= i < supplies.len() ==> (spec_is_discharging(supplies.remove(i)) ==> spec_is_discharging(supplies)),
{
    assert forall|i: int| 0 <= i < supplies.len() implies (spec_is_discharging(supplies.remove(i)) ==> spec_is_discharging(supplies)) by {
        if spec_is_discharging(supplies.remove(i)) {
            let j = choose|j: int| 0 <= j < supplies.remove(i).len() && reports_discharging(#[trigger] supplies.remove(i)[j]);
            if j < i {
                assert(supplies.remove(i)[j] == supplies[j]);
                assert(reports_discharging(supplies[j]));
            } else {
                assert(supplies.remove(i)[j] == supplies[j + 1]);
                assert(reports_discharging(supplies[j + 1]));
            }
        }
    }
}

} // verus!

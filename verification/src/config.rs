//! Checks on what a run is set up from, made before the engine starts.

use crate::counts::Counts;
use crate::seeding::sojourns_fit;
use crate::simulation::id_limit;
use crate::state::{catalog_wf, infected_wf, State, StateDetail};
use crate::time::{all_finite, are_finite};
use vstd::prelude::*;

verus! {

/// Why a configuration cannot be used.
#[derive(Debug, Clone, Copy, PartialEq, Eq, Structural)]
pub enum ConfigError {
    /// No contact parameters were given.
    NoContactParameters,
    /// The contact parameters at `index`, which are not the last, name no end time.
    MissingEndTime { index: usize },
    /// The last contact parameters name an end time.
    EndTimeOnLast,
}

/// The end times are well placed: every stratum but the last has one, and the
/// last has none.
pub open spec fn end_times_placed(t_ends: Seq<Option<u64>>) -> bool {
    &&& t_ends.len() >= 1
    &&& t_ends.last() is None
    &&& forall|i: int| 0 <= i < t_ends.len() - 1 ==> (#[trigger] t_ends[i]) is Some
}

/// Whether the state at `i` is a usable infected state of the catalog.
fn check_infected(states: &Vec<State>, n_ageclasses: usize, i: usize) -> (ok: bool)
    requires
        i < states@.len(),
        states@[i as int].spec_is_infected(),
    ensures
        ok == infected_wf(states@, n_ageclasses as nat, i as int),
{
    match &states[i].detail {
        StateDetail::Infected(Some(law)) => {
            let n_next = law.next_state_ids.len();
            if n_next < 1 || law.transition_cdfs.len() != n_ageclasses {
                return false;
            }
            let mut k: usize = 0;
            while k < n_next
                invariant
                    k <= n_next,
                    i < states@.len(),
                    states@[i as int].detail == StateDetail::Infected(Some(*law)),
                    n_next == law.next_state_ids@.len(),
                    forall|j: int|
                        0 <= j < k ==> {
                            &&& (#[trigger] law.next_state_ids@[j]) < states@.len()
                            &&& !states@[law.next_state_ids@[j] as int].spec_is_susceptible()
                        },
                decreases n_next - k,
            {
                let next = law.next_state_ids[k];
                if next >= states.len() {
                    return false;
                }
                if states[next].is_susceptible() {
                    return false;
                }
                k += 1;
            }
            let mut a: usize = 0;
            while a < n_ageclasses
                invariant
                    a <= n_ageclasses,
                    i < states@.len(),
                    states@[i as int].detail == StateDetail::Infected(Some(*law)),
                    n_next == law.next_state_ids@.len(),
                    n_next >= 1,
                    law.transition_cdfs@.len() == n_ageclasses,
                    forall|b: int|
                        0 <= b < a ==> {
                            ||| (#[trigger] law.transition_cdfs@[b])@.len() == n_next
                            ||| law.transition_cdfs@[b]@.len() == n_next - 1
                        },
                decreases n_ageclasses - a,
            {
                let len = law.transition_cdfs[a].len();
                if !(len == n_next || len == n_next - 1) {
                    return false;
                }
                a += 1;
            }
            true
        },
        _ => false,
    }
}

/// Whether the catalog is usable by the engine.
pub fn check_catalog(
    states: &Vec<State>,
    n_ageclasses: usize,
    susceptible_state_id: usize,
    initial_infected_state_id: usize,
) -> (ok: bool)
    ensures
        ok == catalog_wf(
            states@,
            n_ageclasses as nat,
            susceptible_state_id as int,
            initial_infected_state_id as int,
        ),
{
    let n = states.len();
    if susceptible_state_id >= n || initial_infected_state_id >= n {
        return false;
    }
    if !states[initial_infected_state_id].is_infected() {
        return false;
    }
    let mut i: usize = 0;
    while i < n
        invariant
            i <= n,
            n == states@.len(),
            forall|j: int| 0 <= j < i ==> (#[trigger] states@[j]).id == j,
            forall|j: int|
                0 <= j < i ==> ((#[trigger] states@[j]).spec_is_susceptible() <==> j
                    == susceptible_state_id),
            forall|j: int|
                0 <= j < i && (#[trigger] states@[j]).spec_is_infected() ==> infected_wf(
                    states@,
                    n_ageclasses as nat,
                    j,
                ),
        decreases n - i,
    {
        if states[i].id != i {
            return false;
        }
        if states[i].is_susceptible() != (i == susceptible_state_id) {
            return false;
        }
        if states[i].is_infected() {
            if !check_infected(states, n_ageclasses, i) {
                return false;
            }
        }
        i += 1;
    }
    true
}

/// Whether the sojourn ends handed in for the seeded individuals fit the
/// catalog and the initial tally.
pub fn check_sojourns(
    states: &Vec<State>,
    n_ageclasses: usize,
    initial_counts: &Counts,
    sojourns: &Vec<Vec<Vec<u64>>>,
) -> (ok: bool)
    requires
        initial_counts.wf(),
        initial_counts.n_states() == states@.len(),
        initial_counts.n_ageclasses() == n_ageclasses,
    ensures
        ok == sojourns_fit(states@, n_ageclasses as nat, initial_counts@, sojourns@),
{
    let n = states.len();
    if sojourns.len() != n {
        return false;
    }
    let mut s: usize = 0;
    while s < n
        invariant
            s <= n,
            n == states@.len(),
            sojourns@.len() == n,
            initial_counts.wf(),
            initial_counts.n_states() == n,
            initial_counts.n_ageclasses() == n_ageclasses,
            forall|r: int|
                0 <= r < s && states@[r].spec_is_infected() ==> (#[trigger] sojourns@[r])@.len()
                    == n_ageclasses,
            forall|r: int, a: int|
                0 <= r < s && 0 <= a < n_ageclasses && states@[r].spec_is_infected() ==> (
                #[trigger] sojourns@[r]@[a])@.len() == initial_counts@[r][a] && all_finite(
                    sojourns@[r]@[a]@,
                ),
        decreases n - s,
    {
        if states[s].is_infected() {
            if sojourns[s].len() != n_ageclasses {
                return false;
            }
            let mut a: usize = 0;
            while a < n_ageclasses
                invariant
                    s < n,
                    a <= n_ageclasses,
                    n == states@.len(),
                    sojourns@.len() == n,
                    sojourns@[s as int]@.len() == n_ageclasses,
                    states@[s as int].spec_is_infected(),
                    initial_counts.wf(),
                    initial_counts.n_states() == n,
                    initial_counts.n_ageclasses() == n_ageclasses,
                    forall|b: int|
                        0 <= b < a ==> (#[trigger] sojourns@[s as int]@[b])@.len()
                            == initial_counts@[s as int][b] && all_finite(
                            sojourns@[s as int]@[b]@,
                        ),
                decreases n_ageclasses - a,
            {
                if sojourns[s][a].len() != initial_counts.get(s, a) {
                    return false;
                }
                if !are_finite(&sojourns[s][a]) {
                    return false;
                }
                a += 1;
            }
        }
        s += 1;
    }
    true
}

/// Whether `n` is below the limit on the population.
pub fn below_id_limit(n: usize) -> (ok: bool)
    ensures
        ok == (n < id_limit()),
{
    n < usize::MAX && (n as u64) < 0x7FFF_FFFF_FFFF_FFFFu64
}

/// A run can be set up from these: the catalog is usable, the sizes agree,
/// there is one changepoint between each two strata, the population is below
/// the limit, and there is a sojourn end for every seeded individual.
pub open spec fn startable(
    n_ageclasses: usize,
    states: Seq<State>,
    susceptible_state_id: usize,
    initial_infected_state_id: usize,
    t_change: Seq<u64>,
    n_strata: usize,
    initial_counts: &Counts,
    sojourns: Seq<Vec<Vec<u64>>>,
) -> bool {
    &&& catalog_wf(
        states,
        n_ageclasses as nat,
        susceptible_state_id as int,
        initial_infected_state_id as int,
    )
    &&& n_ageclasses < i64::MAX
    &&& t_change.len() + 1 == n_strata
    &&& initial_counts.n_states() == states.len()
    &&& initial_counts.n_ageclasses() == n_ageclasses
    &&& initial_counts.spec_total() < id_limit()
    &&& sojourns_fit(states, n_ageclasses as nat, initial_counts@, sojourns)
}

/// Whether a run can be set up from these.
pub fn check_start(
    n_ageclasses: usize,
    states: &Vec<State>,
    susceptible_state_id: usize,
    initial_infected_state_id: usize,
    t_change: &Vec<u64>,
    n_strata: usize,
    initial_counts: &Counts,
    sojourns: &Vec<Vec<Vec<u64>>>,
) -> (ok: bool)
    requires
        initial_counts.wf(),
    ensures
        ok == startable(
            n_ageclasses,
            states@,
            susceptible_state_id,
            initial_infected_state_id,
            t_change@,
            n_strata,
            initial_counts,
            sojourns@,
        ),
{
    let shape = initial_counts.shape();
    if !(shape.0 == states.len() && shape.1 == n_ageclasses) {
        return false;
    }
    if !((n_ageclasses as u64) < 0x7FFF_FFFF_FFFF_FFFFu64) {
        return false;
    }
    if n_strata == 0 || t_change.len() != n_strata - 1 {
        return false;
    }
    if !below_id_limit(initial_counts.total()) {
        return false;
    }
    check_catalog(states, n_ageclasses, susceptible_state_id, initial_infected_state_id)
        && check_sojourns(states, n_ageclasses, initial_counts, sojourns)
}

/// The changepoints of an intervention schedule, from the end time that each
/// stratum names, in order. Every stratum but the last must name one, and the
/// last must not.
pub fn parse_contact_parameters(t_ends: &Vec<Option<u64>>) -> (r: Result<Vec<u64>, ConfigError>)
    ensures
        r is Ok <==> end_times_placed(t_ends@),
        match r {
            Ok(t_change) => {
                &&& t_change@.len() == t_ends@.len() - 1
                &&& forall|i: int|
                    0 <= i < t_change@.len() ==> t_ends@[i] == Some(#[trigger] t_change@[i])
            },
            Err(e) => {
                &&& t_ends@.len() == 0 <==> e == ConfigError::NoContactParameters
                &&& e == ConfigError::EndTimeOnLast <==> t_ends@.len() >= 1
                    && t_ends@.last() is Some
                    && forall|i: int| 0 <= i < t_ends@.len() - 1 ==> (#[trigger] t_ends@[i]) is Some
                &&& match e {
                    ConfigError::MissingEndTime { index } => {
                        &&& index < t_ends@.len() - 1
                        &&& t_ends@[index as int] is None
                        &&& forall|i: int| 0 <= i < index ==> (#[trigger] t_ends@[i]) is Some
                    },
                    ConfigError::NoContactParameters => true,
                    ConfigError::EndTimeOnLast => true,
                }
            },
        },
{
    let n = t_ends.len();
    if n == 0 {
        return Err(ConfigError::NoContactParameters);
    }
    let mut t_change: Vec<u64> = Vec::new();
    let mut i: usize = 0;
    while i < n - 1
        invariant
            i <= n - 1,
            n == t_ends@.len(),
            n >= 1,
            t_change@.len() == i,
            forall|j: int| 0 <= j < i ==> t_ends@[j] == Some(#[trigger] t_change@[j]),
            forall|j: int| 0 <= j < i ==> (#[trigger] t_ends@[j]) is Some,
        decreases n - 1 - i,
    {
        match t_ends[i] {
            Some(t_end) => {
                t_change.push(t_end);
            },
            None => {
                return Err(ConfigError::MissingEndTime { index: i });
            },
        }
        i += 1;
    }
    match t_ends[n - 1] {
        Some(_) => Err(ConfigError::EndTimeOnLast),
        None => Ok(t_change),
    }
}

} // verus!

//! Building the catalog of states from their names.
//!
//! States are numbered in the order in which they are named: the susceptible
//! state first, then the final states, then the infected states. Successors
//! are named and are resolved to these numbers.

use crate::counts::Counts;
use crate::state::{InfectedState, State, StateDetail};
use crate::sums::{sum, zeros};
use vstd::prelude::*;

verus! {

/// An infected state as it is declared: its successors by name.
#[derive(Debug, Clone)]
pub struct StateConfig {
    pub name: String,
    pub infectious: bool,
    /// Mean sojourn time, as the bit pattern of its double.
    pub mean_duration: u64,
    /// Shape of the gamma-distributed sojourn time, as the bit pattern of its double.
    pub gamma_shape: u64,
    pub next_states: Vec<String>,
    /// For each age class, the cumulative probabilities of the successors;
    /// absent where there is a single successor.
    pub transition_cdfs: Option<Vec<Vec<u64>>>,
}

/// Why no catalog could be built.
#[derive(Debug, Clone, Copy, PartialEq, Eq, Structural)]
pub enum CatalogError {
    /// The state at `index` has the name of an earlier state.
    DuplicateState { index: usize },
    /// The infected state at `index` has no probabilities for its successors
    /// and not exactly one successor.
    MissingProbabilities { index: usize },
    /// A successor, or the initial infected state, names no state.
    UnknownState,
}

/// The infected state says how its successors are chosen: it has
/// probabilities for them, or it has exactly one.
pub open spec fn probabilities_given(config: StateConfig) -> bool {
    config.transition_cdfs is Some || config.next_states@.len() == 1
}

/// Every infected state says how its successors are chosen.
pub open spec fn all_probabilities_given(infected_states: Seq<StateConfig>) -> bool {
    forall|p: int|
        0 <= p < infected_states.len() ==> probabilities_given(#[trigger] infected_states[p])
}

/// The names of all states, in the order of their ids.
pub open spec fn all_names(
    susceptible_state: Seq<char>,
    final_states: Seq<String>,
    infected_states: Seq<StateConfig>,
) -> Seq<Seq<char>> {
    seq![susceptible_state] + Seq::new(final_states.len(), |i: int| final_states[i]@) + Seq::new(
        infected_states.len(),
        |i: int| infected_states[i].name@,
    )
}

/// No two of the names are equal.
pub open spec fn distinct(names: Seq<Seq<char>>) -> bool {
    forall|i: int, j: int| 0 <= i < j < names.len() ==> names[i] != names[j]
}

/// `name` is one of the names.
pub open spec fn known(names: Seq<Seq<char>>, name: Seq<char>) -> bool {
    exists|i: int| 0 <= i < names.len() && #[trigger] names[i] == name
}

/// Every successor of every infected state, and the initial infected state, is known.
pub open spec fn all_known(
    names: Seq<Seq<char>>,
    infected_states: Seq<StateConfig>,
    initial_infected_state: Seq<char>,
) -> bool {
    &&& known(names, initial_infected_state)
    &&& forall|j: int, k: int|
        0 <= j < infected_states.len() && 0 <= k < infected_states[j].next_states@.len() ==> known(
            names,
            #[trigger] infected_states[j].next_states@[k]@,
        )
}

/// The state `state` is the infected state declared by `config`, with its
/// successors resolved among `names`.
pub open spec fn links(
    state: State,
    config: StateConfig,
    names: Seq<Seq<char>>,
    n_ageclasses: nat,
) -> bool {
    &&& state.linked()
    &&& state.infected().infectious == config.infectious
    &&& state.infected().mean_duration == config.mean_duration
    &&& state.infected().gamma_shape == config.gamma_shape
    &&& state.infected().next_state_ids@.len() == config.next_states@.len()
    &&& forall|k: int|
        0 <= k < config.next_states@.len() ==> {
            &&& (#[trigger] state.infected().next_state_ids@[k]) < names.len()
            &&& names[state.infected().next_state_ids@[k] as int] == config.next_states@[k]@
        }
    &&& match config.transition_cdfs {
        Some(cdfs) => {
            &&& state.infected().transition_cdfs@.len() == cdfs@.len()
            &&& forall|a: int|
                0 <= a < cdfs@.len() ==> (#[trigger] state.infected().transition_cdfs@[a])@
                    == cdfs@[a]@
        },
        None => {
            &&& state.infected().transition_cdfs@.len() == n_ageclasses
            &&& forall|a: int|
                0 <= a < n_ageclasses ==> (#[trigger] state.infected().transition_cdfs@[a])@.len()
                    == 0
        },
    }
}

/// The names held in `names`.
pub open spec fn views(names: Seq<String>) -> Seq<Seq<char>> {
    Seq::new(names.len(), |i: int| names[i]@)
}

/// The id of the state called `name`, if there is one.
pub fn lookup(names: &Vec<String>, name: &String) -> (r: Option<usize>)
    ensures
        r is Some <==> known(views(names@), name@),
        r is Some ==> r->0 < names@.len() && names@[r->0 as int]@ == name@,
        r is Some ==> forall|i: int| 0 <= i < r->0 ==> (#[trigger] names@[i])@ != name@,
{
    let mut i: usize = 0;
    while i < names.len()
        invariant
            i <= names@.len(),
            forall|j: int| 0 <= j < i ==> (#[trigger] names@[j])@ != name@,
        decreases names@.len() - i,
    {
        if names[i] == *name {
            assert(views(names@)[i as int] == name@);
            return Some(i);
        }
        i += 1;
    }
    proof {
        assert forall|j: int| 0 <= j < views(names@).len() implies #[trigger] views(names@)[j]
            != name@ by {
            assert(names@[j]@ != name@);
        }
    }
    None
}

/// A copy of the cumulative probabilities.
fn copy_cdfs(cdfs: &Vec<Vec<u64>>) -> (r: Vec<Vec<u64>>)
    ensures
        r@.len() == cdfs@.len(),
        forall|a: int| 0 <= a < cdfs@.len() ==> (#[trigger] r@[a])@ == cdfs@[a]@,
{
    let mut r: Vec<Vec<u64>> = Vec::new();
    let mut a: usize = 0;
    while a < cdfs.len()
        invariant
            a <= cdfs@.len(),
            r@.len() == a,
            forall|b: int| 0 <= b < a ==> (#[trigger] r@[b])@ == cdfs@[b]@,
        decreases cdfs@.len() - a,
    {
        let mut row: Vec<u64> = Vec::new();
        let mut k: usize = 0;
        while k < cdfs[a].len()
            invariant
                a < cdfs@.len(),
                k <= cdfs@[a as int]@.len(),
                row@ == cdfs@[a as int]@.take(k as int),
            decreases cdfs@[a as int]@.len() - k,
        {
            row.push(cdfs[a][k]);
            proof {
                assert(row@ =~= cdfs@[a as int]@.take(k + 1));
            }
            k += 1;
        }
        proof {
            assert(cdfs@[a as int]@.take(k as int) =~= cdfs@[a as int]@);
        }
        r.push(row);
        a += 1;
    }
    r
}

/// One empty list of cumulative probabilities per age class.
fn empty_cdfs(n_ageclasses: usize) -> (r: Vec<Vec<u64>>)
    ensures
        r@.len() == n_ageclasses,
        forall|a: int| 0 <= a < n_ageclasses ==> (#[trigger] r@[a])@.len() == 0,
{
    let mut r: Vec<Vec<u64>> = Vec::new();
    let mut a: usize = 0;
    while a < n_ageclasses
        invariant
            a <= n_ageclasses,
            r@.len() == a,
            forall|b: int| 0 <= b < a ==> (#[trigger] r@[b])@.len() == 0,
        decreases n_ageclasses - a,
    {
        r.push(Vec::new());
        a += 1;
    }
    r
}

/// The first index whose name occurred before, if any name occurs twice.
fn first_duplicate(names: &Vec<String>) -> (r: Option<usize>)
    ensures
        r is None <==> distinct(views(names@)),
        r is Some ==> {
            &&& r->0 < names@.len()
            &&& exists|i: int| 0 <= i < r->0 && (#[trigger] names@[i])@ == names@[r->0 as int]@
            &&& distinct(views(names@.take(r->0 as int)))
        },
{
    let mut j: usize = 0;
    while j < names.len()
        invariant
            j <= names@.len(),
            distinct(views(names@.take(j as int))),
        decreases names@.len() - j,
    {
        let mut i: usize = 0;
        while i < j
            invariant
                i <= j,
                j < names@.len(),
                distinct(views(names@.take(j as int))),
                forall|h: int| 0 <= h < i ==> (#[trigger] names@[h])@ != names@[j as int]@,
            decreases j - i,
        {
            if names[i] == names[j] {
                proof {
                    assert(views(names@)[i as int] == views(names@)[j as int]);
                    assert(names@[i as int]@ == names@[j as int]@);
                }
                return Some(j);
            }
            i += 1;
        }
        proof {
            let before = views(names@.take(j as int));
            let after = views(names@.take(j + 1));
            assert forall|g: int, h: int| 0 <= g < h < after.len() implies after[g]
                != after[h] by {
                if h < j {
                    assert(before[g] != before[h]);
                } else {
                    assert(names@[g]@ != names@[j as int]@);
                }
            }
        }
        j += 1;
    }
    proof {
        assert(names@.take(j as int) =~= names@);
    }
    None
}

/// Builds the catalog: the susceptible state, then the final states, then
/// the infected states, each with its successors resolved to ids. Returns the
/// catalog with the ids of the susceptible and of the initial infected state.
/// Names must not repeat; an infected state without probabilities must have
/// exactly one successor; and every name used must be that of a state.
pub fn parse_states(
    n_ageclasses: usize,
    susceptible_state: &String,
    initial_infected_state: &String,
    final_states: &Vec<String>,
    infected_states: &Vec<StateConfig>,
) -> (r: Result<(Vec<State>, usize, usize), CatalogError>)
    ensures
        ({
            let names = all_names(susceptible_state@, final_states@, infected_states@);
            let base = 1 + final_states@.len();
            &&& r is Ok <==> distinct(names) && all_probabilities_given(infected_states@)
                && all_known(names, infected_states@, initial_infected_state@)
            &&& match r {
                Ok((states, susceptible_state_id, initial_infected_state_id)) => {
                    &&& states@.len() == names.len()
                    &&& susceptible_state_id == 0
                    &&& initial_infected_state_id < names.len()
                    &&& names[initial_infected_state_id as int] == initial_infected_state@
                    &&& forall|i: int|
                        0 <= i < names.len() ==> (#[trigger] states@[i]).id == i && states@[i].name@
                            == names[i]
                    &&& states@[0].spec_is_susceptible()
                    &&& forall|i: int| 1 <= i < base ==> (#[trigger] states@[i]).spec_is_final()
                    &&& forall|p: int|
                        0 <= p < infected_states@.len() ==> links(
                            #[trigger] states@[base + p],
                            infected_states@[p],
                            names,
                            n_ageclasses as nat,
                        )
                },
                Err(CatalogError::DuplicateState { index }) => {
                    &&& index < names.len()
                    &&& exists|i: int| 0 <= i < index && #[trigger] names[i] == names[index as int]
                    &&& distinct(names.take(index as int))
                },
                Err(CatalogError::MissingProbabilities { index }) => {
                    &&& distinct(names)
                    &&& base <= index < names.len()
                    &&& !probabilities_given(infected_states@[index - base])
                    &&& forall|p: int|
                        0 <= p < index - base ==> probabilities_given(
                            #[trigger] infected_states@[p],
                        )
                },
                Err(CatalogError::UnknownState) => {
                    &&& distinct(names)
                    &&& all_probabilities_given(infected_states@)
                },
            }
        }),
{
    let ghost names = all_names(susceptible_state@, final_states@, infected_states@);
    let ghost base = 1 + final_states@.len();
    let mut all: Vec<String> = Vec::new();
    all.push(susceptible_state.clone());
    let mut i: usize = 0;
    while i < final_states.len()
        invariant
            i <= final_states@.len(),
            all@.len() == 1 + i,
            all@[0]@ == susceptible_state@,
            forall|j: int| 0 <= j < i ==> (#[trigger] all@[1 + j])@ == final_states@[j]@,
        decreases final_states@.len() - i,
    {
        all.push(final_states[i].clone());
        i += 1;
    }
    let mut p: usize = 0;
    while p < infected_states.len()
        invariant
            p <= infected_states@.len(),
            base == 1 + final_states@.len(),
            all@.len() == base + p,
            all@[0]@ == susceptible_state@,
            forall|j: int|
                0 <= j < final_states@.len() ==> (#[trigger] all@[1 + j])@ == final_states@[j]@,
            forall|j: int| 0 <= j < p ==> (#[trigger] all@[base + j])@ == infected_states@[j].name@,
        decreases infected_states@.len() - p,
    {
        all.push(infected_states[p].name.clone());
        p += 1;
    }
    proof {
        assert forall|j: int| 0 <= j < names.len() implies views(all@)[j]
            == #[trigger] names[j] by {
            if j == 0 {
            } else if j < base {
                assert(all@[1 + (j - 1)]@ == final_states@[j - 1]@);
            } else {
                assert(all@[base + (j - base)]@ == infected_states@[j - base].name@);
            }
        }
        assert(views(all@) =~= names);
    }
    match first_duplicate(&all) {
        Some(index) => {
            proof {
                assert(views(all@.take(index as int)) =~= names.take(index as int));
                let h = choose|h: int|
                    0 <= h < index && (#[trigger] all@[h])@ == all@[index as int]@;
                assert(names[h] == names[index as int]);
            }
            return Err(CatalogError::DuplicateState { index });
        },
        None => {},
    }
    let n_states = all.len();
    let first_infected = n_states - infected_states.len();
    let mut q: usize = 0;
    while q < infected_states.len()
        invariant
            q <= infected_states@.len(),
            first_infected == base,
            n_states == base + infected_states@.len(),
            names.len() == n_states,
            names == all_names(susceptible_state@, final_states@, infected_states@),
            distinct(names),
            forall|p: int| 0 <= p < q ==> probabilities_given(#[trigger] infected_states@[p]),
        decreases infected_states@.len() - q,
    {
        if infected_states[q].transition_cdfs.is_none() && infected_states[q].next_states.len()
            != 1 {
            return Err(CatalogError::MissingProbabilities { index: first_infected + q });
        }
        q += 1;
    }
    let mut states: Vec<State> = Vec::new();
    states.push(State::new_susceptible(0, susceptible_state.clone()));
    let mut i: usize = 0;
    while i < final_states.len()
        invariant
            i <= final_states@.len(),
            states@.len() == 1 + i,
            views(all@) == names,
            all_probabilities_given(infected_states@),
            names == all_names(susceptible_state@, final_states@, infected_states@),
            names.len() == 1 + final_states@.len() + infected_states@.len(),
            states@[0].spec_is_susceptible(),
            forall|j: int| 0 <= j < 1 + i ==> (#[trigger] states@[j]).id == j && states@[j].name@
                == names[j],
            forall|j: int| 1 <= j < 1 + i ==> (#[trigger] states@[j]).spec_is_final(),
        decreases final_states@.len() - i,
    {
        proof {
            assert(names[1 + i] == views(all@)[1 + i]);
            assert(names[1 + i] == final_states@[i as int]@);
        }
        states.push(State::new_final(1 + i, final_states[i].clone()));
        i += 1;
    }
    let mut p: usize = 0;
    while p < infected_states.len()
        invariant
            p <= infected_states@.len(),
            base == 1 + final_states@.len(),
            states@.len() == base + p,
            views(all@) == names,
            all_probabilities_given(infected_states@),
            distinct(names),
            names.len() == base + infected_states@.len(),
            names == all_names(susceptible_state@, final_states@, infected_states@),
            states@[0].spec_is_susceptible(),
            forall|j: int| 0 <= j < base + p ==> (#[trigger] states@[j]).id == j && states@[j].name@
                == names[j],
            forall|j: int| 1 <= j < base ==> (#[trigger] states@[j]).spec_is_final(),
            forall|q: int|
                0 <= q < p ==> links(
                    #[trigger] states@[base + q],
                    infected_states@[q],
                    names,
                    n_ageclasses as nat,
                ),
            forall|j: int, k: int|
                0 <= j < p && 0 <= k < infected_states@[j].next_states@.len() ==> known(
                    names,
                    #[trigger] infected_states@[j].next_states@[k]@,
                ),
        decreases infected_states@.len() - p,
    {
        let config = &infected_states[p];
        let mut next_state_ids: Vec<usize> = Vec::new();
        let mut k: usize = 0;
        while k < config.next_states.len()
            invariant
                k <= config.next_states@.len(),
                p < infected_states@.len(),
                *config == infected_states@[p as int],
                views(all@) == names,
                all_probabilities_given(infected_states@),
            all_probabilities_given(infected_states@),
                distinct(names),
                names == all_names(susceptible_state@, final_states@, infected_states@),
                next_state_ids@.len() == k,
                forall|h: int|
                    0 <= h < k ==> {
                        &&& (#[trigger] next_state_ids@[h]) < names.len()
                        &&& names[next_state_ids@[h] as int] == config.next_states@[h]@
                    },
                forall|h: int| 0 <= h < k ==> known(names, #[trigger] config.next_states@[h]@),
            decreases config.next_states@.len() - k,
        {
            match lookup(&all, &config.next_states[k]) {
                Some(id) => {
                    proof {
                        assert(views(all@)[id as int] == config.next_states@[k as int]@);
                    }
                    next_state_ids.push(id);
                },
                None => {
                    proof {
                        assert(!known(names, infected_states@[p as int].next_states@[k as int]@));
                    }
                    return Err(CatalogError::UnknownState);
                },
            }
            k += 1;
        }
        let transition_cdfs = match &config.transition_cdfs {
            Some(cdfs) => copy_cdfs(cdfs),
            None => empty_cdfs(n_ageclasses),
        };
        proof {
            assert(names[base + p] == infected_states@[p as int].name@);
        }
        let state = State {
            id: states.len(),
            name: config.name.clone(),
            detail: StateDetail::Infected(
                Some(
                    InfectedState {
                        infectious: config.infectious,
                        mean_duration: config.mean_duration,
                        gamma_shape: config.gamma_shape,
                        next_state_ids,
                        transition_cdfs,
                    },
                ),
            ),
        };
        assert(links(state, *config, names, n_ageclasses as nat));
        states.push(state);
        p += 1;
    }
    match lookup(&all, initial_infected_state) {
        Some(initial_infected_state_id) => {
            proof {
                assert(views(all@)[initial_infected_state_id as int] == initial_infected_state@);
            }
            Ok((states, 0, initial_infected_state_id))
        },
        None => Err(CatalogError::UnknownState),
    }
}

/// Why no initial tally could be built.
#[derive(Debug, Clone, Copy, PartialEq, Eq, Structural)]
pub enum CountsError {
    /// Entry `index` names no state that the tally has a row for.
    UnknownState { index: usize },
    /// Entry `index` has fewer counts than there are age classes.
    TooFewCounts { index: usize },
    /// With entry `index` the counts add up to more than the machine word holds.
    TooLarge { index: usize },
}

/// `i` is the first index at which `names` holds `name`.
pub open spec fn first_at(names: Seq<Seq<char>>, name: Seq<char>, i: int) -> bool {
    &&& 0 <= i < names.len()
    &&& names[i] == name
    &&& forall|h: int| 0 <= h < i ==> #[trigger] names[h] != name
}

/// The id of the state called `name`.
pub open spec fn id_of(names: Seq<Seq<char>>, name: Seq<char>) -> int {
    choose|i: int| first_at(names, name, i)
}

/// The entry names a state that has a row, and has a count for every age class.
pub open spec fn entry_usable(
    names: Seq<Seq<char>>,
    n_states: nat,
    n_ageclasses: nat,
    entry: (String, Vec<usize>),
) -> bool {
    &&& known(names, entry.0@)
    &&& id_of(names, entry.0@) < n_states
    &&& entry.1@.len() >= n_ageclasses
}

/// What the entries add up to, over the age classes that exist.
pub open spec fn entries_total(entries: Seq<(String, Vec<usize>)>, n_ageclasses: nat) -> int
    decreases entries.len(),
{
    if entries.len() == 0 {
        0
    } else {
        entries_total(entries.drop_last(), n_ageclasses) + sum(
            entries.last().1@.take(n_ageclasses as int),
        )
    }
}

/// `m` with the first counts of `row` added to row `s`, one per column.
pub open spec fn add_row(m: Seq<Seq<usize>>, s: int, row: Seq<usize>) -> Seq<Seq<usize>> {
    m.update(s, Seq::new(m[s].len(), |a: int| (m[s][a] + row[a]) as usize))
}

/// The tally that the entries make: each entry is added to the row of the
/// state that it names.
pub open spec fn tallied(
    names: Seq<Seq<char>>,
    n_states: nat,
    n_ageclasses: nat,
    entries: Seq<(String, Vec<usize>)>,
) -> Seq<Seq<usize>>
    decreases entries.len(),
{
    if entries.len() == 0 {
        zeros(n_states, n_ageclasses)
    } else {
        add_row(
            tallied(names, n_states, n_ageclasses, entries.drop_last()),
            id_of(names, entries.last().0@),
            entries.last().1@,
        )
    }
}

/// A longer prefix of a sequence has at least the sum of a shorter one.
pub proof fn lemma_sum_take_monotone(s: Seq<usize>, a: int, b: int)
    requires
        0 <= a <= b <= s.len(),
    ensures
        sum(s.take(a)) <= sum(s.take(b)),
    decreases b - a,
{
    if a < b {
        lemma_sum_take_monotone(s, a, b - 1);
        assert(s.take(b).drop_last() =~= s.take(b - 1));
    }
}

/// The total of the first entries is at most the total of all.
pub proof fn lemma_entries_total_monotone(
    entries: Seq<(String, Vec<usize>)>,
    n_ageclasses: nat,
    i: int,
)
    requires
        0 <= i <= entries.len(),
    ensures
        0 <= entries_total(entries.take(i), n_ageclasses) <= entries_total(entries, n_ageclasses),
    decreases entries.len(),
{
    if entries.len() == 0 {
        assert(entries.take(i) =~= entries);
    } else if i == entries.len() {
        assert(entries.take(i) =~= entries);
        lemma_entries_total_monotone(entries.drop_last(), n_ageclasses, i - 1);
        assert(entries.drop_last().take(i - 1) =~= entries.drop_last());
        crate::sums::lemma_sum_nonnegative(entries.last().1@.take(n_ageclasses as int));
    } else {
        lemma_entries_total_monotone(entries.drop_last(), n_ageclasses, i);
        assert(entries.drop_last().take(i) =~= entries.take(i));
        crate::sums::lemma_sum_nonnegative(entries.last().1@.take(n_ageclasses as int));
    }
}

/// Builds the initial tally from counts given by state name: one list of
/// counts per entry, of which the first per age class is added to the row of
/// the state named.
pub fn parse_initial_counts(
    n_states: usize,
    n_ageclasses: usize,
    names: &Vec<String>,
    counts_raw: &Vec<(String, Vec<usize>)>,
) -> (r: Result<Counts, CountsError>)
    ensures
        r is Ok <==> (forall|i: int|
            0 <= i < counts_raw@.len() ==> entry_usable(
                views(names@),
                n_states as nat,
                n_ageclasses as nat,
                #[trigger] counts_raw@[i],
            )) && entries_total(counts_raw@, n_ageclasses as nat) <= usize::MAX,
        match r {
            Ok(counts) => {
                &&& counts.wf()
                &&& counts.n_states() == n_states
                &&& counts.n_ageclasses() == n_ageclasses
                &&& counts@ == tallied(
                    views(names@),
                    n_states as nat,
                    n_ageclasses as nat,
                    counts_raw@,
                )
                &&& counts.spec_total() == entries_total(counts_raw@, n_ageclasses as nat)
            },
            Err(CountsError::UnknownState { index }) => {
                &&& index < counts_raw@.len()
                &&& !(known(views(names@), counts_raw@[index as int].0@) && id_of(
                    views(names@),
                    counts_raw@[index as int].0@,
                ) < n_states)
                &&& forall|i: int|
                    0 <= i < index ==> entry_usable(
                        views(names@),
                        n_states as nat,
                        n_ageclasses as nat,
                        #[trigger] counts_raw@[i],
                    )
            },
            Err(CountsError::TooFewCounts { index }) => {
                &&& index < counts_raw@.len()
                &&& counts_raw@[index as int].1@.len() < n_ageclasses
                &&& forall|i: int|
                    0 <= i < index ==> entry_usable(
                        views(names@),
                        n_states as nat,
                        n_ageclasses as nat,
                        #[trigger] counts_raw@[i],
                    )
            },
            Err(CountsError::TooLarge { index }) => {
                &&& index < counts_raw@.len()
                &&& entries_total(counts_raw@.take(index + 1), n_ageclasses as nat) > usize::MAX
                &&& forall|i: int|
                    0 <= i <= index ==> entry_usable(
                        views(names@),
                        n_states as nat,
                        n_ageclasses as nat,
                        #[trigger] counts_raw@[i],
                    )
            },
        },
{
    let ghost all = views(names@);
    let ghost width = n_ageclasses as nat;
    let mut counts = Counts::new(n_states, n_ageclasses);
    let mut i: usize = 0;
    while i < counts_raw.len()
        invariant
            i <= counts_raw@.len(),
            all == views(names@),
            width == n_ageclasses,
            counts.wf(),
            counts.n_states() == n_states,
            counts.n_ageclasses() == n_ageclasses,
            counts@ == tallied(all, n_states as nat, width, counts_raw@.take(i as int)),
            counts.spec_total() == entries_total(counts_raw@.take(i as int), width),
            forall|j: int|
                0 <= j < i ==> entry_usable(all, n_states as nat, width, #[trigger] counts_raw@[j]),
        decreases counts_raw@.len() - i,
    {
        let state_id = match lookup(names, &counts_raw[i].0) {
            Some(id) => id,
            None => {
                return Err(CountsError::UnknownState { index: i });
            },
        };
        proof {
            assert(first_at(all, counts_raw@[i as int].0@, state_id as int)) by {
                assert forall|h: int| 0 <= h < state_id implies #[trigger] all[h]
                    != counts_raw@[i as int].0@ by {
                    assert(names@[h]@ != counts_raw@[i as int].0@);
                }
            }
            let chosen = id_of(all, counts_raw@[i as int].0@);
            assert(first_at(all, counts_raw@[i as int].0@, chosen));
            assert(chosen == state_id);
        }
        if state_id >= n_states {
            return Err(CountsError::UnknownState { index: i });
        }
        if counts_raw[i].1.len() < n_ageclasses {
            proof {
                assert(!entry_usable(all, n_states as nat, width, counts_raw@[i as int]));
            }
            return Err(CountsError::TooFewCounts { index: i });
        }
        let ghost m0 = counts@;
        let ghost row = counts_raw@[i as int].1@;
        let ghost t0 = counts.spec_total();
        proof {
            counts.lemma_wf();
            assert(row.take(0) =~= Seq::<usize>::empty());
            assert(m0[state_id as int].len() == width);
            assert(m0[state_id as int] =~= Seq::new(width, |c: int| m0[state_id as int][c]));
            assert(m0[state_id as int] =~= Seq::new(
                width,
                |c: int|
                    if c < 0 {
                        (m0[state_id as int][c] + row[c]) as usize
                    } else {
                        m0[state_id as int][c]
                    },
            ));
            assert(m0 =~= m0.update(state_id as int, m0[state_id as int]));
            assert(entry_usable(all, n_states as nat, width, counts_raw@[i as int]));
        }
        let mut a: usize = 0;
        while a < n_ageclasses
            invariant
                a <= n_ageclasses,
                i < counts_raw@.len(),
                all == views(names@),
                width == n_ageclasses,
                state_id < n_states,
                row == counts_raw@[i as int].1@,
                row.len() >= n_ageclasses,
                counts.wf(),
                counts.n_states() == n_states,
                counts.n_ageclasses() == n_ageclasses,
                m0.len() == n_states,
                m0[state_id as int].len() == width,
                t0 == entries_total(counts_raw@.take(i as int), width),
                forall|j: int|
                    0 <= j < i ==> entry_usable(
                        all,
                        n_states as nat,
                        width,
                        #[trigger] counts_raw@[j],
                    ),
                entry_usable(all, n_states as nat, width, counts_raw@[i as int]),
                counts.spec_total() == t0 + sum(row.take(a as int)),
                counts@ == m0.update(
                    state_id as int,
                    Seq::new(
                        width,
                        |c: int|
                            if c < a {
                                (m0[state_id as int][c] + row[c]) as usize
                            } else {
                                m0[state_id as int][c]
                            },
                    ),
                ),
            decreases n_ageclasses - a,
        {
            let amount = counts_raw[i].1[a];
            proof {
                assert(row.take(a + 1).drop_last() =~= row.take(a as int));
            }
            if amount > usize::MAX - counts.total() {
                proof {
                    lemma_sum_take_monotone(row, a + 1, width as int);
                    assert(counts_raw@.take(i + 1).drop_last() =~= counts_raw@.take(i as int));
                    assert(counts_raw@.take(i + 1).last() == counts_raw@[i as int]);
                    assert(sum(row.take(a + 1)) == sum(row.take(a as int)) + amount);
                    let upto = counts_raw@.take(i + 1);
                    assert(entries_total(upto, width) == entries_total(upto.drop_last(), width)
                        + sum(upto.last().1@.take(width as int)));
                    assert(entries_total(upto, width) > usize::MAX);
                    lemma_entries_total_monotone(counts_raw@, width, i + 1);
                }
                return Err(CountsError::TooLarge { index: i });
            }
            let ghost cur = counts@;
            proof {
                counts.lemma_wf();
                crate::sums::lemma_sum_bounds_entry(cur[state_id as int], a as int);
                crate::sums::lemma_grand_sum_bounds_row(cur, state_id as int);
            }
            counts.increment(state_id, a, amount);
            proof {
                let target = Seq::new(
                    width,
                    |c: int|
                        if c < a + 1 {
                            (m0[state_id as int][c] + row[c]) as usize
                        } else {
                            m0[state_id as int][c]
                        },
                );
                assert(counts@[state_id as int] =~= target);
                assert(counts@ =~= m0.update(
                    state_id as int,
                    Seq::new(
                        width,
                        |c: int|
                            if c < a + 1 {
                                (m0[state_id as int][c] + row[c]) as usize
                            } else {
                                m0[state_id as int][c]
                            },
                    ),
                ));
            }
            a += 1;
        }
        proof {
            assert(counts_raw@.take(i + 1).drop_last() =~= counts_raw@.take(i as int));
            assert(row.take(width as int) == counts_raw@.take(i + 1).last().1@.take(width as int));
            assert(counts@[state_id as int] =~= Seq::new(
                m0[state_id as int].len(),
                |c: int| (m0[state_id as int][c] + row[c]) as usize,
            ));
            assert(counts@ =~= add_row(m0, state_id as int, row));
        }
        i += 1;
    }
    proof {
        assert(counts_raw@.take(i as int) =~= counts_raw@);
        counts.lemma_wf();
    }
    Ok(counts)
}

} // verus!

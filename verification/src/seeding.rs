//! Setting a run up: the initial tally and the seeded individuals.

use crate::config::startable;
use crate::counts::Counts;
use crate::model::{cell, infectious_sum, lemma_infectious_sum_with_entry, Individual};
use crate::queue::EventQueue;
use crate::simulation::{id_limit, Observation, Phase, Simulation};
use crate::state::{catalog_wf, State};
use crate::sums::{grand_sum, rectangular, sum, with_entry, zeros};
use crate::time::{all_finite, INFINITY};
use crate::vecset::VecSet;
use rand_xoshiro::Xoshiro256PlusPlus;
use std::collections::BTreeMap;
use vstd::prelude::*;

verus! {

/// One list of sojourn ends per state and age class; for an infected state,
/// as many as the initial tally counts there, each a finite time.
pub open spec fn sojourns_fit(
    states: Seq<State>,
    n_ageclasses: nat,
    initial: Seq<Seq<usize>>,
    sojourns: Seq<Vec<Vec<u64>>>,
) -> bool {
    &&& sojourns.len() == states.len()
    &&& forall|s: int|
        0 <= s < states.len() && states[s].spec_is_infected() ==> (#[trigger] sojourns[s])@.len()
            == n_ageclasses
    &&& forall|s: int, a: int|
        0 <= s < states.len() && 0 <= a < n_ageclasses && states[s].spec_is_infected() ==> (
        #[trigger] sojourns[s]@[a])@.len() == initial[s][a] && all_finite(sojourns[s]@[a]@)
}

/// The number of individuals seeded for the states before state `s`.
pub open spec fn seeded_rows(states: Seq<State>, initial: Seq<Seq<usize>>, s: int) -> int
    decreases s,
{
    if s <= 0 {
        0
    } else {
        seeded_rows(states, initial, s - 1) + if states[s - 1].spec_is_infected() {
            sum(initial[s - 1])
        } else {
            0
        }
    }
}

/// The number of individuals seeded before those of state `s` and age class
/// `a`: seeding goes state by state and within a state by age class.
pub open spec fn seeded_before(
    states: Seq<State>,
    initial: Seq<Seq<usize>>,
    s: int,
    a: int,
) -> int {
    seeded_rows(states, initial, s) + if states[s].spec_is_infected() {
        sum(initial[s].take(a))
    } else {
        0
    }
}

/// `who` is a seeded individual: it has no time of infection, its state is
/// infected, its id is the next after those seeded before it, and its
/// transition is queued for the sojourn end handed in for it.
pub open spec fn seeded_as(
    states: Seq<State>,
    initial: Seq<Seq<usize>>,
    sojourns: Seq<Vec<Vec<u64>>>,
    who: Individual,
    when: u64,
) -> bool {
    let s = who.state_id as int;
    let a = who.ageclass as int;
    let k = who.id - 1 - seeded_before(states, initial, s, a);
    &&& who.t_infected is None
    &&& states[s].spec_is_infected()
    &&& 0 <= k < initial[s][a]
    &&& when == sojourns[s]@[a]@[k]
}

/// Entry `(r, c)` of the tally while it is being filled in row order, when
/// the filling stands at row `s`, column `a`, with `k` counted there so far.
pub open spec fn progress(initial: Seq<Seq<usize>>, s: int, a: int, k: int, r: int, c: int) -> int {
    if r < s || (r == s && c < a) {
        initial[r][c] as int
    } else if r == s && c == a {
        k
    } else {
        0
    }
}

impl Simulation {
    /// What seeding has made of the engine so far: the live individuals are
    /// those with the ids given out; each is as `seeded_as` says; every roster
    /// lists its individuals by rising id; and, if every event is recorded,
    /// one individual was reported for each id, in order.
    pub open spec fn seeded(
        &self,
        initial: Seq<Seq<usize>>,
        sojourns: Seq<Vec<Vec<u64>>>,
        observations: Seq<Observation>,
        record_all_events: bool,
    ) -> bool {
        &&& forall|id: usize| #[trigger]
            self.population().contains_key(id) <==> 1 <= id < self.spec_next_id()
        &&& forall|id: usize| #[trigger]
            self.population().contains_key(id) ==> seeded_as(
                self.catalog(),
                initial,
                sojourns,
                self.population()[id],
                self.schedule()[id],
            )
        &&& forall|a: int, i: int, j: int|
            0 <= a < self.spec_n_ageclasses() && 0 <= i < j < self.roster(a).len()
                ==> #[trigger] self.roster(a)[i] < #[trigger] self.roster(a)[j]
        &&& observations == if record_all_events {
            Seq::new(
                (self.spec_next_id() - 1) as nat,
                |i: int|
                    Observation::Individual {
                        time: 0,
                        id: (i + 1) as i64,
                        ageclass: self.population()[(i + 1) as usize].ageclass as i64,
                        state_id: self.population()[(i + 1) as usize].state_id,
                    },
            )
        } else {
            Seq::<Observation>::empty()
        }
    }

    /// An engine at time zero with nobody in it: the tally is zero, the
    /// rosters and the calendar are empty, and no contact is pending.
    fn empty(
        n_ageclasses: usize,
        states: Vec<State>,
        susceptible_state_id: usize,
        initial_infected_state_id: usize,
        t_change: Vec<u64>,
        n_strata: usize,
        rng: Xoshiro256PlusPlus,
    ) -> (sim: Self)
        requires
            catalog_wf(
                states@,
                n_ageclasses as nat,
                susceptible_state_id as int,
                initial_infected_state_id as int,
            ),
            n_ageclasses < i64::MAX,
            t_change@.len() + 1 == n_strata,
        ensures
            sim.wf(),
            sim.spec_n_ageclasses() == n_ageclasses,
            sim.catalog() == states@,
            sim.spec_susceptible_state_id() == susceptible_state_id,
            sim.spec_initial_infected_state_id() == initial_infected_state_id,
            sim.changepoints() == t_change@,
            sim.spec_n_strata() == n_strata,
            sim.clock() == 0,
            sim.stratum() == 0,
            sim.spec_phase() == Phase::ContactTimes,
            !sim.check_owed(),
            sim.generator() == rng,
            sim.spec_next_id() == 1,
            sim.tally() == zeros(states@.len(), n_ageclasses as nat),
            sim.total() == 0,
            sim.population() == Map::<usize, Individual>::empty(),
            sim.calendar() == Set::<(u64, usize)>::empty(),
            sim.schedule() == Map::<usize, u64>::empty(),
            sim.contact_times() == Seq::new(n_ageclasses as nat, |a: int| INFINITY),
            forall|a: int|
                0 <= a < n_ageclasses ==> #[trigger] sim.roster(a) == Seq::<usize>::empty(),
    {
        let n_states = states.len();
        let mut infectious_individuals: Vec<VecSet<usize>> = Vec::new();
        let mut t_contact: Vec<u64> = Vec::new();
        let mut a: usize = 0;
        while a < n_ageclasses
            invariant
                a <= n_ageclasses,
                infectious_individuals@.len() == a,
                t_contact@.len() == a,
                forall|i: int|
                    0 <= i < a ==> (#[trigger] infectious_individuals@[i]).wf()
                        && infectious_individuals@[i]@ == Seq::<usize>::empty(),
                forall|i: int| 0 <= i < a ==> t_contact@[i] == INFINITY,
            decreases n_ageclasses - a,
        {
            infectious_individuals.push(VecSet::new());
            t_contact.push(INFINITY);
            a += 1;
        }
        let sim = Self {
            n_ageclasses,
            states,
            susceptible_state_id,
            initial_infected_state_id,
            t_change,
            n_strata,
            intervention_index: 0,
            counts: Counts::new(n_states, n_ageclasses),
            t: 0,
            next_id: 1,
            individuals: BTreeMap::new(),
            infectious_individuals,
            t_contact,
            event_queue: EventQueue::new(),
            scheduled: Ghost(Map::empty()),
            phase: Phase::ContactTimes,
            check_due: false,
            rng,
        };
        proof {
            let m = sim.counts@;
            sim.counts.lemma_wf();
            crate::sums::lemma_zeros(n_states as nat, n_ageclasses as nat);
            assert(sim.shape_wf());
            assert forall|i: int| 0 <= i < n_ageclasses implies (
            #[trigger] sim.infectious_individuals@[i])@.len() == infectious_sum(
                m,
                sim.states@,
                i,
            ) by {
                crate::model::lemma_infectious_sum_zeros(m, sim.states@, i);
            }
            assert(sim.roster_wf());
            assert forall|s: int, i: int|
                0 <= s < sim.states@.len() && 0 <= i < n_ageclasses implies m[s][i] == (
            #[trigger] cell(sim.individuals@, s, i)).len() by {
                assert(cell(sim.individuals@, s, i) =~= Set::empty());
            }
            assert(sim.tally_wf());
            assert(sim.contact_times() =~= Seq::new(n_ageclasses as nat, |a: int| INFINITY));
        }
        sim
    }

    /// Installs the initial count of a state whose individuals are not tracked.
    fn install_count(&mut self, state_id: usize, ageclass: usize, amount: usize)
        requires
            old(self).wf(),
            ageclass < old(self).spec_n_ageclasses(),
            state_id < old(self).catalog().len(),
            !old(self).catalog()[state_id as int].spec_is_infected(),
            old(self).total() + amount < id_limit(),
        ensures
            final(self).wf(),
            final(self).same_setup(old(self)),
            final(self).spec_next_id() == old(self).spec_next_id(),
            final(self).clock() == old(self).clock(),
            final(self).spec_phase() == old(self).spec_phase(),
            final(self).stratum() == old(self).stratum(),
            final(self).check_owed() == old(self).check_owed(),
            final(self).generator() == old(self).generator(),
            final(self).contact_times() == old(self).contact_times(),
            final(self).population() == old(self).population(),
            forall|a: int|
                0 <= a < old(self).spec_n_ageclasses() ==> #[trigger] final(self).roster(a) == old(
                    self,
                ).roster(a),
            final(self).calendar() == old(self).calendar(),
            final(self).schedule() == old(self).schedule(),
            final(self).tally() == with_entry(
                old(self).tally(),
                state_id as int,
                ageclass as int,
                (old(self).tally()[state_id as int][ageclass as int] + amount) as usize,
            ),
            final(self).total() == old(self).total() + amount,
    {
        let ghost before = *self;
        let ghost m = self.counts@;
        let ghost width = self.n_ageclasses as nat;
        let ghost si = state_id as int;
        let ghost age_i = ageclass as int;
        proof {
            self.counts.lemma_wf();
        }
        self.counts.increment(state_id, ageclass, amount);
        proof {
            let v = (m[si][age_i] + amount) as usize;
            crate::counts::lemma_entry_effects(m, width, si, age_i, v);
            self.counts.lemma_wf();
            assert forall|a: int| 0 <= a < width implies infectious_sum(
                self.counts@,
                self.states@,
                a,
            ) == infectious_sum(m, self.states@, a) by {
                lemma_infectious_sum_with_entry(m, self.states@, si, age_i, v, a);
            }
            assert forall|a: int| 0 <= a < self.n_ageclasses implies (
            #[trigger] self.infectious_individuals@[a])@.len() == infectious_sum(
                self.counts@,
                self.states@,
                a,
            ) by {
                assert(before.infectious_individuals@[a]@.len() == infectious_sum(
                    m,
                    self.states@,
                    a,
                ));
            }
            assert(self.roster_wf());
            assert forall|s: int, a: int|
                0 <= s < self.states@.len() && 0 <= a < width
                    && self.states@[s].spec_is_infected() implies self.counts@[s][a] == (
            #[trigger] cell(self.individuals@, s, a)).len() by {
                assert(before.counts@[s][a] == cell(before.individuals@, s, a).len());
            }
            assert(self.tally_wf());
            assert(self.calendar_wf());
            assert(self.shape_wf());
        }
    }

    /// Fills an empty engine from the initial tally. The counts of the
    /// susceptible and the final states are installed as they are; for each
    /// infected state and age class, that many individuals are created, in
    /// order, the `k`-th with its transition queued for
    /// `sojourns[state][ageclass][k]`.
    fn initialize_individuals(
        &mut self,
        initial_counts: &Counts,
        sojourns: &Vec<Vec<Vec<u64>>>,
        record_all_events: bool,
    ) -> (observations: Vec<Observation>)
        requires
            old(self).wf(),
            old(self).clock() == 0,
            old(self).tally() == zeros(old(self).catalog().len(), old(self).spec_n_ageclasses()),
            old(self).total() == 0,
            old(self).spec_next_id() == 1,
            old(self).spec_phase() == Phase::ContactTimes,
            old(self).population() == Map::<usize, Individual>::empty(),
            forall|a: int|
                0 <= a < old(self).spec_n_ageclasses() ==> #[trigger] old(self).roster(a)
                    == Seq::<usize>::empty(),
            initial_counts.wf(),
            initial_counts.n_states() == old(self).catalog().len(),
            initial_counts.n_ageclasses() == old(self).spec_n_ageclasses(),
            initial_counts.spec_total() < id_limit(),
            sojourns_fit(
                old(self).catalog(),
                old(self).spec_n_ageclasses(),
                initial_counts@,
                sojourns@,
            ),
        ensures
            final(self).wf(),
            final(self).same_setup(old(self)),
            final(self).clock() == old(self).clock(),
            final(self).spec_phase() == old(self).spec_phase(),
            final(self).stratum() == old(self).stratum(),
            final(self).check_owed() == old(self).check_owed(),
            final(self).generator() == old(self).generator(),
            final(self).contact_times() == old(self).contact_times(),
            final(self).tally() == initial_counts@,
            final(self).total() == initial_counts.spec_total(),
            final(self).spec_next_id() == 1 + seeded_rows(
                old(self).catalog(),
                initial_counts@,
                old(self).catalog().len() as int,
            ),
            final(self).seeded(initial_counts@, sojourns@, observations@, record_all_events),
    {
        let ghost init = initial_counts@;
        let ghost width = self.n_ageclasses as nat;
        let mut observations: Vec<Observation> = Vec::new();
        let n_states = self.states.len();
        proof {
            initial_counts.lemma_wf();
            self.counts.lemma_wf();
            assert(observations@ =~= Seq::new(
                0,
                |i: int|
                    Observation::Individual {
                        time: 0,
                        id: (i + 1) as i64,
                        ageclass: self.population()[(i + 1) as usize].ageclass as i64,
                        state_id: self.population()[(i + 1) as usize].state_id,
                    },
            ));
            assert(init[0].take(0) =~= Seq::<usize>::empty());
        }
        let mut s: usize = 0;
        while s < n_states
            invariant
                s <= n_states,
                n_states == self.states@.len(),
                width == self.n_ageclasses,
                self.wf(),
                self.same_setup(old(self)),
                self.t == 0,
                self.phase == Phase::ContactTimes,
                self.intervention_index == old(self).intervention_index,
                self.check_due == old(self).check_due,
                self.rng == old(self).rng,
                self.t_contact@ == old(self).t_contact@,
                initial_counts.wf(),
                initial_counts.n_states() == n_states,
                initial_counts.n_ageclasses() == width,
                init == initial_counts@,
                init.len() == n_states,
                rectangular(init, width),
                grand_sum(init) < id_limit(),
                sojourns_fit(self.states@, width, init, sojourns@),
                forall|r: int, c: int|
                    0 <= r < n_states && 0 <= c < width ==> (#[trigger] self.counts@[r][c])
                        == progress(init, s as int, 0, 0, r, c),
                self.next_id == 1 + seeded_rows(self.states@, init, s as int),
                self.seeded(init, sojourns@, observations@, record_all_events),
            decreases n_states - s,
        {
            let tracked_state = self.states[s].is_infected();
            let mut a: usize = 0;
            proof {
                assert(init[s as int].take(0) =~= Seq::<usize>::empty());
            }
            while a < self.n_ageclasses
                invariant
                    s < n_states,
                    a <= self.n_ageclasses,
                    n_states == self.states@.len(),
                    width == self.n_ageclasses,
                    tracked_state == self.states@[s as int].spec_is_infected(),
                    self.wf(),
                    self.same_setup(old(self)),
                    self.t == 0,
                    self.phase == Phase::ContactTimes,
                    self.intervention_index == old(self).intervention_index,
                    self.check_due == old(self).check_due,
                    self.rng == old(self).rng,
                    self.t_contact@ == old(self).t_contact@,
                    initial_counts.wf(),
                    initial_counts.n_states() == n_states,
                    initial_counts.n_ageclasses() == width,
                    init == initial_counts@,
                    init.len() == n_states,
                    rectangular(init, width),
                    grand_sum(init) < id_limit(),
                    sojourns_fit(self.states@, width, init, sojourns@),
                    forall|r: int, c: int|
                        0 <= r < n_states && 0 <= c < width ==> (#[trigger] self.counts@[r][c])
                            == progress(init, s as int, a as int, 0, r, c),
                    self.next_id == 1 + seeded_before(self.states@, init, s as int, a as int),
                    self.seeded(init, sojourns@, observations@, record_all_events),
                decreases self.n_ageclasses - a,
            {
                let amount = initial_counts.get(s, a);
                if tracked_state {
                    let mut k: usize = 0;
                    while k < amount
                        invariant
                            s < n_states,
                            a < self.n_ageclasses,
                            k <= amount,
                            amount == init[s as int][a as int],
                            n_states == self.states@.len(),
                            width == self.n_ageclasses,
                            self.states@[s as int].spec_is_infected(),
                            self.wf(),
                            self.same_setup(old(self)),
                            self.t == 0,
                            self.phase == Phase::ContactTimes,
                            self.intervention_index == old(self).intervention_index,
                            self.check_due == old(self).check_due,
                            self.rng == old(self).rng,
                            self.t_contact@ == old(self).t_contact@,
                            init.len() == n_states,
                            rectangular(init, width),
                            grand_sum(init) < id_limit(),
                            sojourns_fit(self.states@, width, init, sojourns@),
                            forall|r: int, c: int|
                                0 <= r < n_states && 0 <= c < width ==> (
                                #[trigger] self.counts@[r][c]) == progress(
                                    init,
                                    s as int,
                                    a as int,
                                    k as int,
                                    r,
                                    c,
                                ),
                            self.next_id == 1 + seeded_before(
                                self.states@,
                                init,
                                s as int,
                                a as int,
                            ) + k,
                            self.seeded(init, sojourns@, observations@, record_all_events),
                        decreases amount - k,
                    {
                        proof {
                            self.lemma_headroom(init, s as int, a as int, 1);
                            assert(sojourns@[s as int]@[a as int]@.len()
                                == init[s as int][a as int]);
                        }
                        let sojourn_end = sojourns[s][a][k];
                        let ghost m = self.counts@;
                        let ghost before = *self;
                        let ghost reported = observations@;
                        proof {
                            self.counts.lemma_wf();
                        }
                        let id = self.add_individual(
                            a,
                            s,
                            true,
                            sojourn_end,
                            record_all_events,
                            &mut observations,
                        );
                        k += 1;
                        proof {
                            assert forall|r: int, c: int|
                                0 <= r < n_states && 0 <= c < width implies (
                            #[trigger] self.counts@[r][c]) == progress(
                                init,
                                s as int,
                                a as int,
                                k as int,
                                r,
                                c,
                            ) by {
                                assert(m[r][c] == progress(init, s as int, a as int, k - 1, r, c));
                                assert(m[r].len() == width);
                            }
                            before.lemma_seeding_step(
                                self,
                                init,
                                sojourns@,
                                reported,
                                observations@,
                                record_all_events,
                                a,
                                s,
                                sojourn_end,
                                k - 1,
                            );
                        }
                    }
                } else {
                    proof {
                        self.lemma_headroom(init, s as int, a as int, amount as int);
                    }
                    let ghost m = self.counts@;
                    proof {
                        self.counts.lemma_wf();
                    }
                    self.install_count(s, a, amount);
                    proof {
                        assert forall|r: int, c: int|
                            0 <= r < n_states && 0 <= c < width implies (
                        #[trigger] self.counts@[r][c]) == progress(
                            init,
                            s as int,
                            a as int,
                            amount as int,
                            r,
                            c,
                        ) by {
                            assert(m[r][c] == progress(init, s as int, a as int, 0, r, c));
                            assert(m[r].len() == width);
                        }
                    }
                }
                proof {
                    assert forall|r: int, c: int|
                        0 <= r < n_states && 0 <= c < width implies (
                    #[trigger] self.counts@[r][c]) == progress(
                        init,
                        s as int,
                        a + 1,
                        0,
                        r,
                        c,
                    ) by {
                        assert(self.counts@[r][c] == progress(
                            init,
                            s as int,
                            a as int,
                            amount as int,
                            r,
                            c,
                        ));
                    }
                    assert(init[s as int].take(a + 1).drop_last() =~= init[s as int].take(
                        a as int,
                    ));
                }
                a += 1;
            }
            proof {
                assert forall|r: int, c: int|
                    0 <= r < n_states && 0 <= c < width implies (#[trigger] self.counts@[r][c])
                    == progress(init, s + 1, 0, 0, r, c) by {
                    assert(self.counts@[r][c] == progress(init, s as int, width as int, 0, r, c));
                }
                assert(init[s as int].take(width as int) =~= init[s as int]);
            }
            s += 1;
        }
        proof {
            self.counts.lemma_wf();
            assert forall|r: int| 0 <= r < n_states implies self.counts@[r] =~= init[r] by {
                assert forall|c: int| 0 <= c < width implies self.counts@[r][c] == init[r][c] by {
                    assert(self.counts@[r][c] == progress(init, n_states as int, 0, 0, r, c));
                }
            }
            assert(self.counts@ =~= init);
        }
        observations
    }

    /// Seeding one more individual keeps `seeded`.
    proof fn lemma_seeding_step(
        &self,
        after: &Self,
        initial: Seq<Seq<usize>>,
        sojourns: Seq<Vec<Vec<u64>>>,
        reported: Seq<Observation>,
        reported_after: Seq<Observation>,
        record_all_events: bool,
        ageclass: usize,
        state_id: usize,
        sojourn_end: u64,
        k: int,
    )
        requires
            self.wf(),
            after.wf(),
            self.clock() == 0,
            self.seeded(initial, sojourns, reported, record_all_events),
            ageclass < self.spec_n_ageclasses(),
            state_id < self.catalog().len(),
            self.catalog()[state_id as int].spec_is_infected(),
            0 <= k < initial[state_id as int][ageclass as int],
            sojourn_end == sojourns[state_id as int]@[ageclass as int]@[k],
            self.spec_next_id() == 1 + seeded_before(
                self.catalog(),
                initial,
                state_id as int,
                ageclass as int,
            ) + k,
            after.same_setup(self),
            after.spec_next_id() == self.spec_next_id() + 1,
            self.spec_next_id() <= i64::MAX,
            after.population() == self.population().insert(
                self.spec_next_id() as usize,
                self.newcomer(ageclass, state_id, true),
            ),
            forall|a: int|
                0 <= a < self.spec_n_ageclasses() ==> #[trigger] after.roster(a) == if a
                    == ageclass && self.catalog()[state_id as int].spec_is_infectious() {
                    self.roster(a).push(self.spec_next_id() as usize)
                } else {
                    self.roster(a)
                },
            after.schedule() == self.schedule().insert(self.spec_next_id() as usize, sojourn_end),
            reported_after == if record_all_events {
                reported.push(
                    Observation::Individual {
                        time: self.clock(),
                        id: self.spec_next_id() as i64,
                        ageclass: ageclass as i64,
                        state_id,
                    },
                )
            } else {
                reported
            },
        ensures
            after.seeded(initial, sojourns, reported_after, record_all_events),
    {
        let id = self.spec_next_id() as usize;
        self.lemma_rosters();
        self.lemma_population();
        assert forall|a: int, i: int, j: int|
            0 <= a < after.spec_n_ageclasses() && 0 <= i < j < after.roster(a).len() implies 
            #[trigger] after.roster(a)[i] < #[trigger] after.roster(a)[j] by {
            assert(after.roster(a) == if a == ageclass
                && self.catalog()[state_id as int].spec_is_infectious() {
                self.roster(a).push(id)
            } else {
                self.roster(a)
            });
            if i < self.roster(a).len() {
                assert(self.roster(a).contains(self.roster(a)[i]));
            }
            if j < self.roster(a).len() {
                assert(self.roster(a)[i] < self.roster(a)[j]);
            }
        }
        if record_all_events {
            assert(reported_after =~= Seq::new(
                (after.spec_next_id() - 1) as nat,
                |i: int|
                    Observation::Individual {
                        time: 0,
                        id: (i + 1) as i64,
                        ageclass: after.population()[(i + 1) as usize].ageclass as i64,
                        state_id: after.population()[(i + 1) as usize].state_id,
                    },
            ));
        }
    }

    /// While the tally is being filled, adding up to what the initial tally
    /// holds at `(s, a)` stays within the initial total.
    proof fn lemma_headroom(&self, init: Seq<Seq<usize>>, s: int, a: int, amount: int)
        requires
            self.wf(),
            init.len() == self.states@.len(),
            rectangular(init, self.n_ageclasses as nat),
            0 <= s < init.len(),
            0 <= a < self.n_ageclasses,
            0 <= amount,
            self.counts@[s][a] + amount <= init[s][a],
            forall|r: int, c: int|
                0 <= r < init.len() && 0 <= c < self.n_ageclasses && !(r == s && c == a) ==> (
                #[trigger] self.counts@[r][c]) <= init[r][c],
        ensures
            self.counts.spec_total() + amount <= grand_sum(init),
    {
        let m = self.counts@;
        let width = self.n_ageclasses as nat;
        self.counts.lemma_wf();
        let v = (m[s][a] + amount) as usize;
        let raised = with_entry(m, s, a, v);
        crate::counts::lemma_entry_effects(m, width, s, a, v);
        assert forall|r: int, c: int| 0 <= r < raised.len() && 0 <= c < width implies raised[r][c]
            <= init[r][c] by {
            if r == s && c == a {
            } else {
                assert(m[r][c] <= init[r][c]);
                if r == s {
                } else {
                    assert(raised[r] == m[r]);
                }
            }
        }
        crate::sums::lemma_grand_sum_monotone(raised, init, width);
    }

    /// Sets up a run at time zero: installs the initial tally, creates the
    /// seeded individuals, takes over the pseudorandom stream `rng` and leaves
    /// the engine waiting for the first next-contact times. Returns the
    /// engine and what it observed while seeding.
    pub fn new(
        n_ageclasses: usize,
        states: Vec<State>,
        susceptible_state_id: usize,
        initial_infected_state_id: usize,
        t_change: Vec<u64>,
        n_strata: usize,
        initial_counts: &Counts,
        rng: Xoshiro256PlusPlus,
        sojourns: &Vec<Vec<Vec<u64>>>,
        record_all_events: bool,
    ) -> (r: (Self, Vec<Observation>))
        requires
            initial_counts.wf(),
            startable(
                n_ageclasses,
                states@,
                susceptible_state_id,
                initial_infected_state_id,
                t_change@,
                n_strata,
                initial_counts,
                sojourns@,
            ),
        ensures
            r.0.wf(),
            r.0.spec_n_ageclasses() == n_ageclasses,
            r.0.catalog() == states@,
            r.0.spec_susceptible_state_id() == susceptible_state_id,
            r.0.spec_initial_infected_state_id() == initial_infected_state_id,
            r.0.changepoints() == t_change@,
            r.0.spec_n_strata() == n_strata,
            r.0.clock() == 0,
            r.0.stratum() == 0,
            r.0.spec_phase() == Phase::ContactTimes,
            !r.0.check_owed(),
            r.0.generator() == rng,
            r.0.tally() == initial_counts@,
            r.0.total() == initial_counts.spec_total(),
            r.0.contact_times() == Seq::new(n_ageclasses as nat, |a: int| INFINITY),
            r.0.spec_next_id() == 1 + seeded_rows(states@, initial_counts@, states@.len() as int),
            r.0.seeded(initial_counts@, sojourns@, r.1@, record_all_events),
    {
        let mut sim = Self::empty(
            n_ageclasses,
            states,
            susceptible_state_id,
            initial_infected_state_id,
            t_change,
            n_strata,
            rng,
        );
        let observations = sim.initialize_individuals(initial_counts, sojourns, record_all_events);
        (sim, observations)
    }
}

} // verus!

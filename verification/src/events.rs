//! Applying events: a contact makes a new individual, a transition moves one on.

use crate::categorical::{categorical, draw_categorical};
use crate::convert::to_i64;
use crate::counts::moved;
use crate::model::{
    cell, infectious_sum, lemma_cell_insert, lemma_cell_member, lemma_cell_remove,
    lemma_cell_update, lemma_infectious_sum_with_entry, Individual,
};
use crate::rng::uniform_below;
use crate::simulation::{id_limit, Observation, Phase, Simulation};
use crate::state::StateDetail;
use crate::sums::with_entry;
use crate::time::INFINITY;
use crate::vecset::swap_removed;
use vstd::prelude::*;

verus! {

/// Appending `x` adds `x` to what a sequence contains, and nothing else.
pub proof fn lemma_push_contains<T>(s: Seq<T>, x: T)
    ensures
        forall|y: T| s.push(x).contains(y) <==> s.contains(y) || y == x,
{
    assert forall|y: T| s.push(x).contains(y) <==> s.contains(y) || y == x by {
        if s.contains(y) {
            let i = choose|i: int| 0 <= i < s.len() && s[i] == y;
            assert(s.push(x)[i] == y);
        }
        if y == x {
            assert(s.push(x)[s.len() as int] == y);
        }
        if s.push(x).contains(y) {
            let i = choose|i: int| 0 <= i < s.push(x).len() && s.push(x)[i] == y;
            if i < s.len() {
                assert(s[i] == y);
            }
        }
    }
}

impl Simulation {
    /// The individual that `add_individual` creates.
    pub open spec fn newcomer(
        &self,
        ageclass: usize,
        state_id: usize,
        is_initial: bool,
    ) -> Individual {
        Individual {
            id: self.spec_next_id() as usize,
            ageclass,
            state_id,
            t_infected: if is_initial {
                None
            } else {
                Some(self.clock())
            },
        }
    }

    /// Creates an individual of `ageclass` in the infected state `state_id`,
    /// with its transition queued for `sojourn_end`. A seeded individual is
    /// added to the tally; any other leaves the susceptibles of its age class.
    /// The next-contact times stay as they are but are no longer fresh: the
    /// engine then waits for new ones.
    pub(crate) fn add_individual(
        &mut self,
        ageclass: usize,
        state_id: usize,
        is_initial: bool,
        sojourn_end: u64,
        record_all_events: bool,
        observations: &mut Vec<Observation>,
    ) -> (id: usize)
        requires
            old(self).wf(),
            ageclass < old(self).spec_n_ageclasses(),
            state_id < old(self).catalog().len(),
            old(self).catalog()[state_id as int].spec_is_infected(),
            old(self).clock() <= sojourn_end < INFINITY,
            is_initial ==> old(self).total() + 1 < id_limit(),
            !is_initial ==> old(self).susceptibles(ageclass as int) >= 1,
        ensures
            final(self).wf(),
            final(self).same_setup(old(self)),
            id == old(self).spec_next_id(),
            final(self).spec_next_id() == id + 1,
            final(self).clock() == old(self).clock(),
            final(self).spec_phase() == Phase::ContactTimes,
            final(self).stratum() == old(self).stratum(),
            final(self).check_owed() == old(self).check_owed(),
            final(self).generator() == old(self).generator(),
            final(self).contact_times() == old(self).contact_times(),
            final(self).population() == old(self).population().insert(
                id,
                old(self).newcomer(ageclass, state_id, is_initial),
            ),
            !old(self).population().contains_key(id),
            forall|a: int|
                0 <= a < old(self).spec_n_ageclasses() ==> #[trigger] final(self).roster(a) == if a
                    == ageclass && old(self).catalog()[state_id as int].spec_is_infectious() {
                    old(self).roster(a).push(id)
                } else {
                    old(self).roster(a)
                },
            final(self).calendar() == old(self).calendar().insert((sojourn_end, id)),
            final(self).schedule() == old(self).schedule().insert(id, sojourn_end),
            final(self).tally() == if is_initial {
                with_entry(
                    old(self).tally(),
                    state_id as int,
                    ageclass as int,
                    (old(self).tally()[state_id as int][ageclass as int] + 1) as usize,
                )
            } else {
                moved(
                    old(self).tally(),
                    old(self).spec_susceptible_state_id(),
                    state_id as int,
                    ageclass as int,
                )
            },
            final(self).total() == old(self).total() + if is_initial {
                1int
            } else {
                0int
            },
            forall|a: int|
                #![trigger final(self).total_for_ageclass(a)]
                0 <= a < old(self).spec_n_ageclasses() ==> final(self).total_for_ageclass(a) == old(
                    self,
                ).total_for_ageclass(a) + if is_initial && a == ageclass {
                    1int
                } else {
                    0int
                },
            final(observations)@ == if record_all_events {
                old(observations)@.push(
                    Observation::Individual {
                        time: old(self).clock(),
                        id: id as i64,
                        ageclass: ageclass as i64,
                        state_id,
                    },
                )
            } else {
                old(observations)@
            },
            id <= i64::MAX,
    {
        let ghost before = *self;
        let ghost m = self.counts@;
        let ghost people = self.individuals@;
        let ghost sus = self.susceptible_state_id as int;
        let ghost width = self.n_ageclasses as nat;
        let ghost si = state_id as int;
        let ghost age_i = ageclass as int;
        proof {
            self.counts.lemma_wf();
            crate::sums::lemma_sum_nonnegative(m[sus]);
            assert(0 <= sus < self.states@.len());
            assert(self.counts.spec_total_for_state(sus) == crate::sums::sum(m[sus]));
            assert(self.counts.spec_total() < id_limit());
            if !is_initial {
                assert(m[sus].len() == width);
                crate::sums::lemma_sum_bounds_entry(m[sus], age_i);
            }
        }
        self.phase = Phase::ContactTimes;
        let id = self.next_id;
        self.next_id += 1;

        let individual = Individual::new(
            id,
            ageclass,
            state_id,
            if is_initial {
                None
            } else {
                Some(self.t)
            },
        );
        assert(!people.contains_key(id));
        self.individuals.insert(id, individual);

        if record_all_events {
            observations.push(
                Observation::Individual {
                    time: self.t,
                    id: to_i64(id),
                    ageclass: to_i64(ageclass),
                    state_id,
                },
            );
        }
        let infectious = self.states[state_id].is_infectious();
        if infectious {
            assert(!self.infectious_individuals@[age_i]@.contains(id));
            self.infectious_individuals[ageclass].add(id);
            proof {
                lemma_push_contains(before.infectious_individuals@[age_i]@, id);
            }
        }
        self.event_queue.insert(sojourn_end, id);
        proof {
            self.scheduled@ = self.scheduled@.insert(id, sojourn_end);
        }

        if is_initial {
            self.counts.increment(state_id, ageclass, 1);
            proof {
                let v = (m[si][age_i] + 1) as usize;
                crate::counts::lemma_entry_effects(m, width, si, age_i, v);
                self.counts.lemma_wf();
                assert forall|a: int| 0 <= a < width implies infectious_sum(
                    self.counts@,
                    self.states@,
                    a,
                ) == infectious_sum(m, self.states@, a) + if a == age_i && infectious {
                    1int
                } else {
                    0int
                } by {
                    lemma_infectious_sum_with_entry(m, self.states@, si, age_i, v, a);
                }
                assert forall|a: int| 0 <= a < width implies #[trigger] self.total_for_ageclass(a)
                    == before.total_for_ageclass(a) + if a == age_i {
                    1int
                } else {
                    0int
                } by {}
            }
        } else {
            self.counts.transition(self.susceptible_state_id, state_id, ageclass);
            proof {
                let v1 = (m[sus][age_i] - 1) as usize;
                let m1 = with_entry(m, sus, age_i, v1);
                let v2 = (m1[si][age_i] + 1) as usize;
                crate::counts::lemma_entry_effects(m, width, sus, age_i, v1);
                crate::counts::lemma_entry_effects(m1, width, si, age_i, v2);
                self.counts.lemma_wf();
                assert forall|a: int| 0 <= a < width implies infectious_sum(
                    self.counts@,
                    self.states@,
                    a,
                ) == infectious_sum(m, self.states@, a) + if a == age_i && infectious {
                    1int
                } else {
                    0int
                } by {
                    lemma_infectious_sum_with_entry(m, self.states@, sus, age_i, v1, a);
                    lemma_infectious_sum_with_entry(m1, self.states@, si, age_i, v2, a);
                }
            }
        }
        proof {
            assert forall|s: int, a: int|
                0 <= s < self.states@.len() && 0 <= a < width
                    && self.states@[s].spec_is_infected() implies self.counts@[s][a] == (
            #[trigger] cell(self.individuals@, s, a)).len() by {
                lemma_cell_insert(people, id, individual, s, a);
                assert(before.counts@[s][a] == cell(people, s, a).len());
            }
            assert(self.tally_wf());
            assert(self.population_wf());
            assert forall|a: int, x: usize| 0 <= a < self.n_ageclasses implies (
            #[trigger] self.infectious_individuals@[a]@.contains(x) <==> self.infectious_there(
                a,
                x,
            )) by {
                assert(before.infectious_individuals@[a]@.contains(x) <==> before.infectious_there(
                    a,
                    x,
                ));
            }
            assert forall|a: int| 0 <= a < self.n_ageclasses implies (
            #[trigger] self.infectious_individuals@[a])@.len() == infectious_sum(
                self.counts@,
                self.states@,
                a,
            ) by {
                assert(before.infectious_individuals@[a]@.len() == infectious_sum(
                    m,
                    self.states@,
                    a,
                ));
            }
            assert(self.roster_wf());
            assert(self.scheduled@.dom() =~= self.individuals@.dom());
            assert forall|e: (u64, usize)| #[trigger]
                self.event_queue@.contains(e) <==> self.scheduled@.contains_key(e.1)
                    && self.scheduled@[e.1] == e.0 by {
                if e.1 == id {
                    assert(!before.scheduled@.contains_key(id));
                    assert(before.event_queue@.contains(e) ==> before.scheduled@.contains_key(e.1));
                } else {
                    assert(before.event_queue@.contains(e) <==> before.scheduled@.contains_key(e.1)
                        && before.scheduled@[e.1] == e.0);
                }
            }
            assert(self.calendar_wf());
            assert(self.shape_wf());
        }
        id
    }

    /// Individuals transmit as soon as they are infected.
    pub open spec fn newly_infected_transmit(&self) -> bool {
        self.catalog()[self.spec_initial_infected_state_id()].spec_is_infectious()
    }

    /// The draw `u` under `cdf`, which has one entry per age class or one
    /// fewer, selects an age class that has someone to transmit.
    pub open spec fn can_transmit(&self, u: u64, cdf: Seq<u64>) -> bool {
        &&& self.spec_n_ageclasses() >= 1
        &&& cdf.len() == self.spec_n_ageclasses() || cdf.len() == self.spec_n_ageclasses() - 1
        &&& self.roster(categorical(u, self.spec_n_ageclasses() as int, cdf)).len() > 0
    }

    /// Chooses who transmits in the contact under way. The age class is the
    /// one that `transmitter_age` gives for the draw `u` under `cdf`, the
    /// cumulative distribution of the contacted age class's row. A slot of
    /// its roster is then drawn from the generator, each being equally
    /// likely, and `choose_transmitter` takes the individual in it. Nobody is
    /// chosen, nothing is drawn and nothing changes if there is no such age
    /// class.
    pub fn draw_transmitter(&mut self, u: u64, cdf: &Vec<u64>) -> (r: Option<usize>)
        requires
            old(self).wf(),
            old(self).spec_phase() is Contact,
        ensures
            final(self).wf(),
            final(self).same_setup(old(self)),
            final(self).same_people(old(self)),
            final(self).clock() == old(self).clock(),
            final(self).stratum() == old(self).stratum(),
            final(self).check_owed() == old(self).check_owed(),
            final(self).contact_times() == old(self).contact_times(),
            r is Some <==> old(self).can_transmit(u, cdf@),
            match r {
                Some(id) => {
                    &&& old(self).roster(
                        categorical(u, old(self).spec_n_ageclasses() as int, cdf@),
                    ).contains(id)
                    &&& final(self).spec_phase() == Phase::ContactChosen {
                        ageclass: old(self).spec_phase()->Contact_ageclass,
                        transmitter_id: id,
                    }
                },
                None => {
                    &&& final(self).spec_phase() == old(self).spec_phase()
                    &&& final(self).generator() == old(self).generator()
                },
            },
    {
        match self.transmitter_age(u, cdf) {
            Some(infecting_ageclass) => {
                let slot = uniform_below(
                    &mut self.rng,
                    self.infectious_individuals[infecting_ageclass].len(),
                );
                Some(self.choose_transmitter(infecting_ageclass, slot))
            },
            None => None,
        }
    }

    /// The age class that transmits in a contact: the one that the draw `u`
    /// selects under the cumulative distribution `cdf`. There is none if
    /// `cdf` has not one entry per age class, or one fewer, or if the age
    /// class selected has no infectious individual.
    pub fn transmitter_age(&self, u: u64, cdf: &Vec<u64>) -> (r: Option<usize>)
        requires
            self.wf(),
        ensures
            r is Some <==> self.can_transmit(u, cdf@),
            r is Some ==> r->0 == categorical(u, self.spec_n_ageclasses() as int, cdf@),
            r is Some ==> r->0 < self.spec_n_ageclasses(),
    {
        let n = self.n_ageclasses;
        if n == 0 || !(cdf.len() == n || cdf.len() == n - 1) {
            return None;
        }
        let infecting_ageclass = draw_categorical(u, n, cdf);
        if self.infectious_individuals[infecting_ageclass].len() == 0 {
            return None;
        }
        Some(infecting_ageclass)
    }

    /// The infectious individual in `slot` of the roster of `ageclass`.
    pub fn infectious_at(&self, ageclass: usize, slot: usize) -> (id: usize)
        requires
            self.wf(),
            ageclass < self.spec_n_ageclasses(),
            slot < self.roster(ageclass as int).len(),
        ensures
            id == self.roster(ageclass as int)[slot as int],
            self.population().contains_key(id),
            self.population()[id].ageclass == ageclass,
            self.catalog()[self.population()[id].state_id as int].spec_is_infectious(),
    {
        proof {
            let roster = self.infectious_individuals@[ageclass as int]@;
            assert(roster.contains(roster[slot as int]));
            assert(self.infectious_there(ageclass as int, roster[slot as int]));
        }
        self.infectious_individuals[ageclass].at(slot)
    }

    /// Makes the infectious individual in `slot` of the roster of
    /// `infecting_ageclass` the transmitter of the contact under way.
    pub fn choose_transmitter(&mut self, infecting_ageclass: usize, slot: usize) -> (id: usize)
        requires
            old(self).wf(),
            old(self).spec_phase() is Contact,
            infecting_ageclass < old(self).spec_n_ageclasses(),
            slot < old(self).roster(infecting_ageclass as int).len(),
        ensures
            final(self).wf(),
            final(self).same_setup(old(self)),
            final(self).same_people(old(self)),
            final(self).clock() == old(self).clock(),
            final(self).stratum() == old(self).stratum(),
            final(self).check_owed() == old(self).check_owed(),
            final(self).generator() == old(self).generator(),
            final(self).contact_times() == old(self).contact_times(),
            id == old(self).roster(infecting_ageclass as int)[slot as int],
            final(self).spec_phase() == (Phase::ContactChosen {
                ageclass: old(self).spec_phase()->Contact_ageclass,
                transmitter_id: id,
            }),
    {
        let ageclass = match self.phase {
            Phase::Contact { ageclass } => ageclass,
            _ => vstd::pervasive::unreached(),
        };
        let infectious_id = self.infectious_at(infecting_ageclass, slot);
        proof {
            let roster = self.infectious_individuals@[infecting_ageclass as int]@;
            assert(roster[slot as int] == infectious_id);
            assert(roster.contains(infectious_id));
            assert(self.infectious_there(infecting_ageclass as int, infectious_id));
        }
        self.phase = Phase::ContactChosen { ageclass, transmitter_id: infectious_id };
        infectious_id
    }

    /// What a contact reports: if every event is recorded, the new
    /// individual, the infection and its move out of the susceptible state;
    /// always, one more primary infection at the time of the contact; and, if
    /// the transmitter was itself infected during the run, one more secondary
    /// infection at the time of that infection.
    pub open spec fn contact_observations(
        &self,
        record_all_events: bool,
        ageclass: usize,
        transmitter_id: usize,
    ) -> Seq<Observation> {
        let t = self.clock();
        let id = self.spec_next_id() as i64;
        let individual_rows = if record_all_events {
            seq![
                Observation::Individual {
                    time: t,
                    id,
                    ageclass: ageclass as i64,
                    state_id: self.spec_initial_infected_state_id() as usize,
                },
                Observation::Infection {
                    time: t,
                    infected_id: id,
                    transmitter_id: transmitter_id as i64,
                },
                Observation::Transition {
                    time: t,
                    id,
                    start_state_id: self.spec_susceptible_state_id() as usize,
                    end_state_id: self.spec_initial_infected_state_id() as usize,
                },
            ]
        } else {
            Seq::<Observation>::empty()
        };
        let rows = individual_rows.push(Observation::RtPrimary { time: t });
        match self.population()[transmitter_id].t_infected {
            Some(t_past) => rows.push(Observation::RtSecondary { time: t_past }),
            None => rows,
        }
    }

    /// Applies the contact under way: a susceptible of the contacted age
    /// class becomes a new individual in the initial infected state, with its
    /// transition queued for `sojourn_end`, a finite time not before the
    /// clock. The next-contact times are forgotten; the engine then waits for
    /// fresh ones.
    pub fn do_contact_event(
        &mut self,
        sojourn_end: u64,
        record_all_events: bool,
    ) -> (observations: Vec<Observation>)
        requires
            old(self).wf(),
            old(self).spec_phase() is ContactChosen,
            old(self).clock() <= sojourn_end < INFINITY,
        ensures
            final(self).wf(),
            final(self).same_setup(old(self)),
            final(self).clock() == old(self).clock(),
            final(self).stratum() == old(self).stratum(),
            final(self).check_owed() == old(self).check_owed(),
            final(self).generator() == old(self).generator(),
            final(self).spec_phase() == Phase::ContactTimes,
            final(self).contact_times() == Seq::new(
                old(self).spec_n_ageclasses(),
                |a: int| INFINITY,
            ),
            final(self).spec_next_id() == old(self).spec_next_id() + 1,
            !old(self).population().contains_key(old(self).spec_next_id() as usize),
            final(self).population() == old(self).population().insert(
                old(self).spec_next_id() as usize,
                old(self).newcomer(
                    old(self).spec_phase()->ContactChosen_ageclass,
                    old(self).spec_initial_infected_state_id() as usize,
                    false,
                ),
            ),
            forall|a: int|
                0 <= a < old(self).spec_n_ageclasses() ==> #[trigger] final(self).roster(a) == if a
                    == old(self).spec_phase()->ContactChosen_ageclass && old(
                    self,
                ).newly_infected_transmit() {
                    old(self).roster(a).push(old(self).spec_next_id() as usize)
                } else {
                    old(self).roster(a)
                },
            final(self).calendar() == old(self).calendar().insert(
                (sojourn_end, old(self).spec_next_id() as usize),
            ),
            final(self).schedule() == old(self).schedule().insert(
                old(self).spec_next_id() as usize,
                sojourn_end,
            ),
            final(self).tally() == moved(
                old(self).tally(),
                old(self).spec_susceptible_state_id(),
                old(self).spec_initial_infected_state_id(),
                old(self).spec_phase()->ContactChosen_ageclass as int,
            ),
            final(self).total() == old(self).total(),
            final(self).same_ageclass_totals(old(self)),
            observations@ == old(self).contact_observations(
                record_all_events,
                old(self).spec_phase()->ContactChosen_ageclass,
                old(self).spec_phase()->ContactChosen_transmitter_id,
            ),
    {
        let (ageclass, infectious_id) = match self.phase {
            Phase::ContactChosen { ageclass, transmitter_id } => (ageclass, transmitter_id),
            _ => vstd::pervasive::unreached(),
        };
        let infectious_individual = match self.individuals.get(&infectious_id) {
            Some(who) => *who,
            None => vstd::pervasive::unreached(),
        };
        proof {
            self.counts.lemma_wf();
            crate::sums::lemma_sum_nonnegative(self.counts@[self.susceptible_state_id as int]);
        }
        let state_id = self.initial_infected_state_id;
        let susceptible_state_id = self.susceptible_state_id;
        let t = self.t;
        self.clear_contact();
        let mut observations: Vec<Observation> = Vec::new();
        let infected_id = self.add_individual(
            ageclass,
            state_id,
            false,
            sojourn_end,
            record_all_events,
            &mut observations,
        );
        if record_all_events {
            observations.push(
                Observation::Infection {
                    time: t,
                    infected_id: to_i64(infected_id),
                    transmitter_id: to_i64(infectious_id),
                },
            );
            observations.push(
                Observation::Transition {
                    time: t,
                    id: to_i64(infected_id),
                    start_state_id: susceptible_state_id,
                    end_state_id: state_id,
                },
            );
        }
        observations.push(Observation::RtPrimary { time: t });
        if let Some(t_past) = infectious_individual.t_infected {
            observations.push(Observation::RtSecondary { time: t_past });
        }
        proof {
            assert(observations@ =~= old(self).contact_observations(
                record_all_events,
                ageclass,
                infectious_id,
            ));
        }
        observations
    }

    /// The successor that the draw `u` selects for an individual: the entry
    /// of its state's successor list at the index chosen under the cumulative
    /// probabilities of its age class.
    pub open spec fn successor(&self, who: Individual, u: u64) -> usize {
        let law = self.catalog()[who.state_id as int].infected();
        law.next_state_ids@[categorical(
            u,
            law.next_state_ids@.len() as int,
            law.transition_cdfs@[who.ageclass as int]@,
        )]
    }

    /// The successor chosen in the transition under way is not final, so
    /// that a sojourn there is needed.
    pub open spec fn sojourn_needed(&self) -> bool {
        !self.catalog()[self.spec_phase()->TransitionChosen_next_state_id as int].spec_is_final()
    }

    /// Chooses the successor state in the transition under way. Returns its
    /// id and whether a sojourn there has to be drawn, which is so unless the
    /// successor is final.
    pub fn draw_successor(&mut self, u: u64) -> (r: (usize, bool))
        requires
            old(self).wf(),
            old(self).spec_phase() is Transition,
        ensures
            final(self).wf(),
            final(self).same_setup(old(self)),
            final(self).same_people(old(self)),
            final(self).clock() == old(self).clock(),
            final(self).stratum() == old(self).stratum(),
            final(self).check_owed() == old(self).check_owed(),
            final(self).generator() == old(self).generator(),
            final(self).contact_times() == old(self).contact_times(),
            old(self).population().contains_key(old(self).spec_phase()->Transition_individual_id),
            r.0 == old(self).successor(
                old(self).population()[old(self).spec_phase()->Transition_individual_id],
                u,
            ),
            r.0 < old(self).catalog().len(),
            r.1 == !old(self).catalog()[r.0 as int].spec_is_final(),
            final(self).spec_phase() == (Phase::TransitionChosen {
                individual_id: old(self).spec_phase()->Transition_individual_id,
                t: old(self).spec_phase()->Transition_t,
                next_state_id: r.0,
            }),
    {
        let (id, t) = match self.phase {
            Phase::Transition { individual_id, t } => (individual_id, t),
            _ => vstd::pervasive::unreached(),
        };
        assert(self.scheduled@.contains_key(id));
        let individual = match self.individuals.get(&id) {
            Some(who) => *who,
            None => vstd::pervasive::unreached(),
        };
        let next_state_id = match &self.states[individual.state_id].detail {
            StateDetail::Infected(Some(last_infected_state)) => {
                let k = draw_categorical(
                    u,
                    last_infected_state.next_state_ids.len(),
                    &last_infected_state.transition_cdfs[individual.ageclass],
                );
                last_infected_state.next_state_ids[k]
            },
            _ => vstd::pervasive::unreached(),
        };
        self.phase = Phase::TransitionChosen { individual_id: id, t, next_state_id };
        (next_state_id, !self.states[next_state_id].is_final())
    }

    /// The roster of an age class after one of its individuals has moved
    /// between states: joined if it became infectious, left if it ceased to be.
    pub open spec fn roster_after(
        roster: Seq<usize>,
        id: usize,
        was_infectious: bool,
        is_infectious: bool,
    ) -> Seq<usize> {
        if !was_infectious && is_infectious {
            roster.push(id)
        } else if was_infectious && !is_infectious {
            swap_removed(roster, roster.index_of(id))
        } else {
            roster
        }
    }

    /// Applies the transition under way. The individual moves to the
    /// successor chosen; the tally and the roster of its age class follow. In
    /// a final state it is no longer tracked; otherwise its next transition is
    /// queued for `sojourn_end`, a finite time not before the clock. The
    /// next-contact times are forgotten; the engine then waits for fresh ones.
    pub fn do_transition_event(
        &mut self,
        sojourn_end: u64,
        record_all_events: bool,
    ) -> (observations: Vec<Observation>)
        requires
            old(self).wf(),
            old(self).spec_phase() is TransitionChosen,
            old(self).sojourn_needed() ==> old(self).clock() <= sojourn_end < INFINITY,
        ensures
            final(self).wf(),
            final(self).same_setup(old(self)),
            final(self).clock() == old(self).clock(),
            final(self).stratum() == old(self).stratum(),
            final(self).check_owed() == old(self).check_owed(),
            final(self).generator() == old(self).generator(),
            final(self).spec_phase() == Phase::ContactTimes,
            final(self).contact_times() == Seq::new(
                old(self).spec_n_ageclasses(),
                |a: int| INFINITY,
            ),
            final(self).spec_next_id() == old(self).spec_next_id(),
            final(self).total() == old(self).total(),
            final(self).same_ageclass_totals(old(self)),
            ({
                let id = old(self).spec_phase()->TransitionChosen_individual_id;
                let t = old(self).spec_phase()->TransitionChosen_t;
                let next = old(self).spec_phase()->TransitionChosen_next_state_id;
                let who = old(self).population()[id];
                let is_final = old(self).catalog()[next as int].spec_is_final();
                &&& old(self).population().contains_key(id)
                &&& final(self).population() == if is_final {
                    old(self).population().remove(id)
                } else {
                    old(self).population().insert(id, Individual { state_id: next, ..who })
                }
                &&& final(self).tally() == moved(
                    old(self).tally(),
                    who.state_id as int,
                    next as int,
                    who.ageclass as int,
                )
                &&& forall|a: int|
                    0 <= a < old(self).spec_n_ageclasses() ==> #[trigger] final(self).roster(a)
                        == if a == who.ageclass {
                        Self::roster_after(
                            old(self).roster(a),
                            id,
                            old(self).catalog()[who.state_id as int].spec_is_infectious(),
                            old(self).catalog()[next as int].spec_is_infectious(),
                        )
                    } else {
                        old(self).roster(a)
                    }
                &&& final(self).calendar() == if is_final {
                    old(self).calendar().remove((t, id))
                } else {
                    old(self).calendar().remove((t, id)).insert((sojourn_end, id))
                }
                &&& final(self).schedule() == if is_final {
                    old(self).schedule().remove(id)
                } else {
                    old(self).schedule().insert(id, sojourn_end)
                }
                &&& observations@ == if record_all_events {
                    seq![
                        Observation::Transition {
                            time: old(self).clock(),
                            id: id as i64,
                            start_state_id: who.state_id,
                            end_state_id: next,
                        },
                    ]
                } else {
                    Seq::<Observation>::empty()
                }
            }),
    {
        let (id, t, next_state_id) = match self.phase {
            Phase::TransitionChosen { individual_id, t, next_state_id } => (
                individual_id,
                t,
                next_state_id,
            ),
            _ => vstd::pervasive::unreached(),
        };
        assert(self.scheduled@.contains_key(id));
        let individual = match self.individuals.get(&id) {
            Some(who) => *who,
            None => vstd::pervasive::unreached(),
        };
        let ageclass = individual.ageclass;
        let last_state_id = individual.state_id;
        let was_infectious = self.states[last_state_id].is_infectious();
        let is_infectious = self.states[next_state_id].is_infectious();
        let is_final = self.states[next_state_id].is_final();
        let now = self.t;

        self.clear_contact();

        let ghost before = *self;
        let ghost m = self.counts@;
        let ghost people = self.individuals@;
        let ghost sus = self.susceptible_state_id as int;
        let ghost width = self.n_ageclasses as nat;
        let ghost li = last_state_id as int;
        let ghost ni = next_state_id as int;
        let ghost age_i = ageclass as int;
        proof {
            self.counts.lemma_wf();
            crate::sums::lemma_sum_nonnegative(m[sus]);
            lemma_cell_member(people, id);
            assert(m[li][age_i] == cell(people, li, age_i).len());
            assert(self.states@[sus].spec_is_susceptible());
            assert(sus != li && sus != ni);
        }

        self.counts.transition(last_state_id, next_state_id, ageclass);
        proof {
            let v1 = (m[li][age_i] - 1) as usize;
            let m1 = with_entry(m, li, age_i, v1);
            let v2 = (m1[ni][age_i] + 1) as usize;
            crate::counts::lemma_entry_effects(m, width, li, age_i, v1);
            crate::counts::lemma_entry_effects(m1, width, ni, age_i, v2);
            self.counts.lemma_wf();
            assert forall|a: int| 0 <= a < width implies infectious_sum(
                self.counts@,
                self.states@,
                a,
            ) == infectious_sum(m, self.states@, a) + (if a == age_i && is_infectious {
                1int
            } else {
                0int
            }) - (if a == age_i && was_infectious {
                1int
            } else {
                0int
            }) by {
                lemma_infectious_sum_with_entry(m, self.states@, li, age_i, v1, a);
                lemma_infectious_sum_with_entry(m1, self.states@, ni, age_i, v2, a);
            }
            assert(self.counts@[sus] == m[sus]);
        }

        if !was_infectious && is_infectious {
            assert(!self.infectious_individuals@[age_i]@.contains(id));
            self.infectious_individuals[ageclass].add(id);
            proof {
                lemma_push_contains(before.infectious_individuals@[age_i]@, id);
            }
        } else if was_infectious && !is_infectious {
            assert(self.infectious_individuals@[age_i]@.contains(id));
            self.infectious_individuals[ageclass].remove(id);
            proof {
                let old_roster = before.infectious_individuals@[age_i]@;
                let new_roster = self.infectious_individuals@[age_i]@;
                assert forall|x: usize| new_roster.contains(x) <==> old_roster.contains(x) && x
                    != id by {
                    assert(new_roster.to_set().contains(x) <==> old_roster.to_set().remove(
                        id,
                    ).contains(x));
                }
            }
        }

        self.event_queue.remove(t, id);
        let updated = individual.update_state(next_state_id);
        if is_final {
            self.individuals.remove(&id);
            proof {
                self.scheduled@ = self.scheduled@.remove(id);
            }
        } else {
            self.individuals.insert(id, updated);
            self.event_queue.insert(sojourn_end, id);
            proof {
                self.scheduled@ = self.scheduled@.insert(id, sojourn_end);
            }
        }

        let mut observations: Vec<Observation> = Vec::new();
        if record_all_events {
            observations.push(
                Observation::Transition {
                    time: now,
                    id: to_i64(id),
                    start_state_id: last_state_id,
                    end_state_id: next_state_id,
                },
            );
        }
        proof {
            assert forall|s: int, a: int|
                0 <= s < self.states@.len() && 0 <= a < width
                    && self.states@[s].spec_is_infected() implies self.counts@[s][a] == (
            #[trigger] cell(self.individuals@, s, a)).len() by {
                assert(m[s][a] == cell(people, s, a).len());
                if is_final {
                    lemma_cell_remove(people, id, s, a);
                } else {
                    lemma_cell_update(people, id, updated, s, a);
                }
            }
            assert(self.tally_wf());
            assert(self.population_wf());
            assert forall|a: int, x: usize| 0 <= a < self.n_ageclasses implies (
            #[trigger] self.infectious_individuals@[a]@.contains(x) <==> self.infectious_there(
                a,
                x,
            )) by {
                assert(before.infectious_individuals@[a]@.contains(x) <==> before.infectious_there(
                    a,
                    x,
                ));
            }
            assert forall|a: int| 0 <= a < self.n_ageclasses implies (
            #[trigger] self.infectious_individuals@[a])@.len() == infectious_sum(
                self.counts@,
                self.states@,
                a,
            ) by {
                assert(before.infectious_individuals@[a]@.len() == infectious_sum(
                    m,
                    self.states@,
                    a,
                ));
            }
            assert(self.roster_wf());
            assert(self.scheduled@.dom() =~= self.individuals@.dom());
            assert forall|e: (u64, usize)| #[trigger]
                self.event_queue@.contains(e) <==> self.scheduled@.contains_key(e.1)
                    && self.scheduled@[e.1] == e.0 by {
                assert(before.event_queue@.contains(e) <==> before.scheduled@.contains_key(e.1)
                    && before.scheduled@[e.1] == e.0);
                assert(before.event_queue@.contains((t, id)));
            }
            assert(self.calendar_wf());
            assert(self.shape_wf());
            assert forall|a: int| 0 <= a < width implies #[trigger] self.total_for_ageclass(a)
                == old(self).total_for_ageclass(a) by {
                assert(before.total_for_ageclass(a) == old(self).total_for_ageclass(a));
                assert(self.counts.spec_total_for_ageclass(a)
                    == before.counts.spec_total_for_ageclass(a));
            }
            assert(observations@ =~= if record_all_events {
                seq![
                    Observation::Transition {
                        time: now,
                        id: id as i64,
                        start_state_id: last_state_id,
                        end_state_id: next_state_id,
                    },
                ]
            } else {
                Seq::<Observation>::empty()
            });
        }
        observations
    }
}

} // verus!

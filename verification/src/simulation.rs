//! The event-driven engine: the clock, the population, the rosters of
//! infectious individuals, the calendar of transitions and the rules that keep
//! them consistent through every event.
//!
//! The engine decides; whoever drives it draws. It never draws a real number:
//! where a rule needs a uniform draw, a sojourn time or fresh next-contact
//! times, the engine stops in a phase that names what it waits for, and the
//! driver hands the value to the method of that phase.
//!
//! This file holds the engine's state, what it means for it to be
//! consistent, and the scheduler. Setting a run up is in `seeding`; applying
//! a contact or a transition is in `events`.

use crate::convert::to_i64;
use crate::counts::Counts;
use crate::model::{
    cell, first_event, infectious_sum, lemma_next_contact, next_contact, next_transition_time,
    Individual,
};
use crate::queue::EventQueue;
use crate::state::{catalog_wf, State, StateDetail};
use crate::sums::{grand_sum, rectangular, sum_int};
use crate::time::{is_finite, is_time, INFINITY};
use crate::vecset::VecSet;
use rand_xoshiro::Xoshiro256PlusPlus;
use std::collections::BTreeMap;
use vstd::prelude::*;

verus! {

/// The population must stay below this, so that every id fits the machine
/// word and the signed integer that records are written in.
pub open spec fn id_limit() -> int {
    if usize::MAX < i64::MAX {
        usize::MAX as int
    } else {
        i64::MAX as int
    }
}

/// What the engine waits for.
#[derive(Debug, Clone, Copy, PartialEq, Eq, Structural)]
pub enum Phase {
    /// Nothing: the next call of `simulate` decides what happens next.
    Ready,
    /// Fresh next-contact times, for `update_contact`.
    ContactTimes,
    /// The draw of the transmitter, for `draw_transmitter`: a contact in
    /// `ageclass` is under way.
    Contact { ageclass: usize },
    /// The sojourn of the newly infected, for `do_contact_event`.
    ContactChosen { ageclass: usize, transmitter_id: usize },
    /// The draw of the successor state, for `draw_successor`: the transition
    /// of `individual_id`, queued for time `t`, is under way.
    Transition { individual_id: usize, t: u64 },
    /// The sojourn in the successor state, for `do_transition_event`.
    TransitionChosen { individual_id: usize, t: u64, next_state_id: usize },
}

/// What `simulate` decided.
#[derive(Debug, Clone, Copy, PartialEq, Eq, Structural)]
pub enum Step {
    /// The clock has reached the horizon. `quiescent` says that no contact
    /// and no transition is pending at all.
    Done { quiescent: bool },
    /// The clock has passed a changepoint and stratum `index` is now active.
    Intervention { index: usize },
    /// A contact in `ageclass` is due; `needs_uniform` says whether choosing
    /// the transmitter's age class consumes a uniform draw.
    Contact { ageclass: usize, needs_uniform: bool },
    /// The transition of `individual_id`, now in `state_id`, is due;
    /// `needs_uniform` says whether choosing the successor consumes a uniform
    /// draw.
    Transition { individual_id: usize, state_id: usize, ageclass: usize, needs_uniform: bool },
}

/// What the engine reports of an event, in the order in which it happened.
#[derive(Debug, Clone, Copy, PartialEq, Eq, Structural)]
pub enum Observation {
    /// A new individual entered `state_id`.
    Individual { time: u64, id: i64, ageclass: i64, state_id: usize },
    /// `transmitter_id` infected `infected_id`.
    Infection { time: u64, infected_id: i64, transmitter_id: i64 },
    /// `id` moved from one state to another.
    Transition { time: u64, id: i64, start_state_id: usize, end_state_id: usize },
    /// One more primary infection in the unit interval that ends at the
    /// ceiling of `time`; the interval's record is created if it is missing.
    RtPrimary { time: u64 },
    /// One more secondary infection caused by someone infected in the unit
    /// interval that ends at the ceiling of `time`.
    RtSecondary { time: u64 },
}

/// One entry of the tally as it is recorded: age classes count from one.
#[derive(Debug, Clone, Copy, PartialEq, Eq, Structural)]
pub struct CountRow {
    pub time: u64,
    pub state_id: usize,
    pub ageclass: i64,
    pub count: i64,
}

/// The engine's state.
pub struct Simulation {
    pub(crate) n_ageclasses: usize,
    pub(crate) states: Vec<State>,
    pub(crate) susceptible_state_id: usize,
    pub(crate) initial_infected_state_id: usize,
    pub(crate) t_change: Vec<u64>,
    pub(crate) n_strata: usize,
    pub(crate) intervention_index: usize,
    pub(crate) counts: Counts,
    pub(crate) t: u64,
    pub(crate) next_id: usize,
    pub(crate) individuals: BTreeMap<usize, Individual>,
    pub(crate) infectious_individuals: Vec<VecSet<usize>>,
    pub(crate) t_contact: Vec<u64>,
    pub(crate) event_queue: EventQueue,
    pub(crate) scheduled: Ghost<Map<usize, u64>>,
    pub(crate) phase: Phase,
    pub(crate) check_due: bool,
    /// The pseudorandom stream of the run. The engine takes the transmitter
    /// from it; the driver takes every real-valued draw from it.
    pub rng: Xoshiro256PlusPlus,
}

impl Simulation {
    /// The clock.
    pub open(crate) spec fn clock(&self) -> u64 {
        self.t
    }

    /// What the engine waits for.
    pub open(crate) spec fn spec_phase(&self) -> Phase {
        self.phase
    }

    /// Whether the changepoint check is still owed for the last event.
    pub open(crate) spec fn check_owed(&self) -> bool {
        self.check_due
    }

    /// The number of age classes.
    pub open(crate) spec fn spec_n_ageclasses(&self) -> nat {
        self.n_ageclasses as nat
    }

    /// The pseudorandom generator in its present state.
    pub open(crate) spec fn generator(&self) -> Xoshiro256PlusPlus {
        self.rng
    }

    /// The number of strata of the intervention schedule.
    pub open(crate) spec fn spec_n_strata(&self) -> nat {
        self.n_strata as nat
    }

    /// The catalog of states.
    pub open(crate) spec fn catalog(&self) -> Seq<State> {
        self.states@
    }

    /// The id of the susceptible state.
    pub open(crate) spec fn spec_susceptible_state_id(&self) -> int {
        self.susceptible_state_id as int
    }

    /// The id of the state that the newly infected enter.
    pub open(crate) spec fn spec_initial_infected_state_id(&self) -> int {
        self.initial_infected_state_id as int
    }

    /// The changepoints, in order.
    pub open(crate) spec fn changepoints(&self) -> Seq<u64> {
        self.t_change@
    }

    /// The index of the active stratum.
    pub open(crate) spec fn stratum(&self) -> int {
        self.intervention_index as int
    }

    /// The tally by state and age class.
    pub open(crate) spec fn tally(&self) -> Seq<Seq<usize>> {
        self.counts@
    }

    /// The overall total of the tally.
    pub open(crate) spec fn total(&self) -> int {
        self.counts.spec_total()
    }

    /// The total of state `s` in the tally.
    pub open(crate) spec fn total_for_state(&self, s: int) -> int {
        self.counts.spec_total_for_state(s)
    }

    /// The total of age class `a` in the tally.
    pub open(crate) spec fn total_for_ageclass(&self, a: int) -> int {
        self.counts.spec_total_for_ageclass(a)
    }

    /// The live individuals by id.
    pub open(crate) spec fn population(&self) -> Map<usize, Individual> {
        self.individuals@
    }

    /// The infectious individuals of age class `a`, in slot order.
    pub open(crate) spec fn roster(&self, a: int) -> Seq<usize> {
        self.infectious_individuals@[a]@
    }

    /// The queued transition events.
    pub open(crate) spec fn calendar(&self) -> Set<(u64, usize)> {
        self.event_queue@
    }

    /// The time at which each live individual's transition is queued.
    pub open(crate) spec fn schedule(&self) -> Map<usize, u64> {
        self.scheduled@
    }

    /// The next-contact time of each age class.
    pub open(crate) spec fn contact_times(&self) -> Seq<u64> {
        self.t_contact@
    }

    /// The id that the next new individual gets.
    pub open(crate) spec fn spec_next_id(&self) -> int {
        self.next_id as int
    }

    /// The number of susceptible individuals of age class `a`.
    pub open spec fn susceptibles(&self, a: int) -> usize {
        self.tally()[self.spec_susceptible_state_id()][a]
    }

    /// The next-contact times are those installed for the present tally and
    /// rosters: the engine is not waiting for fresh ones.
    pub open spec fn contacts_fresh(&self) -> bool {
        !(self.spec_phase() is ContactTimes)
    }

    /// Some age class has an infectious individual.
    pub open(crate) spec fn someone_transmits(&self) -> bool {
        any_nonempty(self.infectious_individuals@)
    }

    /// The two engines were set up alike: same catalog, age classes and changepoints.
    pub open spec fn same_setup(&self, other: &Self) -> bool {
        &&& self.spec_n_ageclasses() == other.spec_n_ageclasses()
        &&& self.catalog() == other.catalog()
        &&& self.spec_susceptible_state_id() == other.spec_susceptible_state_id()
        &&& self.spec_initial_infected_state_id() == other.spec_initial_infected_state_id()
        &&& self.changepoints() == other.changepoints()
        &&& self.spec_n_strata() == other.spec_n_strata()
    }

    /// Every age class is as large as in `o`.
    pub open spec fn same_ageclass_totals(&self, o: &Self) -> bool {
        forall|a: int|
            0 <= a < self.spec_n_ageclasses() ==> #[trigger] self.total_for_ageclass(a)
                == o.total_for_ageclass(a)
    }

    /// The people, the tally, the rosters and the calendar are those of `o`.
    pub open spec fn same_people(&self, o: &Self) -> bool {
        &&& self.tally() == o.tally()
        &&& self.total() == o.total()
        &&& self.same_ageclass_totals(o)
        &&& self.population() == o.population()
        &&& forall|a: int| 0 <= a < self.spec_n_ageclasses() ==> self.roster(a) == o.roster(a)
        &&& self.calendar() == o.calendar()
        &&& self.schedule() == o.schedule()
        &&& self.spec_next_id() == o.spec_next_id()
    }

    /// The sizes agree, the catalog is usable and everything fits the
    /// integers that records are written in.
    pub(crate) open spec fn shape_wf(&self) -> bool {
        &&& self.counts.wf()
        &&& self.counts.n_states() == self.states@.len()
        &&& self.counts.n_ageclasses() == self.n_ageclasses
        &&& self.n_ageclasses < i64::MAX
        &&& self.counts.spec_total() < id_limit()
        &&& catalog_wf(
            self.states@,
            self.n_ageclasses as nat,
            self.susceptible_state_id as int,
            self.initial_infected_state_id as int,
        )
        &&& self.t_change@.len() + 1 == self.n_strata
        &&& self.intervention_index < self.n_strata
        &&& self.t_contact@.len() == self.n_ageclasses
        &&& self.infectious_individuals@.len() == self.n_ageclasses
        &&& forall|a: int|
            0 <= a < self.n_ageclasses ==> (#[trigger] self.infectious_individuals@[a]).wf()
        &&& self.t <= INFINITY
        &&& 1 <= self.next_id
        &&& self.next_id + self.counts.spec_total_for_state(self.susceptible_state_id as int)
            <= self.counts.spec_total() + 1
    }

    /// Every live individual carries its own id, one that has been given
    /// out, and is in an age class and an infected state that exist.
    pub(crate) open spec fn population_wf(&self) -> bool {
        forall|id: usize| #[trigger]
            self.individuals@.contains_key(id) ==> {
                &&& self.individuals@[id].id == id
                &&& 1 <= id < self.next_id
                &&& self.individuals@[id].ageclass < self.n_ageclasses
                &&& self.individuals@[id].state_id < self.states@.len()
                &&& self.states@[self.individuals@[id].state_id as int].spec_is_infected()
            }
    }

    /// `id` is a live individual of age class `a` in an infectious state.
    pub(crate) open spec fn infectious_there(&self, a: int, id: usize) -> bool {
        &&& self.individuals@.contains_key(id)
        &&& self.individuals@[id].ageclass == a
        &&& self.states@[self.individuals@[id].state_id as int].spec_is_infectious()
    }

    /// The roster of an age class holds exactly the live individuals of that
    /// age class whose state is infectious, and as many as the tally counts.
    pub(crate) open spec fn roster_wf(&self) -> bool {
        &&& forall|a: int, id: usize|
            0 <= a < self.n_ageclasses ==> (#[trigger] self.infectious_individuals@[a]@.contains(id)
                <==> self.infectious_there(a, id))
        &&& forall|a: int|
            0 <= a < self.n_ageclasses ==> (#[trigger] self.infectious_individuals@[a])@.len()
                == infectious_sum(self.counts@, self.states@, a)
    }

    /// For every infected state and age class, the tally counts the live
    /// individuals that are there.
    pub(crate) open spec fn tally_wf(&self) -> bool {
        forall|s: int, a: int|
            0 <= s < self.states@.len() && 0 <= a < self.n_ageclasses
                && self.states@[s].spec_is_infected() ==> self.counts@[s][a] == (#[trigger] cell(
                self.individuals@,
                s,
                a,
            )).len()
    }

    /// Every live individual has exactly one queued event, none is queued for
    /// anyone else, and nothing is queued or expected before the clock. While
    /// the next-contact times are fresh, a contact is pending only where there
    /// is somebody to infect and somebody to transmit.
    pub(crate) open spec fn calendar_wf(&self) -> bool {
        &&& self.scheduled@.dom() =~= self.individuals@.dom()
        &&& forall|e: (u64, usize)| #[trigger]
            self.event_queue@.contains(e) <==> self.scheduled@.contains_key(e.1)
                && self.scheduled@[e.1] == e.0
        &&& forall|id: usize| #[trigger]
            self.scheduled@.contains_key(id) ==> self.t <= self.scheduled@[id] < INFINITY
        &&& forall|a: int|
            0 <= a < self.n_ageclasses ==> self.t <= #[trigger] self.t_contact@[a] <= INFINITY
        &&& self.contacts_fresh() ==> forall|a: int|
            0 <= a < self.n_ageclasses && #[trigger] self.t_contact@[a] < INFINITY
                ==> self.counts@[self.susceptible_state_id as int][a] >= 1
                && self.someone_transmits()
    }

    /// What the phase says is under way is possible.
    pub(crate) open spec fn phase_wf(&self) -> bool {
        match self.phase {
            Phase::Ready => true,
            Phase::ContactTimes => true,
            Phase::Contact { ageclass } => {
                &&& ageclass < self.n_ageclasses
                &&& self.t_contact@[ageclass as int] < INFINITY
            },
            Phase::ContactChosen { ageclass, transmitter_id } => {
                &&& ageclass < self.n_ageclasses
                &&& self.t_contact@[ageclass as int] < INFINITY
                &&& self.individuals@.contains_key(transmitter_id)
            },
            Phase::Transition { individual_id, t } => {
                &&& self.event_queue@.contains((t, individual_id))
                &&& t == self.t
            },
            Phase::TransitionChosen { individual_id, t, next_state_id } => {
                &&& self.event_queue@.contains((t, individual_id))
                &&& t == self.t
                &&& next_state_id < self.states@.len()
                &&& !self.states@[next_state_id as int].spec_is_susceptible()
            },
        }
    }

    /// The engine's state is consistent.
    pub open(crate) spec fn wf(&self) -> bool {
        &&& self.shape_wf()
        &&& self.population_wf()
        &&& self.roster_wf()
        &&& self.tally_wf()
        &&& self.calendar_wf()
        &&& self.phase_wf()
    }

    /// The tally's totals by state add up to its overall total, and so do
    /// its totals by age class.
    pub proof fn lemma_totals_agree(&self)
        requires
            self.wf(),
        ensures
            sum_int(Seq::new(self.catalog().len(), |s: int| self.total_for_state(s)))
                == self.total(),
            sum_int(Seq::new(self.spec_n_ageclasses(), |a: int| self.total_for_ageclass(a)))
                == self.total(),
            self.total() == grand_sum(self.tally()),
    {
        self.counts.lemma_marginals_agree();
        self.counts.lemma_wf();
        assert(Seq::new(self.catalog().len(), |s: int| self.total_for_state(s)) =~= Seq::new(
            self.counts.n_states(),
            |s: int| self.counts.spec_total_for_state(s),
        ));
        assert(Seq::new(self.spec_n_ageclasses(), |a: int| self.total_for_ageclass(a))
            =~= Seq::new(
            self.counts.n_ageclasses(),
            |a: int| self.counts.spec_total_for_ageclass(a),
        ));
    }

    /// The roster of each age class holds, once each, exactly the live
    /// individuals of that age class whose state is infectious; and it holds
    /// as many as the tally counts in infectious states for that age class.
    pub proof fn lemma_rosters(&self)
        requires
            self.wf(),
        ensures
            forall|a: int|
                0 <= a < self.spec_n_ageclasses() ==> (#[trigger] self.roster(a)).len()
                    == infectious_sum(self.tally(), self.catalog(), a),
            forall|a: int|
                0 <= a < self.spec_n_ageclasses() ==> (#[trigger] self.roster(a)).no_duplicates(),
            forall|a: int, id: usize|
                0 <= a < self.spec_n_ageclasses() ==> (#[trigger] self.roster(a).contains(id)
                    <==> self.population().contains_key(id) && self.population()[id].ageclass == a
                    && self.catalog()[self.population()[id].state_id as int].spec_is_infectious()),
    {
        assert forall|a: int| 0 <= a < self.spec_n_ageclasses() implies (#[trigger] self.roster(
            a,
        )).no_duplicates() by {
            self.infectious_individuals@[a].lemma_no_duplicates();
        }
    }

    /// Every live individual has exactly one queued event, at a finite time
    /// that is not before the clock; and every queued event is that of a live
    /// individual.
    pub proof fn lemma_one_event_each(&self)
        requires
            self.wf(),
        ensures
            forall|id: usize| #[trigger]
                self.population().contains_key(id) ==> {
                    &&& self.schedule().contains_key(id)
                    &&& self.calendar().contains((self.schedule()[id], id))
                    &&& self.clock() <= self.schedule()[id] < INFINITY
                    &&& forall|t: u64| #[trigger]
                        self.calendar().contains((t, id)) ==> t == self.schedule()[id]
                },
            forall|e: (u64, usize)| #[trigger]
                self.calendar().contains(e) ==> self.population().contains_key(e.1),
    {
        assert forall|id: usize| #[trigger] self.population().contains_key(id) implies {
            &&& self.schedule().contains_key(id)
            &&& self.calendar().contains((self.schedule()[id], id))
            &&& self.clock() <= self.schedule()[id] < INFINITY
            &&& forall|t: u64| #[trigger]
                self.calendar().contains((t, id)) ==> t == self.schedule()[id]
        } by {
            assert(self.scheduled@.dom().contains(id));
            assert(self.event_queue@.contains((self.scheduled@[id], id)));
        }
        assert forall|e: (u64, usize)| #[trigger]
            self.calendar().contains(e) implies self.population().contains_key(e.1) by {
            assert(self.scheduled@.dom().contains(e.1));
        }
    }

    /// Every live individual has an id that was given out, an age class that
    /// exists and an infected state; the tally of each infected state and age
    /// class counts the live individuals there; no pending contact lies
    /// before the clock, and none is pending for an age class without susceptibles.
    pub proof fn lemma_population(&self)
        requires
            self.wf(),
        ensures
            self.tally().len() == self.catalog().len(),
            rectangular(self.tally(), self.spec_n_ageclasses()),
            self.contact_times().len() == self.spec_n_ageclasses(),
            self.clock() <= INFINITY,
            self.total() < id_limit(),
            catalog_wf(
                self.catalog(),
                self.spec_n_ageclasses(),
                self.spec_susceptible_state_id(),
                self.spec_initial_infected_state_id(),
            ),
            self.stratum() <= self.changepoints().len(),
            forall|id: usize| #[trigger]
                self.population().contains_key(id) ==> {
                    &&& self.population()[id].id == id
                    &&& 1 <= id < self.spec_next_id()
                    &&& self.population()[id].ageclass < self.spec_n_ageclasses()
                    &&& self.population()[id].state_id < self.catalog().len()
                    &&& self.catalog()[self.population()[id].state_id as int].spec_is_infected()
                },
            forall|s: int, a: int|
                0 <= s < self.catalog().len() && 0 <= a < self.spec_n_ageclasses()
                    && self.catalog()[s].spec_is_infected() ==> self.tally()[s][a] == (
                #[trigger] cell(self.population(), s, a)).len(),
            forall|a: int|
                0 <= a < self.spec_n_ageclasses() ==> self.clock()
                    <= #[trigger] self.contact_times()[a] <= INFINITY,
            self.contacts_fresh() ==> forall|a: int|
                0 <= a < self.spec_n_ageclasses() && #[trigger] self.contact_times()[a] < INFINITY
                    ==> self.susceptibles(a) >= 1 && self.someone_transmits(),
    {
        self.counts.lemma_wf();
    }

    /// Someone transmits exactly if some roster is not empty.
    pub proof fn lemma_someone_transmits(&self)
        requires
            self.wf(),
        ensures
            self.someone_transmits() <==> exists|b: int|
                0 <= b < self.spec_n_ageclasses() && #[trigger] self.roster(b).len() > 0,
    {
        if self.someone_transmits() {
            let b = choose|b: int|
                0 <= b < self.infectious_individuals@.len() && (
                #[trigger] self.infectious_individuals@[b])@.len() > 0;
            assert(self.roster(b).len() > 0);
        }
        if exists|b: int| 0 <= b < self.spec_n_ageclasses() && #[trigger] self.roster(b).len() > 0 {
            let b = choose|b: int|
                0 <= b < self.spec_n_ageclasses() && #[trigger] self.roster(b).len() > 0;
            assert(self.infectious_individuals@[b]@.len() > 0);
        }
    }

    /// The clock.
    #[verifier::when_used_as_spec(clock)]
    pub fn t(&self) -> (t: u64)
        ensures
            t == self.clock(),
    {
        self.t
    }

    /// What the engine waits for.
    #[verifier::when_used_as_spec(spec_phase)]
    pub fn phase(&self) -> (p: Phase)
        ensures
            p == self.spec_phase(),
    {
        self.phase
    }

    /// The number of age classes.
    pub fn n_ageclasses(&self) -> (n: usize)
        ensures
            n == self.spec_n_ageclasses(),
    {
        self.n_ageclasses
    }

    /// The catalog of states.
    pub fn states(&self) -> (s: &Vec<State>)
        ensures
            s@ == self.catalog(),
    {
        &self.states
    }

    /// The id of the susceptible state.
    pub fn susceptible_state_id(&self) -> (s: usize)
        ensures
            s == self.spec_susceptible_state_id(),
    {
        self.susceptible_state_id
    }

    /// The id of the state that the newly infected enter.
    pub fn initial_infected_state_id(&self) -> (s: usize)
        ensures
            s == self.spec_initial_infected_state_id(),
    {
        self.initial_infected_state_id
    }

    /// The index of the active stratum.
    pub fn intervention_index(&self) -> (i: usize)
        ensures
            i == self.stratum(),
    {
        self.intervention_index
    }

    /// The tally.
    pub fn counts(&self) -> (c: &Counts)
        ensures
            c@ == self.tally(),
            c.spec_total() == self.total(),
            self.wf() ==> c.wf(),
            self.wf() ==> c.n_states() == self.catalog().len(),
            self.wf() ==> c.n_ageclasses() == self.spec_n_ageclasses(),
    {
        &self.counts
    }

    /// The number of infectious individuals of `ageclass`.
    pub fn n_infectious(&self, ageclass: usize) -> (n: usize)
        requires
            self.wf(),
            ageclass < self.spec_n_ageclasses(),
        ensures
            n == self.roster(ageclass as int).len(),
    {
        self.infectious_individuals[ageclass].len()
    }

    /// The number of susceptible individuals of `ageclass`.
    pub fn susceptible(&self, ageclass: usize) -> (n: usize)
        requires
            self.wf(),
            ageclass < self.spec_n_ageclasses(),
        ensures
            n == self.tally()[self.spec_susceptible_state_id()][ageclass as int],
    {
        self.counts.get(self.susceptible_state_id, ageclass)
    }

    /// The total of `ageclass` in the tally: the size of that age class,
    /// which no event changes.
    pub fn ageclass_size(&self, ageclass: usize) -> (n: usize)
        requires
            self.wf(),
            ageclass < self.spec_n_ageclasses(),
        ensures
            n == self.total_for_ageclass(ageclass as int),
    {
        self.counts.total_for_ageclass(ageclass)
    }

    /// The live individual with this id, if there is one.
    pub fn individual(&self, id: usize) -> (r: Option<Individual>)
        ensures
            r is Some <==> self.population().contains_key(id),
            r is Some ==> r->0 == self.population()[id],
    {
        match self.individuals.get(&id) {
            Some(who) => Some(*who),
            None => None,
        }
    }

    /// The number of live individuals.
    pub fn n_individuals(&self) -> (n: usize)
        ensures
            n == self.population().len(),
    {
        self.individuals.len()
    }

    /// The number of queued transition events.
    pub fn n_queued(&self) -> (n: usize)
        ensures
            n == self.calendar().len(),
    {
        self.event_queue.len()
    }

    /// The next-contact time of `ageclass`.
    pub fn t_contact(&self, ageclass: usize) -> (t: u64)
        requires
            self.wf(),
            ageclass < self.spec_n_ageclasses(),
        ensures
            t == self.contact_times()[ageclass as int],
    {
        self.t_contact[ageclass]
    }

    /// The earliest next-contact time and the first age class that has it.
    pub fn get_next_contact(&self) -> (r: (u64, Option<usize>))
        requires
            self.wf(),
        ensures
            r.0 == next_contact(self.contact_times()).0,
            match r.1 {
                Some(a) => next_contact(self.contact_times()).1 == Some(a as int),
                None => next_contact(self.contact_times()).1 is None,
            },
    {
        let mut t: u64 = INFINITY;
        let mut ageclass_opt: Option<usize> = None;
        let mut i: usize = 0;
        while i < self.n_ageclasses
            invariant
                i <= self.n_ageclasses,
                self.t_contact@.len() == self.n_ageclasses,
                t == next_contact(self.t_contact@.take(i as int)).0,
                match ageclass_opt {
                    Some(a) => next_contact(self.t_contact@.take(i as int)).1 == Some(a as int),
                    None => next_contact(self.t_contact@.take(i as int)).1 is None,
                },
            decreases self.n_ageclasses - i,
        {
            proof {
                assert(self.t_contact@.take(i + 1).drop_last() =~= self.t_contact@.take(i as int));
            }
            if self.t_contact[i] < t {
                t = self.t_contact[i];
                ageclass_opt = Some(i);
            }
            i += 1;
        }
        proof {
            assert(self.t_contact@.take(i as int) =~= self.t_contact@);
        }
        (t, ageclass_opt)
    }

    /// The time of the earliest queued transition, if any is queued.
    pub fn t_next_transition(&self) -> (r: Option<u64>)
        ensures
            match r {
                Some(t) => first_event(self.calendar()) is Some && next_transition_time(
                    self.calendar(),
                ) == t,
                None => first_event(self.calendar()) is None,
            },
    {
        match self.event_queue.peek_min_event() {
            Some(e) => {
                proof {
                    crate::model::lemma_first_event(self.event_queue@, (e.t, e.individual_id));
                }
                Some(e.t)
            },
            None => {
                proof {
                    crate::model::lemma_first_event_empty(self.event_queue@);
                }
                None
            },
        }
    }

    /// Installs freshly drawn next-contact times, one per age class. None may
    /// lie before the clock or beyond infinity. Where there is nobody to infect or nobody to
    /// transmit there is no contact to wait for: an age class without
    /// susceptibles has an infinite time, and while nobody is infectious
    /// every age class has.
    pub fn update_contact(&mut self, times: Vec<u64>)
        requires
            old(self).wf(),
            old(self).spec_phase() == Phase::ContactTimes,
            times@.len() == old(self).spec_n_ageclasses(),
            forall|a: int|
                0 <= a < times@.len() ==> old(self).clock() <= #[trigger] times@[a] <= INFINITY,
            forall|a: int|
                0 <= a < times@.len() && #[trigger] times@[a] < INFINITY ==> old(self).susceptibles(
                    a,
                ) >= 1 && old(self).someone_transmits(),
        ensures
            final(self).wf(),
            final(self).same_setup(old(self)),
            final(self).same_people(old(self)),
            final(self).contact_times() == times@,
            final(self).spec_phase() == Phase::Ready,
            final(self).clock() == old(self).clock(),
            final(self).stratum() == old(self).stratum(),
            final(self).check_owed() == old(self).check_owed(),
            final(self).generator() == old(self).generator(),
    {
        self.t_contact = times;
        self.phase = Phase::Ready;
    }

    /// Forgets the next-contact times: every age class waits for ever until
    /// fresh times are installed.
    pub(crate) fn clear_contact(&mut self)
        requires
            old(self).shape_wf(),
            old(self).population_wf(),
            old(self).roster_wf(),
            old(self).tally_wf(),
            old(self).calendar_wf(),
        ensures
            final(self).wf(),
            final(self).same_setup(old(self)),
            final(self).same_people(old(self)),
            final(self).contact_times() == Seq::new(
                old(self).spec_n_ageclasses(),
                |a: int| INFINITY,
            ),
            final(self).spec_phase() == Phase::ContactTimes,
            final(self).clock() == old(self).clock(),
            final(self).stratum() == old(self).stratum(),
            final(self).check_owed() == old(self).check_owed(),
            final(self).generator() == old(self).generator(),
    {
        let mut i: usize = 0;
        while i < self.n_ageclasses
            invariant
                i <= self.n_ageclasses,
                self.shape_wf(),
                self.population_wf(),
                self.roster_wf(),
                self.tally_wf(),
                self.calendar_wf(),
                self.same_setup(old(self)),
                self.same_people(old(self)),
                self.counts == old(self).counts,
                self.t == old(self).t,
                self.intervention_index == old(self).intervention_index,
                self.check_due == old(self).check_due,
                self.rng == old(self).rng,
                forall|a: int| 0 <= a < i ==> self.t_contact@[a] == INFINITY,
            decreases self.n_ageclasses - i,
        {
            self.t_contact[i] = INFINITY;
            i += 1;
        }
        self.phase = Phase::ContactTimes;
        proof {
            assert(self.t_contact@ =~= Seq::new(self.n_ageclasses as nat, |a: int| INFINITY));
        }
    }

    /// A further stratum exists and its changepoint lies before `t`.
    pub open spec fn changepoint_passed(&self, t: u64) -> bool {
        self.stratum() < self.changepoints().len() && t > self.changepoints()[self.stratum()]
    }

    /// What happens next when the clock may run until `t_until`.
    ///
    /// A changepoint check owed for the last event comes first. Then, unless
    /// the horizon is reached, the earlier of the next contact and the next
    /// transition is due if it falls at or before the horizon; a transition
    /// wins a tie. If neither is pending at all the run is quiescent. If
    /// nothing is due the clock moves to the horizon and that is all: a
    /// changepoint passed on the way waits for the next event.
    pub open spec fn outlook(&self, t_until: u64) -> Step {
        let tc = next_contact(self.contact_times());
        let tx = next_transition_time(self.calendar());
        if self.check_owed() && self.changepoint_passed(self.clock()) {
            Step::Intervention { index: (self.stratum() + 1) as usize }
        } else if !(self.clock() < t_until) {
            Step::Done { quiescent: false }
        } else if !(tc.0 < INFINITY) && !(tx < INFINITY) {
            Step::Done { quiescent: true }
        } else if tc.0 < tx && tc.0 <= t_until {
            Step::Contact {
                ageclass: tc.1->0 as usize,
                needs_uniform: self.spec_n_ageclasses() != 1,
            }
        } else if !(tc.0 < tx) && tx <= t_until {
            let e = first_event(self.calendar())->0;
            let id = e.1;
            let who = self.population()[id];
            Step::Transition {
                individual_id: id,
                state_id: who.state_id,
                ageclass: who.ageclass,
                needs_uniform: self.catalog()[who.state_id as int].infected().next_state_ids@.len()
                    != 1,
            }
        } else {
            Step::Done { quiescent: false }
        }
    }

    /// Decides what happens next when the clock may run until `t_until`, and
    /// advances the clock to it. No individual, count or queued event changes.
    /// The stratum changes only where a changepoint lies behind the clock
    /// after an event has been applied.
    pub fn simulate(&mut self, t_until: u64) -> (step: Step)
        requires
            old(self).wf(),
            old(self).spec_phase() == Phase::Ready,
            is_time(t_until),
        ensures
            final(self).wf(),
            final(self).same_setup(old(self)),
            final(self).same_people(old(self)),
            final(self).generator() == old(self).generator(),
            final(self).clock() >= old(self).clock(),
            step == old(self).outlook(t_until),
            match step {
                Step::Done { quiescent } => {
                    &&& quiescent ==> final(self).calendar().is_empty()
                    &&& final(self).clock() == if old(self).clock() < t_until {
                        t_until
                    } else {
                        old(self).clock()
                    }
                    &&& final(self).spec_phase() == Phase::Ready
                    &&& final(self).stratum() == old(self).stratum()
                    &&& final(self).contact_times() == old(self).contact_times()
                    &&& !final(self).check_owed()
                },
                Step::Intervention { index } => {
                    &&& final(self).clock() == old(self).clock()
                    &&& final(self).spec_phase() == Phase::ContactTimes
                    &&& final(self).stratum() == index
                    &&& final(self).contact_times() == Seq::new(
                        old(self).spec_n_ageclasses(),
                        |a: int| INFINITY,
                    )
                    &&& !final(self).check_owed()
                },
                Step::Contact { ageclass, needs_uniform } => {
                    &&& final(self).clock() == next_contact(old(self).contact_times()).0
                    &&& final(self).spec_phase() == Phase::Contact { ageclass }
                    &&& final(self).stratum() == old(self).stratum()
                    &&& final(self).contact_times() == old(self).contact_times()
                    &&& final(self).check_owed()
                },
                Step::Transition { individual_id, state_id, ageclass, needs_uniform } => {
                    &&& final(self).clock() == next_transition_time(old(self).calendar())
                    &&& final(self).spec_phase() == Phase::Transition {
                        individual_id,
                        t: final(self).clock(),
                    }
                    &&& final(self).stratum() == old(self).stratum()
                    &&& final(self).contact_times() == old(self).contact_times()
                    &&& final(self).check_owed()
                },
            },
    {
        if self.check_due {
            self.check_due = false;
            if self.intervention_index < self.n_strata - 1 && self.t
                > self.t_change[self.intervention_index] {
                self.intervention_index += 1;
                self.clear_contact();
                return Step::Intervention { index: self.intervention_index };
            }
        }
        if !(self.t < t_until) {
            return Step::Done { quiescent: false };
        }
        let (t_contact, ageclass_opt) = self.get_next_contact();
        let next = self.event_queue.peek_min_event();
        let t_transition = match next {
            Some(e) => e.t,
            None => INFINITY,
        };
        proof {
            lemma_next_contact(self.t_contact@);
            match next {
                Some(e) => {
                    crate::model::lemma_first_event(self.event_queue@, (e.t, e.individual_id));
                },
                None => {
                    crate::model::lemma_first_event_empty(self.event_queue@);
                },
            }
            assert(t_transition == next_transition_time(self.event_queue@));
            assert forall|id: usize| #[trigger]
                self.scheduled@.contains_key(id) implies self.scheduled@[id] >= t_transition
                && t_transition >= self.t by {
                assert(self.event_queue@.contains((self.scheduled@[id], id)));
            }
        }
        if !is_finite(t_contact) && !is_finite(t_transition) {
            self.t = t_until;
            return Step::Done { quiescent: true };
        }
        if t_contact < t_transition {
            if t_contact <= t_until {
                let ageclass = match ageclass_opt {
                    Some(a) => a,
                    None => vstd::pervasive::unreached(),
                };
                self.t = t_contact;
                self.check_due = true;
                self.phase = Phase::Contact { ageclass };
                return Step::Contact {
                    ageclass,
                    needs_uniform: crate::categorical::needs_uniform(self.n_ageclasses),
                };
            }
        } else if t_transition <= t_until {
            let e = match next {
                Some(e) => e,
                None => vstd::pervasive::unreached(),
            };
            assert(self.scheduled@.contains_key(e.individual_id));
            let who = match self.individuals.get(&e.individual_id) {
                Some(who) => *who,
                None => vstd::pervasive::unreached(),
            };
            let n_next = match &self.states[who.state_id].detail {
                StateDetail::Infected(Some(infected_state)) => infected_state.next_state_ids.len(),
                _ => vstd::pervasive::unreached(),
            };
            self.t = t_transition;
            self.check_due = true;
            self.phase = Phase::Transition { individual_id: e.individual_id, t: e.t };
            return Step::Transition {
                individual_id: e.individual_id,
                state_id: who.state_id,
                ageclass: who.ageclass,
                needs_uniform: crate::categorical::needs_uniform(n_next),
            };
        }
        self.t = t_until;
        Step::Done { quiescent: false }
    }

    /// The record of entry `(s, a)` of the tally at the present time.
    pub open spec fn count_row(&self, s: int, a: int) -> CountRow {
        CountRow {
            time: self.clock(),
            state_id: s as usize,
            ageclass: (a + 1) as i64,
            count: self.tally()[s][a] as i64,
        }
    }

    /// The tally as records, state by state and within a state by age class.
    pub fn write_counts(&self) -> (rows: Vec<CountRow>)
        requires
            self.wf(),
        ensures
            rows@.len() == self.catalog().len() * self.spec_n_ageclasses(),
            forall|s: int, a: int|
                0 <= s < self.catalog().len() && 0 <= a < self.spec_n_ageclasses() ==> rows@[s
                    * self.spec_n_ageclasses() + a] == #[trigger] self.count_row(s, a),
    {
        let n_states = self.states.len();
        let n = self.n_ageclasses;
        let mut rows: Vec<CountRow> = Vec::new();
        proof {
            self.counts.lemma_wf();
        }
        let mut s: usize = 0;
        while s < n_states
            invariant
                s <= n_states,
                n_states == self.states@.len(),
                n == self.n_ageclasses,
                self.wf(),
                rows@.len() == s * n,
                forall|r: int, c: int|
                    0 <= r < s && 0 <= c < n ==> rows@[r * n + c] == #[trigger] self.count_row(
                        r,
                        c,
                    ),
            decreases n_states - s,
        {
            let mut a: usize = 0;
            while a < n
                invariant
                    s < n_states,
                    a <= n,
                    n_states == self.states@.len(),
                    n == self.n_ageclasses,
                    self.wf(),
                    rows@.len() == s * n + a,
                    forall|r: int, c: int|
                        0 <= r < s && 0 <= c < n ==> rows@[r * n + c] == #[trigger] self.count_row(
                            r,
                            c,
                        ),
                    forall|c: int|
                        0 <= c < a ==> rows@[s * n + c] == #[trigger] self.count_row(s as int, c),
                decreases n - a,
            {
                let ghost prior = rows@;
                proof {
                    let m = self.counts@;
                    self.counts.lemma_wf();
                    assert(m[s as int].len() == n);
                    crate::sums::lemma_sum_bounds_entry(m[s as int], a as int);
                    crate::sums::lemma_grand_sum_bounds_row(m, s as int);
                    assert(self.states@[s as int].id == s);
                }
                let count = self.counts.get(self.states[s].id, a);
                rows.push(
                    CountRow {
                        time: self.t,
                        state_id: self.states[s].id,
                        ageclass: to_i64(a + 1),
                        count: to_i64(count),
                    },
                );
                proof {
                    assert forall|r: int, c: int| 0 <= r < s && 0 <= c < n implies rows@[r * n
                        + c] == #[trigger] self.count_row(r, c) by {
                        lemma_cell_index(r, c, s as int, n as int);
                        assert(prior[r * n + c] == self.count_row(r, c));
                    }
                    assert forall|c: int| 0 <= c < a + 1 implies rows@[s * n + c]
                        == #[trigger] self.count_row(s as int, c) by {
                        if c < a {
                            assert(prior[s * n + c] == self.count_row(s as int, c));
                        }
                    }
                }
                a += 1;
            }
            proof {
                assert((s + 1) * n == s * n + n) by (nonlinear_arith);
                assert forall|r: int, c: int| 0 <= r < s + 1 && 0 <= c < n implies rows@[r * n
                    + c] == #[trigger] self.count_row(r, c) by {
                    if r == s {
                        assert(rows@[s * n + c] == self.count_row(s as int, c));
                    }
                }
            }
            s += 1;
        }
        rows
    }
}

/// One of the rosters holds somebody.
pub open spec fn any_nonempty(rosters: Seq<VecSet<usize>>) -> bool {
    exists|b: int| 0 <= b < rosters.len() && (#[trigger] rosters[b])@.len() > 0
}

/// In a matrix of `n` columns laid out row after row, an entry of a row
/// before row `s` lies before the start of row `s`.
pub proof fn lemma_cell_index(r: int, c: int, s: int, n: int)
    requires
        0 <= r < s,
        0 <= c < n,
    ensures
        0 <= r * n + c < s * n,
{
    assert(r * n + n <= s * n) by (nonlinear_arith)
        requires
            r + 1 <= s,
            0 <= n,
    ;
    assert(0 <= r * n) by (nonlinear_arith)
        requires
            0 <= r,
            0 <= n,
    ;
}

} // verus!

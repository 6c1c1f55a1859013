use rand::Rng;
use rand_distr::{Distribution, Exp, Gamma};
use sirtools::config::{check_catalog, check_start};
use sirtools::counts::Counts;
use sirtools::rng::seeded;
use sirtools::simulation::{CountRow, Observation, Phase, Simulation, Step};
use sirtools::state::{InfectedState, State, StateDetail};
use sirtools::time::INFINITY;
use std::collections::BTreeMap;

fn key(x: f64) -> u64 {
    if x > 0.0 {
        x.to_bits()
    } else {
        0
    }
}

fn as_f64(k: u64) -> f64 {
    f64::from_bits(k)
}

fn infected(
    id: usize,
    name: &str,
    infectious: bool,
    mean_duration: f64,
    gamma_shape: f64,
    next_state_ids: Vec<usize>,
    cdfs: Vec<Vec<f64>>,
) -> State {
    let mut s = State::new_infected(id, name.to_string());
    s.detail = StateDetail::Infected(Some(InfectedState {
        infectious,
        mean_duration: mean_duration.to_bits(),
        gamma_shape: gamma_shape.to_bits(),
        next_state_ids,
        transition_cdfs: cdfs.iter().map(|row| row.iter().map(|p| key(*p)).collect()).collect(),
    }));
    s
}

/// S, R (final), I (infectious, leads to R) over `n_ageclasses` age classes.
fn sir(n_ageclasses: usize, mean_duration: f64) -> Vec<State> {
    vec![
        State::new_susceptible(0, "S".to_string()),
        State::new_final(1, "R".to_string()),
        infected(2, "I", true, mean_duration, 2.0, vec![1], vec![vec![]; n_ageclasses]),
    ]
}

struct Driver {
    beta: Vec<f64>,
    c: Vec<Vec<Vec<f64>>>,
    record: bool,
    log: Vec<Observation>,
    n_contacts: usize,
    n_transitions: usize,
    transmitter_ages: Vec<usize>,
    check_invariants: bool,
    initial_total: usize,
}

impl Driver {
    fn new(beta: Vec<f64>, c: Vec<Vec<Vec<f64>>>, record: bool) -> Self {
        Driver {
            beta,
            c,
            record,
            log: Vec::new(),
            n_contacts: 0,
            n_transitions: 0,
            transmitter_ages: Vec::new(),
            check_invariants: false,
            initial_total: 0,
        }
    }

    fn row(&self, sim: &Simulation, a: usize) -> Vec<f64> {
        let c = &self.c[sim.intervention_index()];
        (0..sim.n_ageclasses())
            .map(|b| c[a][b] * sim.n_infectious(b) as f64 / sim.ageclass_size(b) as f64)
            .collect()
    }

    fn row_cdf(&self, sim: &Simulation, a: usize) -> Vec<u64> {
        let row = self.row(sim, a);
        let total: f64 = row.iter().sum();
        let mut acc = 0.0;
        row.iter()
            .map(|w| {
                acc += w / total;
                key(acc)
            })
            .collect()
    }

    fn contact_times(&self, sim: &mut Simulation) -> Vec<u64> {
        let t = as_f64(sim.t());
        let mut times = Vec::new();
        for a in 0..sim.n_ageclasses() {
            let row_sum: f64 = self.row(sim, a).iter().sum();
            let rate = self.beta[sim.intervention_index()] * sim.susceptible(a) as f64 * row_sum;
            assert!(rate >= 0.0);
            if rate == 0.0 {
                times.push(INFINITY);
            } else {
                times.push(key(t + Exp::new(rate).unwrap().sample(&mut sim.rng)));
            }
        }
        times
    }

    fn sojourn(sim: &mut Simulation, state_id: usize) -> u64 {
        let t = as_f64(sim.t());
        match &sim.states()[state_id].detail {
            StateDetail::Infected(Some(law)) => {
                let shape = f64::from_bits(law.gamma_shape);
                let scale = f64::from_bits(law.mean_duration) / shape;
                key(t + Gamma::new(shape, scale).unwrap().sample(&mut sim.rng))
            }
            _ => panic!(),
        }
    }

    fn start(
        &mut self,
        n_ageclasses: usize,
        states: Vec<State>,
        initial: &[Vec<usize>],
        t_change: Vec<f64>,
        seed: u32,
    ) -> Simulation {
        let mut counts = Counts::new(states.len(), n_ageclasses);
        for (s, row) in initial.iter().enumerate() {
            for (a, n) in row.iter().enumerate() {
                counts.increment(s, a, *n);
            }
        }
        self.initial_total = counts.total();
        let mut rng = seeded(seed);
        let mut sojourns: Vec<Vec<Vec<u64>>> = Vec::new();
        for state in &states {
            let mut by_age = Vec::new();
            for a in 0..n_ageclasses {
                let mut ends = Vec::new();
                if let StateDetail::Infected(Some(law)) = &state.detail {
                    let shape = f64::from_bits(law.gamma_shape);
                    let scale = f64::from_bits(law.mean_duration) / shape;
                    for _ in 0..initial[state.id][a] {
                        ends.push(key(Gamma::new(shape, scale).unwrap().sample(&mut rng)));
                    }
                }
                by_age.push(ends);
            }
            sojourns.push(by_age);
        }
        let t_change: Vec<u64> = t_change.iter().map(|t| key(*t)).collect();
        let n_strata = self.beta.len();
        assert!(check_start(n_ageclasses, &states, 0, 2, &t_change, n_strata, &counts, &sojourns));
        let (mut sim, seen) = Simulation::new(
            n_ageclasses,
            states,
            0,
            2,
            t_change,
            n_strata,
            &counts,
            rng,
            &sojourns,
            self.record,
        );
        self.log.extend(seen);
        let times = self.contact_times(&mut sim);
        sim.update_contact(times);
        sim
    }

    fn boundary(&self, sim: &Simulation, t_before: u64) {
        if !self.check_invariants {
            return;
        }
        assert!(sim.t() >= t_before);
        let counts = sim.counts();
        assert_eq!(counts.total(), self.initial_total);
        let by_state: usize = (0..sim.states().len()).map(|s| counts.total_for_state(s)).sum();
        let by_age: usize = (0..sim.n_ageclasses()).map(|a| counts.total_for_ageclass(a)).sum();
        assert_eq!(by_state, counts.total());
        assert_eq!(by_age, counts.total());
        for a in 0..sim.n_ageclasses() {
            let infectious: usize = sim
                .states()
                .iter()
                .filter(|s| s.is_infectious())
                .map(|s| counts.get(s.id, a))
                .sum();
            assert_eq!(sim.n_infectious(a), infectious);
            assert!(sim.t_contact(a) >= sim.t());
        }
        assert_eq!(sim.n_queued(), sim.n_individuals());
        if let Some(t) = sim.t_next_transition() {
            assert!(t >= sim.t());
        }
    }

    fn run(&mut self, sim: &mut Simulation, t_until: f64) -> bool {
        loop {
            let t_before = sim.t();
            match sim.simulate(key(t_until)) {
                Step::Done { quiescent } => {
                    self.boundary(sim, t_before);
                    return quiescent;
                }
                Step::Intervention { .. } => {
                    let times = self.contact_times(sim);
                    sim.update_contact(times);
                }
                Step::Contact { ageclass, needs_uniform } => {
                    let cdf = self.row_cdf(sim, ageclass);
                    let u = if needs_uniform { key(sim.rng.gen::<f64>()) } else { 0 };
                    let transmitter = sim.draw_transmitter(u, &cdf).unwrap();
                    self.transmitter_ages.push(sim.individual(transmitter).unwrap().ageclass);
                    let end = Self::sojourn(sim, sim.initial_infected_state_id());
                    let seen = sim.do_contact_event(end, self.record);
                    self.log.extend(seen);
                    self.n_contacts += 1;
                    let times = self.contact_times(sim);
                    sim.update_contact(times);
                }
                Step::Transition { needs_uniform, .. } => {
                    let u = if needs_uniform { key(sim.rng.gen::<f64>()) } else { 0 };
                    let (next, needs_sojourn) = sim.draw_successor(u);
                    let end = if needs_sojourn { Self::sojourn(sim, next) } else { 0 };
                    let seen = sim.do_transition_event(end, self.record);
                    self.log.extend(seen);
                    self.n_transitions += 1;
                    let times = self.contact_times(sim);
                    sim.update_contact(times);
                }
            }
            self.boundary(sim, t_before);
        }
    }
}

fn rt_table(log: &[Observation]) -> BTreeMap<i64, (u64, u64)> {
    let mut table: BTreeMap<i64, (u64, u64)> = BTreeMap::new();
    for o in log {
        match o {
            Observation::RtPrimary { time } => {
                table.entry(as_f64(*time).ceil() as i64).or_insert((0, 0)).0 += 1;
            }
            Observation::RtSecondary { time } => {
                if let Some(row) = table.get_mut(&(as_f64(*time).ceil() as i64)) {
                    row.1 += 1;
                }
            }
            _ => {}
        }
    }
    table
}

#[test]
fn empty_epidemic_is_quiescent() {
    let mut d = Driver::new(vec![2.0], vec![vec![vec![1.0]]], true);
    let mut sim = d.start(1, sir(1, 5.0), &[vec![1000], vec![0], vec![0]], vec![], 7);
    assert_eq!(sim.t(), 0);
    let quiescent = d.run(&mut sim, 100.0);
    assert!(quiescent);
    assert_eq!(as_f64(sim.t()), 100.0);
    assert!(d.log.is_empty());
    assert_eq!(sim.n_individuals(), 0);
    assert_eq!(sim.counts().get(0, 0), 1000);
}

#[test]
fn after_quiescence_the_clock_stays_at_the_horizon() {
    let mut d = Driver::new(vec![2.0], vec![vec![vec![1.0]]], false);
    let mut sim = d.start(1, sir(1, 5.0), &[vec![10], vec![0], vec![0]], vec![], 7);
    assert!(d.run(&mut sim, 3.0));
    assert_eq!(sim.simulate(key(3.0)), Step::Done { quiescent: false });
    assert_eq!(as_f64(sim.t()), 3.0);
    assert_eq!(sim.phase(), Phase::Ready);
}

#[test]
fn seeding_numbers_individuals_in_state_and_age_order() {
    let states = vec![
        State::new_susceptible(0, "S".to_string()),
        State::new_final(1, "R".to_string()),
        infected(2, "E", false, 2.0, 2.0, vec![3], vec![vec![], vec![]]),
        infected(3, "I", true, 2.0, 2.0, vec![1], vec![vec![], vec![]]),
    ];
    let mut counts = Counts::new(4, 2);
    let initial = [vec![5, 6], vec![1, 0], vec![2, 1], vec![0, 2]];
    for s in 0..4 {
        for a in 0..2 {
            counts.increment(s, a, initial[s][a]);
        }
    }
    let sojourns = vec![
        vec![vec![], vec![]],
        vec![vec![], vec![]],
        vec![vec![key(1.5), key(2.5)], vec![key(3.5)]],
        vec![vec![], vec![key(4.5), key(0.5)]],
    ];
    assert!(check_start(2, &states, 0, 2, &vec![], 1, &counts, &sojourns));
    let (sim, seen) = Simulation::new(2, states, 0, 2, vec![], 1, &counts, seeded(1), &sojourns, true);
    assert_eq!(sim.phase(), Phase::ContactTimes);
    assert_eq!(sim.t(), 0);
    assert_eq!(sim.n_individuals(), 5);
    assert_eq!(sim.n_queued(), 5);
    let expected = [(1, 0, 2), (2, 0, 2), (3, 1, 2), (4, 1, 3), (5, 1, 3)];
    for (id, ageclass, state_id) in expected {
        let who = sim.individual(id).unwrap();
        assert_eq!((who.id, who.ageclass, who.state_id), (id, ageclass, state_id));
        assert_eq!(who.t_infected, None);
    }
    assert!(sim.individual(0).is_none());
    assert!(sim.individual(6).is_none());
    assert_eq!(
        seen,
        vec![
            Observation::Individual { time: 0, id: 1, ageclass: 0, state_id: 2 },
            Observation::Individual { time: 0, id: 2, ageclass: 0, state_id: 2 },
            Observation::Individual { time: 0, id: 3, ageclass: 1, state_id: 2 },
            Observation::Individual { time: 0, id: 4, ageclass: 1, state_id: 3 },
            Observation::Individual { time: 0, id: 5, ageclass: 1, state_id: 3 },
        ]
    );
    assert_eq!(sim.t_next_transition(), Some(key(0.5)));
    assert_eq!(sim.n_infectious(0), 0);
    assert_eq!(sim.n_infectious(1), 2);
    for s in 0..4 {
        for a in 0..2 {
            assert_eq!(sim.counts().get(s, a), initial[s][a]);
        }
    }
    assert_eq!(sim.get_next_contact(), (INFINITY, None));
}

#[test]
fn write_counts_is_one_based_in_age() {
    let mut d = Driver::new(vec![2.0], vec![vec![vec![1.0, 1.0], vec![1.0, 1.0]]], false);
    let sim = d.start(2, sir(2, 5.0), &[vec![10, 20], vec![3, 4], vec![1, 2]], vec![], 3);
    let rows = sim.write_counts();
    assert_eq!(
        rows,
        vec![
            CountRow { time: 0, state_id: 0, ageclass: 1, count: 10 },
            CountRow { time: 0, state_id: 0, ageclass: 2, count: 20 },
            CountRow { time: 0, state_id: 1, ageclass: 1, count: 3 },
            CountRow { time: 0, state_id: 1, ageclass: 2, count: 4 },
            CountRow { time: 0, state_id: 2, ageclass: 1, count: 1 },
            CountRow { time: 0, state_id: 2, ageclass: 2, count: 2 },
        ]
    );
}

#[test]
fn final_absorption() {
    let mut counts = Counts::new(3, 1);
    counts.increment(0, 0, 4);
    counts.increment(2, 0, 1);
    let sojourns = vec![vec![vec![]], vec![vec![]], vec![vec![key(2.5)]]];
    let (mut sim, _) =
        Simulation::new(1, sir(1, 5.0), 0, 2, vec![], 1, &counts, seeded(1), &sojourns, true);
    sim.update_contact(vec![INFINITY]);
    assert_eq!(
        sim.simulate(key(10.0)),
        Step::Transition { individual_id: 1, state_id: 2, ageclass: 0, needs_uniform: false }
    );
    assert_eq!(as_f64(sim.t()), 2.5);
    assert_eq!(sim.phase(), Phase::Transition { individual_id: 1, t: key(2.5) });
    assert_eq!(sim.draw_successor(0), (1, false));
    let seen = sim.do_transition_event(0, true);
    assert_eq!(
        seen,
        vec![Observation::Transition {
            time: key(2.5),
            id: 1,
            start_state_id: 2,
            end_state_id: 1
        }]
    );
    assert!(sim.individual(1).is_none());
    assert_eq!(sim.n_individuals(), 0);
    assert_eq!(sim.n_queued(), 0);
    assert_eq!(sim.n_infectious(0), 0);
    assert_eq!(sim.counts().get(1, 0), 1);
    assert_eq!(sim.counts().get(2, 0), 0);
    assert_eq!(sim.counts().total(), 5);
    assert_eq!(sim.phase(), Phase::ContactTimes);
    sim.update_contact(vec![INFINITY]);
    assert_eq!(sim.simulate(key(10.0)), Step::Done { quiescent: true });
    assert_eq!(as_f64(sim.t()), 10.0);
}

#[test]
fn a_transition_wins_a_tie_with_a_contact() {
    let mut counts = Counts::new(3, 1);
    counts.increment(0, 0, 4);
    counts.increment(2, 0, 1);
    let sojourns = vec![vec![vec![]], vec![vec![]], vec![vec![key(2.5)]]];
    let (mut sim, _) =
        Simulation::new(1, sir(1, 5.0), 0, 2, vec![], 1, &counts, seeded(1), &sojourns, false);
    sim.update_contact(vec![key(2.5)]);
    assert_eq!(sim.get_next_contact(), (key(2.5), Some(0)));
    assert!(matches!(sim.simulate(key(10.0)), Step::Transition { individual_id: 1, .. }));
}

#[test]
fn nothing_due_before_the_horizon_moves_the_clock_there() {
    let mut counts = Counts::new(3, 1);
    counts.increment(0, 0, 4);
    counts.increment(2, 0, 1);
    let sojourns = vec![vec![vec![]], vec![vec![]], vec![vec![key(2.5)]]];
    let (mut sim, _) =
        Simulation::new(1, sir(1, 5.0), 0, 2, vec![], 1, &counts, seeded(1), &sojourns, false);
    sim.update_contact(vec![key(1.75)]);
    assert_eq!(sim.simulate(key(1.0)), Step::Done { quiescent: false });
    assert_eq!(as_f64(sim.t()), 1.0);
    assert_eq!(sim.simulate(key(1.75)), Step::Contact { ageclass: 0, needs_uniform: false });
    assert_eq!(as_f64(sim.t()), 1.75);
}

#[test]
fn rt_binning() {
    // Age class 0 holds the susceptibles; the seeded individual is infectious
    // and of age class 1. The newly infected are not infectious at first.
    let states = vec![
        State::new_susceptible(0, "S".to_string()),
        State::new_final(1, "R".to_string()),
        infected(2, "E", false, 1.0, 2.0, vec![3], vec![vec![], vec![]]),
        infected(3, "I", true, 1000.0, 2.0, vec![1], vec![vec![], vec![]]),
    ];
    let mut counts = Counts::new(4, 2);
    counts.increment(0, 0, 10);
    counts.increment(3, 1, 1);
    let sojourns = vec![
        vec![vec![], vec![]],
        vec![vec![], vec![]],
        vec![vec![], vec![]],
        vec![vec![], vec![key(900.0)]],
    ];
    let (mut sim, _) = Simulation::new(2, states, 0, 2, vec![], 1, &counts, seeded(1), &sojourns, false);
    let mut log = Vec::new();

    // The seeded individual (id 1, age class 1) infects id 2 at t = 0.3.
    sim.update_contact(vec![key(0.3), INFINITY]);
    assert_eq!(sim.simulate(key(10.0)), Step::Contact { ageclass: 0, needs_uniform: true });
    assert_eq!(sim.draw_transmitter(key(0.5), &vec![key(0.0), key(1.0)]), Some(1));
    log.extend(sim.do_contact_event(key(1.0), false));
    assert_eq!(sim.individual(2).unwrap().t_infected, Some(key(0.3)));

    // Id 2 becomes infectious at t = 1.
    sim.update_contact(vec![key(4.7), INFINITY]);
    assert_eq!(
        sim.simulate(key(10.0)),
        Step::Transition { individual_id: 2, state_id: 2, ageclass: 0, needs_uniform: false }
    );
    assert_eq!(sim.draw_successor(0), (3, true));
    log.extend(sim.do_transition_event(key(900.0), false));
    assert_eq!(sim.n_infectious(0), 1);

    // Id 2, the only infectious individual of age class 0, infects at t = 4.7
    // and at t = 5.2.
    for t in [4.7, 5.2] {
        sim.update_contact(vec![key(t), INFINITY]);
        assert_eq!(sim.simulate(key(10.0)), Step::Contact { ageclass: 0, needs_uniform: true });
        assert_eq!(as_f64(sim.t()), t);
        assert_eq!(sim.draw_transmitter(key(0.5), &vec![key(1.0), key(1.0)]), Some(2));
        log.extend(sim.do_contact_event(key(800.0), false));
    }

    assert_eq!(
        log,
        vec![
            Observation::RtPrimary { time: key(0.3) },
            Observation::RtPrimary { time: key(4.7) },
            Observation::RtSecondary { time: key(0.3) },
            Observation::RtPrimary { time: key(5.2) },
            Observation::RtSecondary { time: key(0.3) },
        ]
    );
    // Primaries are counted where they happen; secondaries where the one who
    // caused them was infected.
    let table = rt_table(&log);
    assert_eq!(table.get(&1), Some(&(1, 2)));
    assert_eq!(table.get(&5), Some(&(1, 0)));
    assert_eq!(table.get(&6), Some(&(1, 0)));
    assert_eq!(table.len(), 3);
}

#[test]
fn seeded_transmitter_counts_no_secondary() {
    let mut counts = Counts::new(3, 1);
    counts.increment(0, 0, 3);
    counts.increment(2, 0, 1);
    let sojourns = vec![vec![vec![]], vec![vec![]], vec![vec![key(50.0)]]];
    let (mut sim, _) =
        Simulation::new(1, sir(1, 5.0), 0, 2, vec![], 1, &counts, seeded(1), &sojourns, true);
    sim.update_contact(vec![key(0.25)]);
    assert_eq!(sim.simulate(key(1.0)), Step::Contact { ageclass: 0, needs_uniform: false });
    assert_eq!(sim.phase(), Phase::Contact { ageclass: 0 });
    assert_eq!(sim.draw_transmitter(0, &vec![]), Some(1));
    assert_eq!(sim.phase(), Phase::ContactChosen { ageclass: 0, transmitter_id: 1 });
    let seen = sim.do_contact_event(key(7.0), true);
    assert_eq!(
        seen,
        vec![
            Observation::Individual { time: key(0.25), id: 2, ageclass: 0, state_id: 2 },
            Observation::Infection { time: key(0.25), infected_id: 2, transmitter_id: 1 },
            Observation::Transition {
                time: key(0.25),
                id: 2,
                start_state_id: 0,
                end_state_id: 2
            },
            Observation::RtPrimary { time: key(0.25) },
        ]
    );
    assert_eq!(sim.counts().get(0, 0), 2);
    assert_eq!(sim.counts().get(2, 0), 2);
    assert_eq!(sim.n_infectious(0), 2);
    assert_eq!(sim.n_queued(), 2);
    assert_eq!(sim.get_next_contact(), (INFINITY, None));
    let who = sim.individual(2).unwrap();
    assert_eq!((who.ageclass, who.state_id, who.t_infected), (0, 2, Some(key(0.25))));
}

#[test]
fn no_transmitter_where_nobody_is_infectious() {
    let states = sir(2, 5.0);
    let mut counts = Counts::new(3, 2);
    counts.increment(0, 0, 3);
    counts.increment(2, 0, 1);
    counts.increment(1, 1, 2);
    let sojourns =
        vec![vec![vec![], vec![]], vec![vec![], vec![]], vec![vec![key(50.0)], vec![]]];
    let (mut sim, _) = Simulation::new(2, states, 0, 2, vec![], 1, &counts, seeded(1), &sojourns, false);
    sim.update_contact(vec![key(0.25), INFINITY]);
    assert!(matches!(sim.simulate(key(1.0)), Step::Contact { ageclass: 0, .. }));
    // The draw falls through to the last age class, which has no infectious individual.
    assert_eq!(sim.draw_transmitter(key(0.9), &vec![key(0.5)]), None);
    // A distribution of the wrong length selects nobody either.
    assert_eq!(sim.draw_transmitter(key(0.1), &vec![]), None);
    assert_eq!(sim.phase(), Phase::Contact { ageclass: 0 });
    assert_eq!(sim.draw_transmitter(key(0.1), &vec![key(0.5)]), Some(1));
}

#[test]
fn invariants_hold_at_every_event() {
    let states = vec![
        State::new_susceptible(0, "S".to_string()),
        State::new_final(1, "R".to_string()),
        infected(2, "E", false, 1.0, 2.0, vec![3], vec![vec![], vec![]]),
        infected(
            3,
            "I",
            true,
            2.0,
            3.0,
            vec![1, 4],
            vec![vec![0.7], vec![0.5, 1.0]],
        ),
        infected(4, "H", false, 3.0, 1.5, vec![1], vec![vec![], vec![]]),
    ];
    assert!(check_catalog(&states, 2, 0, 2));
    let c = vec![vec![vec![1.0, 0.5], vec![0.5, 2.0]]];
    let mut d = Driver::new(vec![1.5], c, true);
    d.check_invariants = true;
    let initial = [vec![300, 200], vec![0, 0], vec![2, 1], vec![3, 0], vec![0, 1]];
    let mut sim = d.start(2, states, &initial, vec![], 11);
    let mut quiescent = false;
    let mut horizon = 0.0;
    while !quiescent && horizon < 200.0 {
        horizon += 1.0;
        quiescent = d.run(&mut sim, horizon);
    }
    assert!(quiescent);
    assert!(d.n_contacts > 50);
    assert!(d.n_transitions > d.n_contacts);
    assert_eq!(sim.n_individuals(), 0);
    assert_eq!(sim.counts().total(), 507);
    assert_eq!(sim.counts().total_for_ageclass(0), 305);
    assert_eq!(sim.counts().total_for_ageclass(1), 202);
    assert_eq!(sim.counts().get(0, 0) + sim.counts().get(0, 1) + d.n_contacts, 500);
}

fn si_run(seed: u32) -> (Vec<Observation>, usize, usize) {
    let mut d = Driver::new(vec![2.0], vec![vec![vec![1.0]]], true);
    let mut sim = d.start(1, sir(1, 1.0e9), &[vec![999], vec![0], vec![1]], vec![], seed);
    let mut t = 0.0;
    while t < 30.0 {
        t += 1.0;
        d.run(&mut sim, t);
    }
    (d.log, d.n_contacts, sim.counts().get(0, 0))
}

#[test]
fn si_without_recovery() {
    let (log, n_contacts, susceptible_left) = si_run(5);
    let table = rt_table(&log);
    let primaries: u64 = table.values().map(|row| row.0).sum();
    let secondaries: u64 = table.values().map(|row| row.1).sum();
    assert_eq!(primaries as usize, n_contacts);
    assert_eq!(n_contacts, 999 - susceptible_left);
    assert_eq!(susceptible_left, 0);
    // Every infection but those caused by the seeded individual is a secondary.
    assert!(secondaries <= primaries);
    // The buckets are reported in rising order.
    let mut last = 0;
    for o in &log {
        if let Observation::RtPrimary { time } = o {
            let bucket = as_f64(*time).ceil() as i64;
            assert!(bucket >= last);
            last = bucket;
        }
    }
}

#[test]
fn same_seed_same_observations() {
    let (a, na, _) = si_run(42);
    let (b, nb, _) = si_run(42);
    assert_eq!(na, nb);
    assert_eq!(a, b);
    let (c, _, _) = si_run(43);
    assert_ne!(a, c);
}

#[test]
fn two_strata_intervention() {
    let initial = [vec![100000], vec![0], vec![10]];
    let mut d = Driver::new(vec![3.0, 0.1], vec![vec![vec![1.0]], vec![vec![1.0]]], false);
    let mut sim = d.start(1, sir(1, 1.0e9), &initial, vec![1.0], 9);
    assert_eq!(sim.intervention_index(), 0);
    // Up to the changepoint the first stratum is active.
    d.run(&mut sim, 1.0);
    let early = d.n_contacts;
    assert!(early > 0);
    assert_eq!(sim.intervention_index(), 0);
    // The first event after it is applied, and then the second stratum is entered.
    let mut switched_at = None;
    let mut before_switch = 0;
    let mut after_switch = 0;
    loop {
        match sim.simulate(key(3.0)) {
            Step::Done { .. } => break,
            Step::Intervention { index } => {
                assert_eq!(index, 1);
                assert!(switched_at.is_none());
                switched_at = Some(as_f64(sim.t()));
                let times = d.contact_times(&mut sim);
                sim.update_contact(times);
            }
            Step::Contact { ageclass, .. } => {
                let transmitter = sim.draw_transmitter(0, &d.row_cdf(&sim, ageclass)).unwrap();
                assert!(sim.individual(transmitter).is_some());
                let end = Driver::sojourn(&mut sim, 2);
                sim.do_contact_event(end, false);
                if switched_at.is_none() {
                    before_switch += 1;
                } else {
                    after_switch += 1;
                }
                let times = d.contact_times(&mut sim);
                sim.update_contact(times);
            }
            Step::Transition { .. } => panic!("no transition is due this early"),
        }
    }
    let t_switch = switched_at.unwrap();
    assert!(t_switch > 1.0 && t_switch <= 3.0);
    assert_eq!(before_switch, 1);
    assert_eq!(sim.intervention_index(), 1);

    // Without the intervention the same two time units see far more infections.
    let mut control = Driver::new(vec![3.0], vec![vec![vec![1.0]]], false);
    let mut unchecked = control.start(1, sir(1, 1.0e9), &initial, vec![], 9);
    control.run(&mut unchecked, 1.0);
    let control_early = control.n_contacts;
    control.run(&mut unchecked, 3.0);
    let control_late = control.n_contacts - control_early;
    assert!(after_switch * 10 < control_late, "{} against {}", after_switch, control_late);
}

#[test]
fn transmitter_age_is_proportional() {
    // Both age classes have 1000 members; 99 infectious in class 0, one in class 1.
    let mut from_class_0 = 0usize;
    let n = 4000usize;
    for seed in 0..n {
        let c = vec![vec![vec![1.0, 1.0], vec![1.0, 1.0]]];
        let mut d = Driver::new(vec![1.0], c, false);
        let initial = [vec![901, 0], vec![0, 999], vec![99, 1]];
        let mut sim = d.start(2, sir(2, 1.0e9), &initial, vec![], seed as u32);
        while d.n_contacts == 0 {
            let horizon = as_f64(sim.t()) + 1.0;
            d.run(&mut sim, horizon);
        }
        if d.transmitter_ages[0] == 0 {
            from_class_0 += 1;
        }
    }
    let p = 0.99f64;
    let sigma = (p * (1.0 - p) / n as f64).sqrt();
    let fraction = from_class_0 as f64 / n as f64;
    assert!((fraction - p).abs() < 3.0 * sigma, "fraction = {}", fraction);
}

fn seir() -> Vec<State> {
    vec![
        State::new_susceptible(0, "S".to_string()),
        State::new_final(1, "R".to_string()),
        infected(2, "E", false, 1.0, 2.0, vec![3], vec![vec![]]),
        infected(3, "I", true, 1.0, 2.0, vec![1], vec![vec![]]),
    ]
}

#[test]
fn a_changepoint_takes_effect_only_once_the_clock_is_past_it() {
    let mut counts = Counts::new(4, 1);
    counts.increment(0, 0, 5);
    counts.increment(2, 0, 1);
    let sojourns = vec![vec![vec![]], vec![vec![]], vec![vec![key(5.0)]], vec![vec![]]];
    let (mut sim, _) =
        Simulation::new(1, seir(), 0, 2, vec![key(5.0)], 2, &counts, seeded(1), &sojourns, false);
    sim.update_contact(vec![INFINITY]);

    // An event exactly at the changepoint does not cross it.
    assert!(matches!(sim.simulate(key(10.0)), Step::Transition { individual_id: 1, .. }));
    assert_eq!(as_f64(sim.t()), 5.0);
    assert_eq!(sim.draw_successor(0), (3, true));
    sim.do_transition_event(key(6.0), false);
    sim.update_contact(vec![INFINITY]);
    assert_eq!(sim.n_infectious(0), 1);
    let step = sim.simulate(key(10.0));
    assert!(matches!(step, Step::Transition { individual_id: 1, state_id: 3, .. }));
    assert_eq!(sim.intervention_index(), 0);
    assert_eq!(as_f64(sim.t()), 6.0);

    // The next event lies beyond it.
    assert_eq!(sim.draw_successor(0), (1, false));
    sim.do_transition_event(0, false);
    sim.update_contact(vec![INFINITY]);
    assert_eq!(sim.simulate(key(10.0)), Step::Intervention { index: 1 });
    assert_eq!(as_f64(sim.t()), 6.0);
    assert_eq!(sim.intervention_index(), 1);
    assert_eq!(sim.phase(), Phase::ContactTimes);
    sim.update_contact(vec![INFINITY]);
    assert_eq!(sim.simulate(key(10.0)), Step::Done { quiescent: true });
    assert_eq!(as_f64(sim.t()), 10.0);
    assert_eq!(sim.intervention_index(), 1);
}

#[test]
fn a_changepoint_passed_without_an_event_waits_for_the_next_event() {
    let mut counts = Counts::new(4, 1);
    counts.increment(0, 0, 5);
    counts.increment(3, 0, 1);
    let sojourns = vec![vec![vec![]], vec![vec![]], vec![vec![]], vec![vec![key(20.0)]]];
    let t_change = vec![key(5.0), key(7.0)];
    let (mut sim, _) =
        Simulation::new(1, seir(), 0, 2, t_change, 3, &counts, seeded(1), &sojourns, false);
    sim.update_contact(vec![key(30.0)]);
    assert_eq!(sim.simulate(key(4.0)), Step::Done { quiescent: false });
    assert_eq!(sim.intervention_index(), 0);

    // Both changepoints lie before the horizon, but nothing happens before it.
    assert_eq!(sim.simulate(key(10.0)), Step::Done { quiescent: false });
    assert_eq!(as_f64(sim.t()), 10.0);
    assert_eq!(sim.intervention_index(), 0);
    assert_eq!(sim.phase(), Phase::Ready);
    assert_eq!(sim.get_next_contact(), (key(30.0), Some(0)));
    assert_eq!(sim.simulate(key(12.0)), Step::Done { quiescent: false });
    assert_eq!(sim.intervention_index(), 0);
    assert_eq!(as_f64(sim.t()), 12.0);

    // The next event is applied, and then one stratum is entered.
    assert!(matches!(sim.simulate(key(25.0)), Step::Transition { individual_id: 1, .. }));
    assert_eq!(as_f64(sim.t()), 20.0);
    assert_eq!(sim.intervention_index(), 0);
    assert_eq!(sim.draw_successor(0), (1, false));
    sim.do_transition_event(0, false);
    sim.update_contact(vec![INFINITY]);
    assert_eq!(sim.simulate(key(25.0)), Step::Intervention { index: 1 });
    assert_eq!(as_f64(sim.t()), 20.0);
    assert_eq!(sim.intervention_index(), 1);
    assert_eq!(sim.phase(), Phase::ContactTimes);
    assert_eq!(sim.get_next_contact(), (INFINITY, None));
    sim.update_contact(vec![INFINITY]);

    // The second changepoint is behind the clock too, but no further event follows.
    assert_eq!(sim.simulate(key(25.0)), Step::Done { quiescent: true });
    assert_eq!(as_f64(sim.t()), 25.0);
    assert_eq!(sim.intervention_index(), 1);
}

#[test]
fn successor_is_chosen_by_the_age_class_of_the_individual() {
    // From I, age class 0 goes to R below 0.25 and to D from there on; age
    // class 1 always goes to D.
    let states = vec![
        State::new_susceptible(0, "S".to_string()),
        State::new_final(1, "R".to_string()),
        State::new_final(2, "D".to_string()),
        infected(3, "I", true, 1.0, 2.0, vec![1, 2], vec![vec![0.25, 1.0], vec![0.0]]),
    ];
    assert!(check_catalog(&states, 2, 0, 3));
    let mut counts = Counts::new(4, 2);
    counts.increment(3, 0, 2);
    counts.increment(3, 1, 1);
    let sojourns = vec![
        vec![],
        vec![],
        vec![],
        vec![vec![key(1.0), key(2.0)], vec![key(3.0)]],
    ];
    let (mut sim, _) = Simulation::new(2, states, 0, 3, vec![], 1, &counts, seeded(1), &sojourns, true);
    let mut ends = Vec::new();
    for u in [0.2, 0.25, 0.1] {
        sim.update_contact(vec![INFINITY, INFINITY]);
        match sim.simulate(key(10.0)) {
            Step::Transition { needs_uniform, .. } => assert!(needs_uniform),
            other => panic!("{:?}", other),
        }
        let (next, needs_sojourn) = sim.draw_successor(key(u));
        assert!(!needs_sojourn);
        ends.push(next);
        sim.do_transition_event(0, true);
    }
    assert_eq!(ends, vec![1, 2, 2]);
    assert_eq!(sim.counts().get(1, 0), 1);
    assert_eq!(sim.counts().get(2, 0), 1);
    assert_eq!(sim.counts().get(2, 1), 1);
    assert_eq!(sim.n_individuals(), 0);
    assert_eq!(sim.n_infectious(0), 0);
    assert_eq!(sim.n_infectious(1), 0);
}

#[test]
fn the_transmitter_is_the_roster_entry_in_the_slot() {
    // Three infectious individuals of age class 0 (ids 1 to 3), two of age
    // class 1 (ids 4 and 5).
    let states = sir(2, 5.0);
    let mut counts = Counts::new(3, 2);
    counts.increment(0, 0, 7);
    counts.increment(2, 0, 3);
    counts.increment(2, 1, 2);
    let sojourns = vec![
        vec![vec![], vec![]],
        vec![vec![], vec![]],
        vec![vec![key(50.0), key(51.0), key(52.0)], vec![key(53.0), key(54.0)]],
    ];
    let (mut sim, _) =
        Simulation::new(2, states, 0, 2, vec![], 1, &counts, seeded(1), &sojourns, false);
    assert_eq!(
        (sim.infectious_at(0, 0), sim.infectious_at(0, 1), sim.infectious_at(0, 2)),
        (1, 2, 3)
    );
    assert_eq!((sim.infectious_at(1, 0), sim.infectious_at(1, 1)), (4, 5));

    let cdf = vec![key(0.6), key(1.0)];
    assert_eq!(sim.transmitter_age(key(0.59), &cdf), Some(0));
    assert_eq!(sim.transmitter_age(key(0.6), &cdf), Some(1));
    assert_eq!(sim.transmitter_age(key(0.6), &vec![key(0.6)]), Some(1));
    assert_eq!(sim.transmitter_age(key(0.1), &vec![]), None);
    assert_eq!(sim.transmitter_age(key(0.1), &vec![key(0.6), key(1.0), key(1.0)]), None);

    sim.update_contact(vec![key(0.5), INFINITY]);
    assert_eq!(sim.simulate(key(1.0)), Step::Contact { ageclass: 0, needs_uniform: true });
    assert_eq!(sim.choose_transmitter(1, 1), 5);
    assert_eq!(sim.phase(), Phase::ContactChosen { ageclass: 0, transmitter_id: 5 });
    let seen = sim.do_contact_event(key(9.0), true);
    assert_eq!(seen[1], Observation::Infection { time: key(0.5), infected_id: 6, transmitter_id: 5 });
    // The new individual joins the roster of its age class at the end.
    assert_eq!(sim.infectious_at(0, 3), 6);
}

#[test]
fn the_drawn_transmitter_is_in_the_roster_of_the_age_class_drawn() {
    let mut counts = Counts::new(3, 2);
    counts.increment(0, 0, 7);
    counts.increment(2, 0, 3);
    counts.increment(2, 1, 2);
    let sojourns = vec![
        vec![vec![], vec![]],
        vec![vec![], vec![]],
        vec![vec![key(50.0), key(51.0), key(52.0)], vec![key(53.0), key(54.0)]],
    ];
    let mut seen = std::collections::BTreeSet::new();
    for seed in 0..200 {
        let (mut sim, _) = Simulation::new(
            2,
            sir(2, 5.0),
            0,
            2,
            vec![],
            1,
            &counts,
            seeded(seed),
            &sojourns,
            false,
        );
        sim.update_contact(vec![key(0.5), INFINITY]);
        assert!(matches!(sim.simulate(key(1.0)), Step::Contact { ageclass: 0, .. }));
        // The same generator, advanced in step, says which slot is drawn.
        let mut reference = seeded(seed);
        let slot = rand_distr::Distribution::sample(
            &rand::distributions::Uniform::new(0, 2usize),
            &mut reference,
        );
        let id = sim.draw_transmitter(key(0.9), &vec![key(0.6), key(1.0)]).unwrap();
        assert_eq!(id, [4, 5][slot]);
        seen.insert(id);
    }
    assert_eq!(seen.into_iter().collect::<Vec<_>>(), vec![4, 5]);
}

#[test]
fn counts_of_the_engine_have_its_shape() {
    let mut d = Driver::new(vec![2.0], vec![vec![vec![1.0, 1.0], vec![1.0, 1.0]]], false);
    let sim = d.start(2, sir(2, 5.0), &[vec![10, 20], vec![3, 4], vec![1, 2]], vec![], 3);
    assert_eq!(sim.counts().shape(), (3, 2));
    assert_eq!(sim.counts().get(2, 1), 2);
}

//! The quantities in which the engine's rules are stated.

use crate::queue::earliest;
use crate::state::State;
use crate::sums::with_entry;
use crate::time::INFINITY;
use vstd::prelude::*;

verus! {

/// One tracked individual.
#[derive(Debug, Clone, Copy)]
pub struct Individual {
    pub id: usize,
    pub ageclass: usize,
    pub state_id: usize,
    /// When the individual was infected; absent for the seeded ones.
    pub t_infected: Option<u64>,
}

impl Individual {
    /// An individual with these particulars.
    pub fn new(id: usize, ageclass: usize, state_id: usize, t_infected: Option<u64>) -> (i: Self)
        ensures
            i == (Individual { id, ageclass, state_id, t_infected }),
    {
        Individual { id, ageclass, state_id, t_infected }
    }

    /// The same individual in another state.
    pub fn update_state(&self, state_id: usize) -> (i: Self)
        ensures
            i == (Individual { state_id, ..*self }),
    {
        Self { state_id, ..*self }
    }
}

/// The live individuals that are in state `s` and age class `a`.
pub open spec fn cell(individuals: Map<usize, Individual>, s: int, a: int) -> Set<usize> {
    individuals.dom().filter(
        |id: usize| individuals[id].state_id == s && individuals[id].ageclass == a,
    )
}

/// The number of individuals of age class `a` counted in infectious states.
pub open spec fn infectious_sum(m: Seq<Seq<usize>>, states: Seq<State>, a: int) -> int
    decreases m.len(),
{
    if m.len() == 0 {
        0
    } else {
        infectious_sum(m.drop_last(), states, a) + if states[m.len() - 1].spec_is_infectious() {
            m.last()[a] as int
        } else {
            0
        }
    }
}

/// The earliest of the next-contact times and the first age class that has
/// it; infinity and no age class if no contact is pending.
pub open spec fn next_contact(t_contact: Seq<u64>) -> (u64, Option<int>)
    decreases t_contact.len(),
{
    if t_contact.len() == 0 {
        (INFINITY, None)
    } else {
        let before = next_contact(t_contact.drop_last());
        if t_contact.last() < before.0 {
            (t_contact.last(), Some(t_contact.len() - 1))
        } else {
            before
        }
    }
}

/// The earliest queued event, if the queue holds any.
pub open spec fn first_event(queue: Set<(u64, usize)>) -> Option<(u64, usize)> {
    if exists|e: (u64, usize)| earliest(queue, e) {
        Some(choose|e: (u64, usize)| earliest(queue, e))
    } else {
        None
    }
}

/// The time of the earliest queued event; infinity if the queue is empty.
pub open spec fn next_transition_time(queue: Set<(u64, usize)>) -> u64 {
    match first_event(queue) {
        Some(e) => e.0,
        None => INFINITY,
    }
}

/// No contact time is earlier than the earliest; the age class named has
/// that time, which is then finite, and no age class before it has it.
pub proof fn lemma_next_contact(t_contact: Seq<u64>)
    ensures
        next_contact(t_contact).0 <= INFINITY,
        forall|a: int| 0 <= a < t_contact.len() ==> next_contact(t_contact).0 <= t_contact[a],
        match next_contact(t_contact).1 {
            Some(a) => {
                &&& 0 <= a < t_contact.len()
                &&& t_contact[a] == next_contact(t_contact).0
                &&& next_contact(t_contact).0 < INFINITY
                &&& forall|b: int| 0 <= b < a ==> next_contact(t_contact).0 < t_contact[b]
            },
            None => next_contact(t_contact).0 == INFINITY,
        },
    decreases t_contact.len(),
{
    if t_contact.len() > 0 {
        let head = t_contact.drop_last();
        lemma_next_contact(head);
        let best = next_contact(t_contact).0;
        assert forall|a: int| 0 <= a < t_contact.len() implies best <= t_contact[a] by {
            if a < head.len() {
                assert(head[a] == t_contact[a]);
            }
        }
        match next_contact(t_contact).1 {
            Some(a) => {
                assert forall|b: int| 0 <= b < a implies best < t_contact[b] by {
                    assert(head[b] == t_contact[b]);
                }
                if a < head.len() {
                    assert(head[a] == t_contact[a]);
                }
            },
            None => {},
        }
    }
}

/// A set has at most one earliest event.
pub proof fn lemma_earliest_unique(queue: Set<(u64, usize)>, e1: (u64, usize), e2: (u64, usize))
    requires
        earliest(queue, e1),
        earliest(queue, e2),
    ensures
        e1 == e2,
{
}

/// An event known to be the earliest is the first event.
pub proof fn lemma_first_event(queue: Set<(u64, usize)>, e: (u64, usize))
    requires
        earliest(queue, e),
    ensures
        first_event(queue) == Some(e),
{
    lemma_earliest_unique(queue, e, choose|x: (u64, usize)| earliest(queue, x));
}

/// The empty queue has no first event.
pub proof fn lemma_first_event_empty(queue: Set<(u64, usize)>)
    requires
        queue.is_empty(),
    ensures
        first_event(queue) is None,
{
}

/// Replacing entry `(s, a)` moves the infectious count of age class `a` by the
/// difference if `s` is infectious, and moves no other age class's.
pub proof fn lemma_infectious_sum_with_entry(
    m: Seq<Seq<usize>>,
    states: Seq<State>,
    s: int,
    a: int,
    v: usize,
    b: int,
)
    requires
        0 <= s < m.len(),
        0 <= a < m[s].len(),
        0 <= b < m[s].len(),
    ensures
        infectious_sum(with_entry(m, s, a, v), states, b) == infectious_sum(m, states, b) + if b
            == a && states[s].spec_is_infectious() {
            v - m[s][a]
        } else {
            0
        },
    decreases m.len(),
{
    let n = with_entry(m, s, a, v);
    if s == m.len() - 1 {
        assert(n.drop_last() =~= m.drop_last());
    } else {
        lemma_infectious_sum_with_entry(m.drop_last(), states, s, a, v, b);
        assert(n.drop_last() =~= with_entry(m.drop_last(), s, a, v));
    }
}

/// A zero matrix counts no infectious individual.
pub proof fn lemma_infectious_sum_zeros(m: Seq<Seq<usize>>, states: Seq<State>, a: int)
    requires
        forall|s: int| 0 <= s < m.len() ==> (#[trigger] m[s])[a] == 0,
    ensures
        infectious_sum(m, states, a) == 0,
    decreases m.len(),
{
    if m.len() > 0 {
        lemma_infectious_sum_zeros(m.drop_last(), states, a);
    }
}

/// The cells of a finite population are finite.
pub proof fn lemma_cell_finite(individuals: Map<usize, Individual>, s: int, a: int)
    requires
        individuals.dom().finite(),
    ensures
        cell(individuals, s, a).finite(),
        cell(individuals, s, a).len() <= individuals.dom().len(),
{
    vstd::set_lib::lemma_len_subset(cell(individuals, s, a), individuals.dom());
}

/// Adding a new individual adds it to its own cell and to no other.
pub proof fn lemma_cell_insert(
    individuals: Map<usize, Individual>,
    id: usize,
    who: Individual,
    s: int,
    a: int,
)
    requires
        individuals.dom().finite(),
        !individuals.contains_key(id),
    ensures
        cell(individuals.insert(id, who), s, a).len() == cell(individuals, s, a).len() + if s
            == who.state_id && a == who.ageclass {
            1int
        } else {
            0int
        },
{
    lemma_cell_finite(individuals, s, a);
    let after = cell(individuals.insert(id, who), s, a);
    if s == who.state_id && a == who.ageclass {
        assert(after =~= cell(individuals, s, a).insert(id));
    } else {
        assert(after =~= cell(individuals, s, a));
    }
}

/// Removing an individual removes it from its own cell and from no other.
pub proof fn lemma_cell_remove(individuals: Map<usize, Individual>, id: usize, s: int, a: int)
    requires
        individuals.dom().finite(),
        individuals.contains_key(id),
    ensures
        cell(individuals.remove(id), s, a).len() == cell(individuals, s, a).len() - if s
            == individuals[id].state_id && a == individuals[id].ageclass {
            1int
        } else {
            0int
        },
{
    lemma_cell_finite(individuals, s, a);
    let after = cell(individuals.remove(id), s, a);
    if s == individuals[id].state_id && a == individuals[id].ageclass {
        assert(cell(individuals, s, a).contains(id));
        assert(after =~= cell(individuals, s, a).remove(id));
    } else {
        assert(after =~= cell(individuals, s, a));
    }
}

/// Moving an individual to another state moves it between the two cells.
pub proof fn lemma_cell_update(
    individuals: Map<usize, Individual>,
    id: usize,
    who: Individual,
    s: int,
    a: int,
)
    requires
        individuals.dom().finite(),
        individuals.contains_key(id),
    ensures
        cell(individuals.insert(id, who), s, a).len() == cell(individuals, s, a).len() - (if s
            == individuals[id].state_id && a == individuals[id].ageclass {
            1int
        } else {
            0int
        }) + (if s == who.state_id && a == who.ageclass {
            1int
        } else {
            0int
        }),
{
    lemma_cell_remove(individuals, id, s, a);
    lemma_cell_insert(individuals.remove(id), id, who, s, a);
    assert(individuals.remove(id).insert(id, who) =~= individuals.insert(id, who));
}

/// A live individual is counted in its cell.
pub proof fn lemma_cell_member(individuals: Map<usize, Individual>, id: usize)
    requires
        individuals.dom().finite(),
        individuals.contains_key(id),
    ensures
        cell(individuals, individuals[id].state_id as int, individuals[id].ageclass as int).len()
            >= 1,
{
    let s = individuals[id].state_id as int;
    let a = individuals[id].ageclass as int;
    let c = cell(individuals, s, a);
    lemma_cell_finite(individuals, s, a);
    assert(c.contains(id));
    if c.len() == 0 {
        assert(c =~= Set::empty());
    }
}

} // verus!

//! The calendar of pending transition events, ordered by time and then by individual.

use std::collections::BTreeSet;
use vstd::prelude::*;

verus! {

/// A pending transition: the individual `individual_id` leaves its state at time `t`.
#[derive(Debug, Clone, Copy, PartialEq, Eq, Structural)]
pub struct Event {
    pub t: u64,
    pub individual_id: usize,
}

impl Event {
    /// The event that `individual_id` leaves its state at time `t`.
    pub fn new(t: u64, individual_id: usize) -> (e: Self)
        ensures
            e.t == t,
            e.individual_id == individual_id,
    {
        Self { t, individual_id }
    }
}

/// `a` comes no later than `b`: earlier time first, and on equal times the
/// smaller individual first.
pub open spec fn no_later(a: (u64, usize), b: (u64, usize)) -> bool {
    a.0 < b.0 || (a.0 == b.0 && a.1 <= b.1)
}

/// `e` is the earliest member of `s`.
pub open spec fn earliest(s: Set<(u64, usize)>, e: (u64, usize)) -> bool {
    s.contains(e) && forall|x: (u64, usize)| s.contains(x) ==> no_later(e, x)
}

/// Some event of `s` falls at time `t`, and none falls before it.
pub open spec fn earliest_time(s: Set<(u64, usize)>, t: u64) -> bool {
    &&& exists|id: usize| #[trigger] s.contains((t, id))
    &&& forall|x: (u64, usize)| s.contains(x) ==> t <= x.0
}

/// The pending events, as a set ordered by `(t, individual_id)`.
pub struct EventQueue {
    set: BTreeSet<(u64, usize)>,
}

impl View for EventQueue {
    type V = Set<(u64, usize)>;

    closed spec fn view(&self) -> Set<(u64, usize)> {
        self.set@
    }
}

/// Calls `BTreeSet::first`, which std documents as returning the minimum of
/// the set, or nothing when the set is empty; tuples are ordered component by
/// component, first to last.
#[verifier::external_body]
fn first(set: &BTreeSet<(u64, usize)>) -> (r: Option<&(u64, usize)>)
    ensures
        r is None <==> set@.is_empty(),
        r is Some ==> earliest(set@, *r->0),
{
    set.first()
}

impl EventQueue {
    /// The empty calendar.
    pub fn new() -> (q: Self)
        ensures
            q@ == Set::<(u64, usize)>::empty(),
    {
        Self { set: BTreeSet::new() }
    }

    /// The number of pending events.
    pub fn len(&self) -> (n: usize)
        ensures
            n == self@.len(),
    {
        proof {
            broadcast use vstd::std_specs::btree::group_btree_axioms;
            assert(vstd::laws_cmp::obeys_cmp::<(u64, usize)>());
        }
        self.set.len()
    }

    /// Enters the event `(t, individual_id)`.
    pub fn insert(&mut self, t: u64, individual_id: usize)
        ensures
            final(self)@ == old(self)@.insert((t, individual_id)),
    {
        self.set.insert((t, individual_id));
    }

    /// Withdraws the event `(t, individual_id)`; says whether it was there.
    pub fn remove(&mut self, t: u64, individual_id: usize) -> (was_there: bool)
        ensures
            final(self)@ == old(self)@.remove((t, individual_id)),
            was_there == old(self)@.contains((t, individual_id)),
    {
        let key = (t, individual_id);
        self.set.remove(&key)
    }

    /// The time of the earliest event, if there is one.
    pub fn peek_min(&self) -> (r: Option<u64>)
        ensures
            r is None <==> self@.is_empty(),
            r is Some ==> earliest_time(self@, r->0),
    {
        match first(&self.set) {
            Some(e) => {
                assert(self@.contains((e.0, e.1)));
                Some(e.0)
            },
            None => None,
        }
    }

    /// The earliest event, if there is one, without withdrawing it.
    pub fn peek_min_event(&self) -> (r: Option<Event>)
        ensures
            r is None <==> self@.is_empty(),
            r is Some ==> earliest(self@, (r->0.t, r->0.individual_id)),
    {
        match first(&self.set) {
            Some(e) => Some(Event::new(e.0, e.1)),
            None => None,
        }
    }

    /// Withdraws and returns the earliest event, if there is one.
    pub fn pop_min(&mut self) -> (r: Option<Event>)
        ensures
            r is None <==> old(self)@.is_empty(),
            r is None ==> final(self)@ == old(self)@,
            r is Some ==> earliest(old(self)@, (r->0.t, r->0.individual_id)),
            r is Some ==> final(self)@ == old(self)@.remove((r->0.t, r->0.individual_id)),
    {
        let earliest = match first(&self.set) {
            Some(e) => Event::new(e.0, e.1),
            None => {
                return None;
            },
        };
        self.set.remove(&(earliest.t, earliest.individual_id));
        Some(earliest)
    }
}

} // verus!

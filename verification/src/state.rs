//! The catalog of disease states.

use vstd::prelude::*;

verus! {

/// What an infected state does: whether it transmits, how long it lasts and
/// where it leads.
#[derive(Debug, Clone)]
pub struct InfectedState {
    /// Whether individuals in this state transmit.
    pub infectious: bool,
    /// Mean sojourn time, as the bit pattern of its double. The engine carries
    /// it for whoever draws the sojourn.
    pub mean_duration: u64,
    /// Shape of the gamma-distributed sojourn time, as the bit pattern of its double.
    pub gamma_shape: u64,
    /// The states that can follow, in order.
    pub next_state_ids: Vec<usize>,
    /// For each age class, the cumulative probabilities of the successors,
    /// with or without the final one.
    pub transition_cdfs: Vec<Vec<u64>>,
}

/// The kind of a state.
#[derive(Debug, Clone)]
pub enum StateDetail {
    Susceptible,
    Final,
    /// An infected state; its parameters are absent until they have been linked.
    Infected(Option<InfectedState>),
}

/// One disease state.
#[derive(Debug, Clone)]
pub struct State {
    pub id: usize,
    pub name: String,
    pub detail: StateDetail,
}

impl State {
    /// The state is the susceptible state.
    pub open spec fn spec_is_susceptible(&self) -> bool {
        self.detail is Susceptible
    }

    /// The state is final: whoever enters it stays and is no longer tracked.
    pub open spec fn spec_is_final(&self) -> bool {
        self.detail is Final
    }

    /// The state is an infected state, linked or not.
    pub open spec fn spec_is_infected(&self) -> bool {
        self.detail is Infected
    }

    /// The state is infected, its parameters are present and it transmits.
    pub open spec fn spec_is_infectious(&self) -> bool {
        match self.detail {
            StateDetail::Infected(Some(infected_state)) => infected_state.infectious,
            _ => false,
        }
    }

    /// The state is infected and its parameters are present.
    pub open spec fn linked(&self) -> bool {
        self.detail matches StateDetail::Infected(Some(_))
    }

    /// The parameters of a linked infected state.
    pub open spec fn infected(&self) -> InfectedState
        recommends
            self.linked(),
    {
        self.detail->Infected_0->0
    }

    /// The susceptible state.
    pub fn new_susceptible(id: usize, name: String) -> (s: Self)
        ensures
            s.id == id,
            s.name == name,
            s.detail is Susceptible,
    {
        Self { id, name, detail: StateDetail::Susceptible }
    }

    /// A final state.
    pub fn new_final(id: usize, name: String) -> (s: Self)
        ensures
            s.id == id,
            s.name == name,
            s.detail is Final,
    {
        Self { id, name, detail: StateDetail::Final }
    }

    /// An infected state whose parameters are still to be linked.
    pub fn new_infected(id: usize, name: String) -> (s: Self)
        ensures
            s.id == id,
            s.name == name,
            s.detail == StateDetail::Infected(None),
    {
        Self { id, name, detail: StateDetail::Infected(None) }
    }

    /// Whether the state is the susceptible state.
    #[verifier::when_used_as_spec(spec_is_susceptible)]
    pub fn is_susceptible(&self) -> (b: bool)
        ensures
            b == self.spec_is_susceptible(),
    {
        match self.detail {
            StateDetail::Susceptible => true,
            _ => false,
        }
    }

    /// Whether the state is final.
    #[verifier::when_used_as_spec(spec_is_final)]
    pub fn is_final(&self) -> (b: bool)
        ensures
            b == self.spec_is_final(),
    {
        match self.detail {
            StateDetail::Final => true,
            _ => false,
        }
    }

    /// Whether the state is an infected state.
    #[verifier::when_used_as_spec(spec_is_infected)]
    pub fn is_infected(&self) -> (b: bool)
        ensures
            b == self.spec_is_infected(),
    {
        match self.detail {
            StateDetail::Infected(_) => true,
            _ => false,
        }
    }

    /// Whether individuals in this state transmit.
    #[verifier::when_used_as_spec(spec_is_infectious)]
    pub fn is_infectious(&self) -> (b: bool)
        ensures
            b == self.spec_is_infectious(),
    {
        if let StateDetail::Infected(Some(infected_state)) = &self.detail {
            infected_state.infectious
        } else {
            false
        }
    }
}

/// State `i` of the catalog is a linked infected state whose successors exist
/// and are not susceptible, with one list of cumulative probabilities per age
/// class, each as long as the successor list or one shorter.
pub open spec fn infected_wf(states: Seq<State>, n_ageclasses: nat, i: int) -> bool {
    &&& states[i].linked()
    &&& states[i].infected().next_state_ids@.len() >= 1
    &&& states[i].infected().transition_cdfs@.len() == n_ageclasses
    &&& forall|k: int|
        0 <= k < states[i].infected().next_state_ids@.len() ==> {
            &&& (#[trigger] states[i].infected().next_state_ids@[k]) < states.len()
            &&& !states[states[i].infected().next_state_ids@[k] as int].spec_is_susceptible()
        }
    &&& forall|a: int|
        0 <= a < n_ageclasses ==> {
            ||| (#[trigger] states[i].infected().transition_cdfs@[a])@.len()
                == states[i].infected().next_state_ids@.len()
            ||| states[i].infected().transition_cdfs@[a]@.len()
                == states[i].infected().next_state_ids@.len() - 1
        }
}

/// The catalog is usable by the engine: every state carries its own index as
/// id, `susceptible` is the one susceptible state, `initial_infected` is an
/// infected state, and every infected state is well formed.
pub open spec fn catalog_wf(
    states: Seq<State>,
    n_ageclasses: nat,
    susceptible: int,
    initial_infected: int,
) -> bool {
    &&& 0 <= susceptible < states.len()
    &&& 0 <= initial_infected < states.len()
    &&& states[initial_infected].spec_is_infected()
    &&& forall|i: int| 0 <= i < states.len() ==> (#[trigger] states[i]).id == i
    &&& forall|i: int|
        0 <= i < states.len() ==> ((#[trigger] states[i]).spec_is_susceptible() <==> i
            == susceptible)
    &&& forall|i: int|
        0 <= i < states.len() && (#[trigger] states[i]).spec_is_infected() ==> infected_wf(
            states,
            n_ageclasses,
            i,
        )
}

} // verus!

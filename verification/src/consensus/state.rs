//! The cluster state that heartbeats and publishes share.

use vstd::prelude::*;

verus! {

/// The cluster state of one metadata server: the term it is in, the index
/// of the latest directory change, and the number of voting peers.
pub struct State {
    term: u64,
    change_idx: u64,
    cluster_size: u16,
}

/// What a [`State`] holds, as numbers.
pub struct StateView {
    pub term: nat,
    pub change_index: nat,
    pub cluster_size: nat,
}

impl View for State {
    type V = StateView;

    closed spec fn view(&self) -> StateView {
        StateView {
            term: self.term as nat,
            change_index: self.change_idx as nat,
            cluster_size: self.cluster_size as nat,
        }
    }
}

/// One access to the cluster state.
pub enum Access {
    /// The term is read.
    Term,
    /// The change index is read.
    ChangeIndex,
    /// The change index is increased, and the new index returned.
    IncreaseChangeIndex,
    /// The term is advanced to the given one.
    AdvanceTerm(nat),
}

impl StateView {
    /// The state after the change index has been increased once.
    pub open spec fn increased(self) -> StateView {
        StateView { change_index: self.change_index + 1, ..self }
    }

    /// The state after the term has been advanced to `term`: the later of
    /// the two terms.
    pub open spec fn advanced(self, term: nat) -> StateView {
        StateView { term: if term > self.term { term } else { self.term }, ..self }
    }

    /// The state after one access.
    pub open spec fn after(self, access: Access) -> StateView {
        match access {
            Access::Term | Access::ChangeIndex => self,
            Access::IncreaseChangeIndex => self.increased(),
            Access::AdvanceTerm(term) => self.advanced(term),
        }
    }

    /// The state after a run of accesses, one after the other. Every access
    /// takes the state for itself, so whatever callers there are, their
    /// accesses form such a run.
    pub open spec fn after_all(self, accesses: Seq<Access>) -> StateView
        decreases accesses.len(),
    {
        if accesses.len() == 0 {
            self
        } else {
            self.after_all(accesses.drop_last()).after(accesses.last())
        }
    }
}

/// Neither the term nor the change index ever goes back, and the size of
/// the cluster stays what it is: after any run of accesses, and at any
/// point of it compared with any earlier point.
pub proof fn state_never_goes_back(state: StateView, accesses: Seq<Access>, earlier: int, later: int)
    requires
        0 <= earlier <= later <= accesses.len(),
    ensures
        state.after_all(accesses.take(earlier)).term <= state.after_all(accesses.take(later)).term,
        state.after_all(accesses.take(earlier)).change_index <= state.after_all(
            accesses.take(later),
        ).change_index,
        state.after_all(accesses.take(later)).cluster_size == state.cluster_size,
    decreases later,
{
    if later > 0 {
        assert(accesses.take(later).drop_last() == accesses.take(later - 1));
        if earlier < later {
            state_never_goes_back(state, accesses, earlier, later - 1);
        } else {
            state_never_goes_back(state, accesses, earlier - 1, later - 1);
        }
    }
}

/// Of any two increases of the change index, the later returns the greater
/// index: the indices that are returned are pairwise distinct, and ordered
/// as the calls are. `first` and `second` are the places of the two calls
/// in a run of accesses; what a call returns is the change index of the
/// state that it leaves.
pub proof fn change_indices_increase(
    state: StateView,
    accesses: Seq<Access>,
    first: int,
    second: int,
)
    requires
        0 <= first < second < accesses.len(),
        accesses[first] is IncreaseChangeIndex,
        accesses[second] is IncreaseChangeIndex,
    ensures
        state.after_all(accesses.take(first + 1)).change_index < state.after_all(
            accesses.take(second + 1),
        ).change_index,
{
    assert(accesses.take(second + 1).drop_last() == accesses.take(second));
    state_never_goes_back(state, accesses, first + 1, second);
}

impl State {
    /// The state of a server that starts in term 0, before any change, in
    /// a cluster of `cluster_size` voting peers.
    pub fn new(cluster_size: u16) -> (state: State)
        ensures
            state@ == (StateView { term: 0, change_index: 0, cluster_size: cluster_size as nat }),
    {
        State { term: 0, change_idx: 0, cluster_size }
    }

    /// The current term.
    pub fn term(&self) -> (term: u64)
        ensures
            term == self@.term,
    {
        self.term
    }

    /// The index of the latest change, which this leaves as it is.
    pub fn change_index(&self) -> (index: u64)
        ensures
            index == self@.change_index,
    {
        self.change_idx
    }

    /// The number of voting peers in the cluster.
    pub fn cluster_size(&self) -> (size: u16)
        ensures
            size == self@.cluster_size,
    {
        self.cluster_size
    }

    /// Advances the change index by one and returns the new index, which no
    /// earlier call has returned.
    pub fn increase_change_index(&mut self) -> (index: u64)
        requires
            old(self)@.change_index < u64::MAX,
        ensures
            final(self)@ == old(self)@.increased(),
            index == final(self)@.change_index,
    {
        self.change_idx = self.change_idx + 1;
        self.change_idx
    }

    /// Advances the term to `term`. The term never goes back: a `term` that
    /// is not ahead of the current one leaves the state as it is.
    pub fn advance_term(&mut self, term: u64)
        ensures
            final(self)@ == old(self)@.advanced(term as nat),
    {
        if term > self.term {
            self.term = term;
        }
    }
}

} // verus!

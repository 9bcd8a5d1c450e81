//! The messages that the leader sends.

use vstd::prelude::*;

verus! {

/// A message from the leader to a peer. `C` is the description of one
/// directory change.
#[derive(Clone, Debug, PartialEq, Eq)]
pub enum ToRs<C> {
    /// The leader is alive, in the given term, and the latest change has
    /// the given index. No answer is expected.
    HeartBeat(u64, u64),
    /// A directory change, with the term in which it was published and the
    /// index that was allotted to it.
    DirectoryChange(u64, u64, C),
}

impl<C> ToRs<C> {
    /// The term that the message carries.
    pub open spec fn term(self) -> nat {
        match self {
            ToRs::HeartBeat(term, _) => term as nat,
            ToRs::DirectoryChange(term, _, _) => term as nat,
        }
    }

    /// The change index that the message carries.
    pub open spec fn change_index(self) -> nat {
        match self {
            ToRs::HeartBeat(_, index) => index as nat,
            ToRs::DirectoryChange(_, index, _) => index as nat,
        }
    }
}

} // verus!

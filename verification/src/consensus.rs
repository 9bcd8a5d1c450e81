//! Leadership: the cluster state and the heartbeat that proves the leader
//! alive.

use vstd::prelude::*;
use crate::consensus::state::{State, StateView};
use crate::server_conn::protocol::ToRs;

pub mod state;

verus! {

/// After this many milliseconds without a heartbeat a peer may doubt that
/// the leader is alive. It also bounds each send of a published change.
pub const HB_TIMEOUT_MS: u64 = 2000;

/// The heartbeats of one cycle are given up after this many milliseconds,
/// however many of them are still under way.
pub const HB_FAN_OUT_MS: u64 = 500;

/// What the heartbeat loop has just seen happen.
#[derive(Clone, Copy, Debug, PartialEq, Eq, Structural)]
pub enum HeartbeatEvent {
    /// The loop has started.
    Started,
    /// The heartbeats of this cycle have all ended, or been given up when
    /// the bound on their fan-out expired.
    FanOutEnded { timed_out: bool },
    /// The pause between two cycles is over.
    Rested,
}

/// What the heartbeat loop is to do next.
#[derive(Debug, PartialEq, Eq)]
pub enum HeartbeatAction<C> {
    /// Send `message` to every peer in the directory, each over a
    /// connection of its own that is dropped afterwards, all at once, and
    /// give up after `within_ms` milliseconds those sends that have not
    /// ended by then.
    FanOut { message: ToRs<C>, within_ms: u64 },
    /// Wait for `ms` milliseconds.
    Rest { ms: u64 },
}

/// The step that follows `event` when the cluster is in `state`: a cycle
/// begins with the fan-out of a heartbeat that carries the term and the
/// change index of that moment, and ends, however the fan-out went, with a
/// pause of half the heartbeat timeout.
pub open spec fn heartbeat_action<C>(state: StateView, event: HeartbeatEvent) -> HeartbeatAction<
    C,
> {
    match event {
        HeartbeatEvent::Started | HeartbeatEvent::Rested => HeartbeatAction::FanOut {
            message: ToRs::HeartBeat(state.term as u64, state.change_index as u64),
            within_ms: HB_FAN_OUT_MS,
        },
        HeartbeatEvent::FanOutEnded { .. } => HeartbeatAction::Rest { ms: HB_TIMEOUT_MS / 2 },
    }
}

/// Decides the next step of the heartbeat loop. The caller performs the
/// step and comes back with the event that ended it, for as long as the
/// process lives.
///
/// The step depends on the cluster state and the event alone. Heartbeats
/// have nothing to do with the connections over which changes are
/// published: they neither use nor change them.
pub fn maintain_heartbeat<C>(state: &State, event: HeartbeatEvent) -> (action: HeartbeatAction<C>)
    ensures
        action == heartbeat_action::<C>(state@, event),
{
    match event {
        HeartbeatEvent::Started | HeartbeatEvent::Rested => HeartbeatAction::FanOut {
            message: ToRs::HeartBeat(state.term(), state.change_index()),
            within_ms: HB_FAN_OUT_MS,
        },
        HeartbeatEvent::FanOutEnded { .. } => HeartbeatAction::Rest { ms: HB_TIMEOUT_MS / 2 },
    }
}

/// No peer, however slow, delays a cycle: the fan-out is given no more than
/// [`HB_FAN_OUT_MS`], and whether it ended by itself or had to be given up,
/// the same pause of half the heartbeat timeout follows, after which the
/// next heartbeat goes out, with the term and the change index of that
/// later moment.
pub proof fn slow_peers_delay_no_cycle<C>(state: StateView, later: StateView, timed_out: bool)
    ensures
        heartbeat_action::<C>(state, HeartbeatEvent::Started) == (HeartbeatAction::FanOut {
            message: ToRs::<C>::HeartBeat(state.term as u64, state.change_index as u64),
            within_ms: 500,
        }),
        heartbeat_action::<C>(state, HeartbeatEvent::FanOutEnded { timed_out }) == (
        HeartbeatAction::<C>::Rest { ms: 1000 }),
        heartbeat_action::<C>(later, HeartbeatEvent::Rested) == (HeartbeatAction::FanOut {
            message: ToRs::<C>::HeartBeat(later.term as u64, later.change_index as u64),
            within_ms: 500,
        }),
{
}

} // verus!

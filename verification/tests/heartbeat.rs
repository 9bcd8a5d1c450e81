use meta_server::consensus::state::State;
use meta_server::consensus::{
    maintain_heartbeat, HeartbeatAction, HeartbeatEvent, HB_FAN_OUT_MS, HB_TIMEOUT_MS,
};
use meta_server::server_conn::addr::Host;
use meta_server::server_conn::protocol::ToRs;
use meta_server::server_conn::to_readserv::{stamp, ReadServers};

#[test]
fn timing_constants() {
    assert_eq!(HB_TIMEOUT_MS, 2000);
    assert_eq!(HB_FAN_OUT_MS, 500);
}

#[test]
fn loop_starts_with_a_fan_out() {
    let state = State::new(3);
    let action: HeartbeatAction<()> = maintain_heartbeat(&state, HeartbeatEvent::Started);
    assert_eq!(
        action,
        HeartbeatAction::FanOut { message: ToRs::HeartBeat(0, 0), within_ms: 500 }
    );
}

#[test]
fn heartbeat_carries_term_and_change_index() {
    let mut state = State::new(3);
    state.advance_term(6);
    state.increase_change_index();
    state.increase_change_index();
    let action: HeartbeatAction<()> = maintain_heartbeat(&state, HeartbeatEvent::Rested);
    assert_eq!(
        action,
        HeartbeatAction::FanOut { message: ToRs::HeartBeat(6, 2), within_ms: 500 }
    );
    // Looking does not change the state.
    assert_eq!(state.term(), 6);
    assert_eq!(state.change_index(), 2);
}

#[test]
fn fan_out_that_ended_in_time_is_followed_by_half_the_timeout() {
    let state = State::new(3);
    let action: HeartbeatAction<()> =
        maintain_heartbeat(&state, HeartbeatEvent::FanOutEnded { timed_out: false });
    assert_eq!(action, HeartbeatAction::Rest { ms: 1000 });
}

#[test]
fn fan_out_that_was_given_up_is_followed_by_the_same_pause() {
    let state = State::new(3);
    let action: HeartbeatAction<()> =
        maintain_heartbeat(&state, HeartbeatEvent::FanOutEnded { timed_out: true });
    assert_eq!(action, HeartbeatAction::Rest { ms: 1000 });
}

#[test]
fn cycle_with_a_slow_peer_waits_no_longer_than_bound_and_pause() {
    // One peer never answers: the fan-out is given up at its bound.
    let state = State::new(3);
    let mut waited_ms = 0;
    let mut event = HeartbeatEvent::Started;
    let mut fan_outs = 0;
    while fan_outs < 2 {
        let action: HeartbeatAction<()> = maintain_heartbeat(&state, event);
        event = match action {
            HeartbeatAction::FanOut { within_ms, .. } => {
                fan_outs += 1;
                if fan_outs == 2 {
                    break;
                }
                waited_ms += within_ms;
                HeartbeatEvent::FanOutEnded { timed_out: true }
            }
            HeartbeatAction::Rest { ms } => {
                waited_ms += ms;
                HeartbeatEvent::Rested
            }
        };
    }
    assert_eq!(waited_ms, 1500);
}

#[test]
fn each_cycle_reads_the_state_anew() {
    let mut state = State::new(3);
    let first: HeartbeatAction<()> = maintain_heartbeat(&state, HeartbeatEvent::Started);
    let _ = stamp(&mut state, ());
    state.advance_term(2);
    let second: HeartbeatAction<()> = maintain_heartbeat(&state, HeartbeatEvent::Rested);
    assert_eq!(first, HeartbeatAction::FanOut { message: ToRs::HeartBeat(0, 0), within_ms: 500 });
    assert_eq!(second, HeartbeatAction::FanOut { message: ToRs::HeartBeat(2, 1), within_ms: 500 });
}

#[test]
fn heartbeat_is_the_same_when_every_pooled_connection_dies() {
    let state = State::new(3);
    let mut servers: ReadServers<u8> = ReadServers::new(4000);
    let connected = vec![Ok((Host::V4(1), 1)), Ok((Host::V4(2), 2)), Ok((Host::V4(3), 3))];
    servers.publish(&state, &Vec::new(), connected);
    assert_eq!(servers.pooled().len(), 3);
    let with_pool: HeartbeatAction<()> = maintain_heartbeat(&state, HeartbeatEvent::Rested);

    let sent = vec![Err(Host::V4(1)), Err(Host::V4(2)), Err(Host::V4(3))];
    servers.publish(&state, &sent, Vec::new());
    assert_eq!(servers.pooled().len(), 0);
    let without_pool: HeartbeatAction<()> = maintain_heartbeat(&state, HeartbeatEvent::Rested);

    assert_eq!(with_pool, without_pool);
    assert_eq!(
        without_pool,
        HeartbeatAction::FanOut { message: ToRs::HeartBeat(0, 0), within_ms: 500 }
    );
}

use meta_server::consensus::state::State;
use meta_server::server_conn::addr::Host;
use meta_server::server_conn::protocol::ToRs;
use meta_server::server_conn::to_readserv::{stamp, PubResult, ReadServers};

#[test]
fn new_state_starts_before_any_change() {
    let state = State::new(5);
    assert_eq!(state.term(), 0);
    assert_eq!(state.change_index(), 0);
    assert_eq!(state.cluster_size(), 5);
}

#[test]
fn increased_indices_are_distinct_and_ordered() {
    let mut state = State::new(3);
    let mut returned = Vec::new();
    for _ in 0..100 {
        returned.push(state.increase_change_index());
    }
    for (n, index) in returned.iter().enumerate() {
        assert_eq!(*index, n as u64 + 1);
    }
    for pair in returned.windows(2) {
        assert!(pair[0] < pair[1]);
    }
    assert_eq!(state.change_index(), 100);
}

#[test]
fn reading_leaves_the_change_index() {
    let mut state = State::new(3);
    assert_eq!(state.increase_change_index(), 1);
    assert_eq!(state.change_index(), 1);
    assert_eq!(state.change_index(), 1);
    assert_eq!(state.term(), 0);
    assert_eq!(state.increase_change_index(), 2);
}

#[test]
fn increases_interleaved_with_term_changes_stay_ordered() {
    let mut state = State::new(3);
    let a = state.increase_change_index();
    state.advance_term(7);
    let b = state.increase_change_index();
    state.advance_term(9);
    let c = state.increase_change_index();
    assert_eq!((a, b, c), (1, 2, 3));
    assert_eq!(state.term(), 9);
}

#[test]
fn term_advances() {
    let mut state = State::new(5);
    state.advance_term(3);
    assert_eq!(state.term(), 3);
    state.advance_term(u64::MAX);
    assert_eq!(state.term(), u64::MAX);
}

#[test]
fn term_never_goes_back() {
    let mut state = State::new(5);
    state.advance_term(8);
    state.advance_term(2);
    assert_eq!(state.term(), 8);
    state.advance_term(8);
    assert_eq!(state.term(), 8);
    state.advance_term(0);
    assert_eq!(state.term(), 8);
    assert_eq!(state.change_index(), 0);
    assert_eq!(state.cluster_size(), 5);
}

#[test]
fn stamp_carries_the_term_and_the_next_index() {
    let mut state = State::new(5);
    state.advance_term(4);
    state.increase_change_index();
    let message = stamp(&mut state, "mkdir /a");
    assert_eq!(message, ToRs::DirectoryChange(4, 2, "mkdir /a"));
    assert_eq!(state.change_index(), 2);
    assert_eq!(state.term(), 4);
}

#[test]
fn stamps_never_share_an_index() {
    let mut state = State::new(5);
    let first = stamp(&mut state, 'a');
    state.advance_term(1);
    let second = stamp(&mut state, 'b');
    assert_eq!(first, ToRs::DirectoryChange(0, 1, 'a'));
    assert_eq!(second, ToRs::DirectoryChange(1, 2, 'b'));
}

#[test]
fn publish_takes_one_index_whatever_the_result() {
    let mut state = State::new(3);
    let mut servers: ReadServers<u8> = ReadServers::new(4000);

    // Nobody is reached.
    let before = state.change_index();
    let _ = stamp(&mut state, ());
    let result = servers.publish(&state, &Vec::new(), vec![Err(()), Err(())]);
    assert_eq!(result, PubResult::ReachedMinority);
    assert_eq!(state.change_index(), before + 1);

    // A majority is reached.
    let before = state.change_index();
    let _ = stamp(&mut state, ());
    let connected = vec![Ok((Host::V4(1), 1)), Ok((Host::V4(2), 2))];
    let result = servers.publish(&state, &Vec::new(), connected);
    assert_eq!(result, PubResult::ReachedMajority);
    assert_eq!(state.change_index(), before + 1);

    // All are reached.
    let before = state.change_index();
    let _ = stamp(&mut state, ());
    let sent = vec![Ok(Host::V4(1)), Ok(Host::V4(2))];
    let result = servers.publish(&state, &sent, vec![Ok((Host::V4(3), 3))]);
    assert_eq!(result, PubResult::ReachedAll);
    assert_eq!(state.change_index(), before + 1);
    assert_eq!(state.change_index(), 3);
}

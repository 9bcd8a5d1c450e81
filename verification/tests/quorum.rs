use meta_server::consensus::state::State;
use meta_server::server_conn::addr::Host;
use meta_server::server_conn::to_readserv::{PubResult, ReadServers};

/// Publishes once to a fresh pool in a cluster of `cluster_size`, with
/// `reached` read-servers that take the message over a new connection.
fn publish_reaching(reached: u32, cluster_size: u16) -> PubResult {
    let state = State::new(cluster_size);
    let mut servers: ReadServers<u32> = ReadServers::new(4000);
    let connected = (0..reached).map(|n| Ok((Host::V4(n), n))).collect();
    servers.publish(&state, &Vec::new(), connected)
}

#[test]
fn five_peers_all_reached() {
    assert_eq!(PubResult::of_reached(5, 5), PubResult::ReachedAll);
    assert_eq!(publish_reaching(5, 5), PubResult::ReachedAll);
}

#[test]
fn five_peers_three_reached_is_a_majority() {
    assert_eq!(PubResult::of_reached(3, 5), PubResult::ReachedMajority);
    assert_eq!(publish_reaching(3, 5), PubResult::ReachedMajority);
}

#[test]
fn five_peers_two_reached_is_a_minority() {
    assert_eq!(PubResult::of_reached(2, 5), PubResult::ReachedMinority);
    assert_eq!(publish_reaching(2, 5), PubResult::ReachedMinority);
}

#[test]
fn five_peers_none_reached_is_a_minority() {
    assert_eq!(PubResult::of_reached(0, 5), PubResult::ReachedMinority);
    assert_eq!(publish_reaching(0, 5), PubResult::ReachedMinority);
}

#[test]
fn four_peers_three_reached_is_a_majority() {
    assert_eq!(PubResult::of_reached(3, 4), PubResult::ReachedMajority);
    assert_eq!(publish_reaching(3, 4), PubResult::ReachedMajority);
}

#[test]
fn four_peers_two_reached_is_a_minority() {
    assert_eq!(PubResult::of_reached(2, 4), PubResult::ReachedMinority);
    assert_eq!(publish_reaching(2, 4), PubResult::ReachedMinority);
}

#[test]
fn four_peers_four_reached_is_all() {
    assert_eq!(PubResult::of_reached(4, 4), PubResult::ReachedAll);
}

#[test]
fn one_peer_is_all_or_a_minority() {
    assert_eq!(PubResult::of_reached(1, 1), PubResult::ReachedAll);
    assert_eq!(PubResult::of_reached(0, 1), PubResult::ReachedMinority);
}

#[test]
fn more_reached_than_voting_peers_is_a_majority() {
    assert_eq!(PubResult::of_reached(6, 5), PubResult::ReachedMajority);
    assert_eq!(publish_reaching(6, 5), PubResult::ReachedMajority);
}

#[test]
fn count_is_not_cut_to_the_width_of_the_cluster_size() {
    // 65541 = 65536 + 5: equal to the cluster size only once cut to 16 bits.
    assert_eq!(PubResult::of_reached(65541, 5), PubResult::ReachedMajority);
    assert_eq!(PubResult::of_reached(65536, 5), PubResult::ReachedMajority);
}

#[test]
fn empty_cluster_is_all_reached_by_none() {
    assert_eq!(PubResult::of_reached(0, 0), PubResult::ReachedAll);
}

#[test]
fn largest_cluster() {
    assert_eq!(PubResult::of_reached(65535, 65535), PubResult::ReachedAll);
    assert_eq!(PubResult::of_reached(32768, 65535), PubResult::ReachedMajority);
    assert_eq!(PubResult::of_reached(32767, 65535), PubResult::ReachedMinority);
}

//! Publishing directory changes to the read-servers.

use vstd::prelude::*;
use crate::consensus::state::{State, StateView};
use crate::server_conn::addr::{Addr, Host};
use crate::server_conn::protocol::ToRs;
use crate::server_conn::pool::{
    distinct_hosts, extended, failed_hosts_push, has_host, on_port, pool_of, pool_of_distinct,
    pool_of_dom, pool_of_push, pool_of_remove, pool_of_update, pruned, untried_hosts,
};

verus! {

/// How large a part of the cluster one publish attempt reached.
#[derive(Clone, Copy, Debug, PartialEq, Eq, Structural)]
pub enum PubResult {
    ReachedAll,
    ReachedMajority,
    ReachedMinority,
}

/// The number of peers that is not yet a majority of `cluster_size`: half of
/// it, rounded down.
pub open spec fn majority_threshold(cluster_size: nat) -> nat {
    cluster_size / 2
}

/// The classification of an attempt that reached `reached` read-servers in a
/// cluster of `cluster_size` voting peers.
pub open spec fn pub_result(reached: nat, cluster_size: nat) -> PubResult {
    if reached == cluster_size {
        PubResult::ReachedAll
    } else if reached > majority_threshold(cluster_size) {
        PubResult::ReachedMajority
    } else {
        PubResult::ReachedMinority
    }
}

impl PubResult {
    /// Classifies an attempt by the number of read-servers it reached.
    pub fn of_reached(reached: usize, cluster_size: u16) -> (result: PubResult)
        ensures
            result == pub_result(reached as nat, cluster_size as nat),
    {
        let majority: u16 = cluster_size / 2;
        if reached == cluster_size as usize {
            PubResult::ReachedAll
        } else if reached > majority as usize {
            PubResult::ReachedMajority
        } else {
            PubResult::ReachedMinority
        }
    }
}

/// How one send of a message ended, bounded by the send timeout.
#[derive(Clone, Copy, Debug, PartialEq, Eq, Structural)]
pub enum SendOutcome {
    /// The message was handed to the connection in time.
    Delivered,
    /// The connection reported an error.
    Failed,
    /// The send timeout expired first.
    TimedOut,
}

impl SendOutcome {
    /// The report on a send over the pooled connection to `host`: the host
    /// as `Ok` if the message was delivered, and as `Err`, which costs the
    /// connection its place in the pool, if the send failed or timed out.
    pub fn report(self, host: Host) -> (report: Result<Host, Host>)
        ensures
            report == if self == SendOutcome::Delivered {
                Ok::<Host, Host>(host)
            } else {
                Err::<Host, Host>(host)
            },
    {
        match self {
            SendOutcome::Delivered => Ok(host),
            SendOutcome::Failed => Err(host),
            SendOutcome::TimedOut => Err(host),
        }
    }
}

/// How the attempt to reach a read-server over a new connection ended.
pub enum ConnectOutcome<C> {
    /// No connection could be opened.
    Unreachable,
    /// The connection was opened, and reported an error on the send.
    Failed,
    /// The connection was opened, and the send timeout expired.
    TimedOut,
    /// The message was handed to this new connection in time.
    Delivered(C),
}

impl<C> ConnectOutcome<C> {
    /// The report on an attempt to reach `host` over a new connection: the
    /// host with its connection if the message was delivered, and an error
    /// that keeps nothing of the attempt if it was not.
    pub fn report(self, host: Host) -> (report: Result<(Host, C), ()>)
        ensures
            report == match self {
                ConnectOutcome::Delivered(conn) => Ok::<(Host, C), ()>((host, conn)),
                _ => Err::<(Host, C), ()>(()),
            },
    {
        match self {
            ConnectOutcome::Delivered(conn) => Ok((host, conn)),
            ConnectOutcome::Unreachable => Err(()),
            ConnectOutcome::Failed => Err(()),
            ConnectOutcome::TimedOut => Err(()),
        }
    }
}

/// The message that publishes `change` from `state`: it carries the term
/// of `state` and the index that follows its change index.
pub open spec fn stamped<P>(state: StateView, change: P) -> ToRs<P> {
    ToRs::DirectoryChange(state.term as u64, (state.change_index + 1) as u64, change)
}

/// Stamps `change` for publication with the current term and a change index
/// of its own. This uses up one change index, whatever becomes of the
/// message afterwards.
pub fn stamp<P>(state: &mut State, change: P) -> (message: ToRs<P>)
    requires
        old(state)@.change_index < u64::MAX,
    ensures
        message == stamped(old(state)@, change),
        final(state)@ == old(state)@.increased(),
{
    let term = state.term();
    let index = state.increase_change_index();
    ToRs::DirectoryChange(term, index, change)
}

/// Every publication takes exactly one change index, and takes it for
/// good: the message carries the index that follows the latest one, with
/// the term as it stands, and the state is left at that index, whichever
/// read-servers the message then reaches. What concludes the publication,
/// [`ReadServers::publish`], only reads the state.
pub proof fn publication_takes_one_change_index<P>(state: StateView, change: P)
    requires
        state.term <= u64::MAX,
        state.change_index < u64::MAX,
    ensures
        stamped(state, change) is DirectoryChange,
        stamped(state, change).term() == state.term,
        stamped(state, change).change_index() == state.change_index + 1,
        state.increased().change_index == state.change_index + 1,
        state.increased().term == state.term,
        state.increased().cluster_size == state.cluster_size,
{
}

/// The connection pool of the publisher: at most one connection of type `C`
/// for each read-server, and the port on which read-servers listen.
#[derive(Debug)]
pub struct Inner<C> {
    port: u16,
    conns: Vec<(Host, C)>,
}

impl<C> View for Inner<C> {
    type V = Map<Host, C>;

    /// The pooled connections, by host.
    closed spec fn view(&self) -> Map<Host, C> {
        pool_of(self.conns@)
    }
}

/// The place of the entry for `host` among `conns`, if there is one.
fn position<C>(conns: &Vec<(Host, C)>, host: Host) -> (at: Option<usize>)
    ensures
        match at {
            Some(i) => i < conns.len() && conns[i as int].0 == host,
            None => !has_host(conns@, host),
        },
{
    let mut i: usize = 0;
    while i < conns.len()
        invariant
            i <= conns.len(),
            forall|j: int| 0 <= j < i ==> conns[j].0 != host,
        decreases conns.len() - i,
    {
        if conns[i].0 == host {
            return Some(i);
        }
        i += 1;
    }
    None
}

/// Whether one of `targets` is on `host`.
fn targets_host(targets: &Vec<Addr>, host: Host) -> (found: bool)
    ensures
        found <==> exists|i: int| 0 <= i < targets.len() && targets[i].host == host,
{
    let mut i: usize = 0;
    while i < targets.len()
        invariant
            i <= targets.len(),
            forall|j: int| 0 <= j < i ==> targets[j].host != host,
        decreases targets.len() - i,
    {
        if targets[i].host == host {
            return true;
        }
        i += 1;
    }
    false
}

impl<C> Inner<C> {
    #[verifier::type_invariant]
    spec fn one_connection_per_host(&self) -> bool {
        distinct_hosts(self.conns@)
    }

    /// The port on which every read-server listens.
    pub closed spec fn spec_port(&self) -> u16 {
        self.port
    }

    /// An empty pool for read-servers that listen on `port`.
    pub fn new(port: u16) -> (inner: Self)
        ensures
            inner@ == Map::<Host, C>::empty(),
            inner.port() == port,
    {
        Inner { port, conns: Vec::new() }
    }

    /// The port on which every read-server listens.
    #[verifier::when_used_as_spec(spec_port)]
    pub fn port(&self) -> (port: u16)
        ensures
            port == self.port(),
    {
        self.port
    }

    /// The pooled connections, one entry for each host.
    pub fn conns(&self) -> (conns: &Vec<(Host, C)>)
        ensures
            distinct_hosts(conns@),
            pool_of(conns@) == self@,
    {
        proof {
            use_type_invariant(self);
        }
        &self.conns
    }

    /// The addresses to connect to for the read-servers that the directory
    /// lists and the pool has no connection to: the read-server port on each
    /// such host, once for each host.
    pub fn untried(&self, addresses: &Vec<Addr>) -> (targets: Vec<Addr>)
        ensures
            targets@ == on_port(untried_hosts(self@.dom(), addresses@), self.port()),
    {
        let ghost pooled = self@.dom();
        let mut targets: Vec<Addr> = Vec::new();
        let mut i: usize = 0;
        while i < addresses.len()
            invariant
                i <= addresses.len(),
                pooled == self@.dom(),
                targets@ == on_port(untried_hosts(pooled, addresses@.take(i as int)), self.port()),
            decreases addresses.len() - i,
        {
            let host = addresses[i].host;
            let pooled_at = position(&self.conns, host);
            let targeted = targets_host(&targets, host);
            proof {
                let before = untried_hosts(pooled, addresses@.take(i as int));
                assert(addresses@.take(i + 1).drop_last() == addresses@.take(i as int));
                pool_of_dom(self.conns@);
                if pooled_at.is_some() {
                    assert(has_host(self.conns@, host));
                }
                if before.contains(host) {
                    let j = choose|j: int| 0 <= j < before.len() && before[j] == host;
                    assert(targets[j].host == host);
                }
                if targeted {
                    let j = choose|j: int| 0 <= j < targets.len() && targets[j].host == host;
                    assert(before[j] == host);
                }
            }
            if pooled_at.is_none() && !targeted {
                targets.push(Addr { host, port: self.port });
            }
            assert(targets@ == on_port(
                untried_hosts(pooled, addresses@.take(i + 1)),
                self.port(),
            ));
            i += 1;
        }
        assert(addresses@.take(addresses.len() as int) == addresses@);
        targets
    }

    /// Settles the pool after the fan-out of one message.
    ///
    /// `sent` reports, for each send over a pooled connection, the host as
    /// `Ok` if the message was delivered and as `Err` if it was not;
    /// `connected` holds, for each attempt to reach a read-server without a
    /// pooled connection, the new connection if the message was delivered
    /// over it. Every connection on which a send failed leaves the pool,
    /// every new connection enters it, and the number of read-servers that
    /// the pool then holds is returned: those that were reached.
    pub fn send_to_readservers(
        &mut self,
        sent: &Vec<Result<Host, Host>>,
        connected: Vec<Result<(Host, C), ()>>,
    ) -> (reached: usize)
        ensures
            final(self)@ == extended(pruned(old(self)@, sent@), connected@),
            final(self).port() == old(self).port(),
            reached == final(self)@.len(),
    {
        proof {
            use_type_invariant(&*self);
        }
        let mut conns: Vec<(Host, C)> = Vec::new();
        std::mem::swap(&mut conns, &mut self.conns);
        let ghost before = pool_of(conns@);

        let mut i: usize = 0;
        while i < sent.len()
            invariant
                i <= sent.len(),
                distinct_hosts(conns@),
                pool_of(conns@) == pruned(before, sent@.take(i as int)),
            decreases sent.len() - i,
        {
            proof {
                assert(sent@.take(i + 1) == sent@.take(i as int).push(sent@[i as int]));
                failed_hosts_push(sent@.take(i as int), sent@[i as int]);
            }
            if let Err(host) = sent[i] {
                match position(&conns, host) {
                    Some(at) => {
                        proof {
                            pool_of_remove(conns@, at as int);
                        }
                        conns.remove(at);
                    },
                    None => {
                        proof {
                            pool_of_dom(conns@);
                        }
                    },
                }
            }
            i += 1;
        }
        assert(sent@.take(sent.len() as int) == sent@);

        let ghost kept = pool_of(conns@);
        let ghost fresh = connected@;
        for attempt in it: connected
            invariant
                it.seq() == fresh,
                distinct_hosts(conns@),
                pool_of(conns@) == extended(kept, fresh.take(it.index())),
        {
            proof {
                assert(fresh.take(it.index() + 1).drop_last() == fresh.take(it.index()));
            }
            if let Ok((host, conn)) = attempt {
                match position(&conns, host) {
                    Some(at) => {
                        proof {
                            pool_of_update(conns@, at as int, conn);
                        }
                        conns.set(at, (host, conn));
                    },
                    None => {
                        proof {
                            pool_of_push(conns@, host, conn);
                        }
                        conns.push((host, conn));
                    },
                }
            }
        }
        assert(fresh.take(fresh.len() as int) == fresh);

        proof {
            pool_of_distinct(conns@);
        }
        let reached = conns.len();
        self.conns = conns;
        reached
    }
}

/// The publisher of directory changes: it owns the connections to the
/// read-servers, of type `C`.
#[derive(Debug)]
pub struct ReadServers<C>(Inner<C>);

impl<C> View for ReadServers<C> {
    type V = Map<Host, C>;

    /// The pooled connections, by host.
    closed spec fn view(&self) -> Map<Host, C> {
        self.0@
    }
}

impl<C> ReadServers<C> {
    /// The port on which every read-server listens.
    pub closed spec fn spec_port(&self) -> u16 {
        self.0.port()
    }

    /// A publisher without connections, for read-servers that listen on
    /// `port`.
    pub fn new(port: u16) -> (servers: Self)
        ensures
            servers@ == Map::<Host, C>::empty(),
            servers.port() == port,
    {
        ReadServers(Inner::new(port))
    }

    /// The port on which every read-server listens.
    #[verifier::when_used_as_spec(spec_port)]
    pub fn port(&self) -> (port: u16)
        ensures
            port == self.port(),
    {
        self.0.port()
    }

    /// The pooled connections, over each of which the message is to be
    /// sent: one entry for each host.
    pub fn pooled(&self) -> (conns: &Vec<(Host, C)>)
        ensures
            distinct_hosts(conns@),
            pool_of(conns@) == self@,
    {
        self.0.conns()
    }

    /// The addresses to connect to, and then send the message to, for the
    /// read-servers that the directory lists at `addresses` and the pool
    /// has no connection to: the read-server port on each such host, once
    /// for each host.
    pub fn untried(&self, addresses: &Vec<Addr>) -> (targets: Vec<Addr>)
        ensures
            targets@ == on_port(untried_hosts(self@.dom(), addresses@), self.port()),
    {
        self.0.untried(addresses)
    }

    /// Concludes the publication of one change, once its message has been
    /// sent over every pooled connection and to every read-server that had
    /// none.
    ///
    /// `sent` reports, for each send over a pooled connection, the host as
    /// `Ok` if the message was delivered and as `Err` if it was not;
    /// `connected` holds, for each attempt over a new connection, that
    /// connection if the message was delivered. The pool drops the
    /// connections that failed and takes in the new ones; the read-servers
    /// that it then holds are those that were reached, and their number,
    /// held against the size of the cluster, is the result.
    pub fn publish(
        &mut self,
        state: &State,
        sent: &Vec<Result<Host, Host>>,
        connected: Vec<Result<(Host, C), ()>>,
    ) -> (result: PubResult)
        ensures
            final(self)@ == extended(pruned(old(self)@, sent@), connected@),
            final(self).port() == old(self).port(),
            result == pub_result(final(self)@.len(), state@.cluster_size),
    {
        let reached = self.0.send_to_readservers(sent, connected);
        PubResult::of_reached(reached, state.cluster_size())
    }
}

} // verus!

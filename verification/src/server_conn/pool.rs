//! The mathematical model of the connection pool: a map from host to
//! connection, and what a publish attempt does to it.

use vstd::prelude::*;
use crate::server_conn::addr::{Addr, Host};

verus! {

/// The map that results from inserting `entries` one after the other into
/// an empty pool. A later entry for a host replaces an earlier one.
pub open spec fn pool_of<C>(entries: Seq<(Host, C)>) -> Map<Host, C>
    decreases entries.len(),
{
    if entries.len() == 0 {
        Map::empty()
    } else {
        pool_of(entries.drop_last()).insert(entries.last().0, entries.last().1)
    }
}

/// No two of `entries` are for the same host.
pub open spec fn distinct_hosts<C>(entries: Seq<(Host, C)>) -> bool {
    forall|i: int, j: int| 0 <= i < j < entries.len() ==> entries[i].0 != entries[j].0
}

/// Some entry of `entries` is for `host`.
pub open spec fn has_host<C>(entries: Seq<(Host, C)>, host: Host) -> bool {
    exists|i: int| 0 <= i < entries.len() && entries[i].0 == host
}

/// The hosts of a pool are the hosts of its entries.
pub proof fn pool_of_dom<C>(entries: Seq<(Host, C)>)
    ensures
        pool_of(entries).dom().finite(),
        forall|host: Host| pool_of(entries).contains_key(host) <==> has_host(entries, host),
    decreases entries.len(),
{
    if entries.len() > 0 {
        let front = entries.drop_last();
        pool_of_dom(front);
        assert forall|host: Host| pool_of(entries).contains_key(host) implies has_host(
            entries,
            host,
        ) by {
            if host == entries.last().0 {
                assert(entries[entries.len() - 1].0 == host);
            } else {
                assert(has_host(front, host));
                let i = choose|i: int| 0 <= i < front.len() && front[i].0 == host;
                assert(entries[i].0 == host);
            }
        }
        assert forall|host: Host| has_host(entries, host) implies pool_of(entries).contains_key(
            host,
        ) by {
            let i = choose|i: int| 0 <= i < entries.len() && entries[i].0 == host;
            if i < entries.len() - 1 {
                assert(front[i].0 == host);
                assert(has_host(front, host));
            }
        }
    }
}

/// Where no host occurs twice, the pool holds for each entry's host that
/// entry's connection, and has as many hosts as there are entries.
pub proof fn pool_of_distinct<C>(entries: Seq<(Host, C)>)
    requires
        distinct_hosts(entries),
    ensures
        pool_of(entries).len() == entries.len(),
        forall|i: int|
            0 <= i < entries.len() ==> pool_of(entries).contains_key(#[trigger] entries[i].0)
                && pool_of(entries)[entries[i].0] == entries[i].1,
    decreases entries.len(),
{
    if entries.len() > 0 {
        let front = entries.drop_last();
        pool_of_distinct(front);
        pool_of_dom(front);
        if has_host(front, entries.last().0) {
            let i = choose|i: int| 0 <= i < front.len() && front[i].0 == entries.last().0;
            assert(entries[i].0 == entries[entries.len() - 1].0);
        }
        assert forall|i: int| 0 <= i < entries.len() implies pool_of(entries).contains_key(
            #[trigger] entries[i].0,
        ) && pool_of(entries)[entries[i].0] == entries[i].1 by {
            if i < entries.len() - 1 {
                assert(front[i].0 == entries[i].0);
                assert(entries[i].0 != entries[entries.len() - 1].0);
            }
        }
    }
}

/// Adding an entry at the end inserts it into the pool.
pub proof fn pool_of_push<C>(entries: Seq<(Host, C)>, host: Host, conn: C)
    ensures
        pool_of(entries.push((host, conn))) == pool_of(entries).insert(host, conn),
        distinct_hosts(entries) && !has_host(entries, host) ==> distinct_hosts(
            entries.push((host, conn)),
        ),
{
    assert(entries.push((host, conn)).drop_last() == entries);
    if distinct_hosts(entries) && !has_host(entries, host) {
        let after = entries.push((host, conn));
        assert forall|i: int, j: int| 0 <= i < j < after.len() implies after[i].0 != after[j].0 by {
            if j == entries.len() {
                assert(entries[i].0 != host);
            }
        }
    }
}

/// Replacing the entry of a host by another for the same host inserts the
/// new connection into the pool.
pub proof fn pool_of_update<C>(entries: Seq<(Host, C)>, at: int, conn: C)
    requires
        distinct_hosts(entries),
        0 <= at < entries.len(),
    ensures
        pool_of(entries.update(at, (entries[at].0, conn))) == pool_of(entries).insert(
            entries[at].0,
            conn,
        ),
        distinct_hosts(entries.update(at, (entries[at].0, conn))),
    decreases entries.len(),
{
    let host = entries[at].0;
    let after = entries.update(at, (host, conn));
    let front = entries.drop_last();
    if at == entries.len() - 1 {
        assert(after.drop_last() == front);
    } else {
        pool_of_update(front, at, conn);
        assert(after.drop_last() == front.update(at, (host, conn)));
    }
}

/// Taking an entry out removes its host from the pool.
pub proof fn pool_of_remove<C>(entries: Seq<(Host, C)>, at: int)
    requires
        distinct_hosts(entries),
        0 <= at < entries.len(),
    ensures
        pool_of(entries.remove(at)) == pool_of(entries).remove(entries[at].0),
        distinct_hosts(entries.remove(at)),
    decreases entries.len(),
{
    let host = entries[at].0;
    let after = entries.remove(at);
    let front = entries.drop_last();
    if at == entries.len() - 1 {
        assert(after == front);
        pool_of_dom(front);
        if has_host(front, host) {
            let i = choose|i: int| 0 <= i < front.len() && front[i].0 == host;
            assert(entries[i].0 == entries[at].0);
        }
    } else {
        pool_of_remove(front, at);
        assert(after.drop_last() == front.remove(at));
    }
}

/// The hosts to which a send over a pooled connection failed: those that
/// `sent` reports as an error.
pub open spec fn failed_hosts(sent: Seq<Result<Host, Host>>) -> Set<Host> {
    Set::new(|host: Host| sent.contains(Err(host)))
}

/// What is left of `pool` once every connection on which a send failed has
/// been dropped.
pub open spec fn pruned<C>(pool: Map<Host, C>, sent: Seq<Result<Host, Host>>) -> Map<Host, C> {
    pool.remove_keys(failed_hosts(sent))
}

/// `pool` after the fresh connections that delivered the message have been
/// inserted in the order of `connected`. Attempts that failed leave no trace.
pub open spec fn extended<C>(pool: Map<Host, C>, connected: Seq<Result<(Host, C), ()>>) -> Map<
    Host,
    C,
>
    decreases connected.len(),
{
    if connected.len() == 0 {
        pool
    } else {
        let before = extended(pool, connected.drop_last());
        match connected.last() {
            Ok((host, conn)) => before.insert(host, conn),
            Err(_) => before,
        }
    }
}

/// One more report of a send adds its host to the failed ones if it is an
/// error, and changes nothing if it is not.
pub proof fn failed_hosts_push(sent: Seq<Result<Host, Host>>, report: Result<Host, Host>)
    ensures
        failed_hosts(sent.push(report)) == match report {
            Ok(_) => failed_hosts(sent),
            Err(host) => failed_hosts(sent).insert(host),
        },
{
    let more = sent.push(report);
    assert forall|host: Host| more.contains(Err(host)) <==> (sent.contains(Err(host)) || report
        == Err::<Host, Host>(host)) by {
        if more.contains(Err(host)) {
            let i = choose|i: int| 0 <= i < more.len() && more[i] == Err::<Host, Host>(host);
            if i < sent.len() {
                assert(sent[i] == Err::<Host, Host>(host));
            }
        }
        if sent.contains(Err(host)) {
            let i = choose|i: int| 0 <= i < sent.len() && sent[i] == Err::<Host, Host>(host);
            assert(more[i] == Err::<Host, Host>(host));
        }
        if report == Err::<Host, Host>(host) {
            assert(more[sent.len() as int] == Err::<Host, Host>(host));
        }
    }
}

/// The read-servers that a publish attempt has yet to connect to: the hosts
/// of `addresses` that are not among `pooled`, each once, in the order in
/// which the directory lists them first.
pub open spec fn untried_hosts(pooled: Set<Host>, addresses: Seq<Addr>) -> Seq<Host>
    decreases addresses.len(),
{
    if addresses.len() == 0 {
        Seq::empty()
    } else {
        let before = untried_hosts(pooled, addresses.drop_last());
        let host = addresses.last().host;
        if pooled.contains(host) || before.contains(host) {
            before
        } else {
            before.push(host)
        }
    }
}

/// Some address of `addresses` is on `host`.
pub open spec fn lists_host(addresses: Seq<Addr>, host: Host) -> bool {
    exists|i: int| 0 <= i < addresses.len() && addresses[i].host == host
}

/// The addresses of `port` on each of `hosts`.
pub open spec fn on_port(hosts: Seq<Host>, port: u16) -> Seq<Addr> {
    Seq::new(hosts.len(), |i: int| Addr { host: hosts[i], port })
}

/// A host is yet to be tried exactly if the directory lists it and the pool
/// has no connection to it, and no host is tried twice.
pub proof fn untried_hosts_are_the_unpooled(pooled: Set<Host>, addresses: Seq<Addr>)
    ensures
        untried_hosts(pooled, addresses).no_duplicates(),
        forall|host: Host| #[trigger]
            untried_hosts(pooled, addresses).contains(host) <==> lists_host(addresses, host)
                && !pooled.contains(host),
    decreases addresses.len(),
{
    let untried = untried_hosts(pooled, addresses);
    if addresses.len() > 0 {
        let front = addresses.drop_last();
        let before = untried_hosts(pooled, front);
        untried_hosts_are_the_unpooled(pooled, front);
        assert forall|host: Host| #[trigger]
            untried.contains(host) <==> lists_host(addresses, host) && !pooled.contains(
                host,
            ) by {
            if untried.contains(host) {
                let i = choose|i: int| 0 <= i < untried.len() && untried[i] == host;
                if i < before.len() {
                    assert(before[i] == host);
                    assert(before.contains(host));
                    let j = choose|j: int| 0 <= j < front.len() && front[j].host == host;
                    assert(addresses[j].host == host);
                } else {
                    assert(addresses[addresses.len() - 1].host == host);
                }
            }
            if lists_host(addresses, host) && !pooled.contains(host) {
                let j = choose|j: int| 0 <= j < addresses.len() && addresses[j].host == host;
                if j < front.len() {
                    assert(front[j].host == host);
                    assert(before.contains(host));
                }
                if before.contains(host) {
                    let i = choose|i: int| 0 <= i < before.len() && before[i] == host;
                    assert(untried[i] == host);
                } else {
                    assert(untried[before.len() as int] == host);
                }
            }
        }
    }
}

/// `attempt` delivered the message to `host` over a new connection.
pub open spec fn connected_to<C>(attempt: Result<(Host, C), ()>, host: Host) -> bool {
    match attempt {
        Ok(entry) => entry.0 == host,
        Err(_) => false,
    }
}

/// Some attempt of `connected` delivered the message to `host` over a new
/// connection.
pub open spec fn connects<C>(connected: Seq<Result<(Host, C), ()>>, host: Host) -> bool {
    exists|i: int| 0 <= i < connected.len() && #[trigger] connected_to(connected[i], host)
}

/// A run of attempts connects to a host if its last attempt does, or one
/// of those before it.
proof fn connects_last<C>(connected: Seq<Result<(Host, C), ()>>, host: Host)
    requires
        connected.len() > 0,
    ensures
        connects(connected, host) <==> connects(connected.drop_last(), host) || connected_to(
            connected.last(),
            host,
        ),
{
    let front = connected.drop_last();
    if connects(front, host) {
        let i = choose|i: int| 0 <= i < front.len() && #[trigger] connected_to(front[i], host);
        assert(connected_to(connected[i], host));
    }
    if connected_to(connected.last(), host) {
        assert(connected_to(connected[connected.len() - 1], host));
    }
    if connects(connected, host) {
        let i = choose|i: int|
            0 <= i < connected.len() && #[trigger] connected_to(connected[i], host);
        if i < front.len() {
            assert(connected_to(front[i], host));
        }
    }
}

/// The pool holds, after connections that failed have been dropped, the
/// hosts that it held before and that no send to failed.
pub proof fn pruned_hosts<C>(pool: Map<Host, C>, sent: Seq<Result<Host, Host>>)
    ensures
        forall|host: Host| #[trigger]
            pruned(pool, sent).contains_key(host) <==> pool.contains_key(host) && !sent.contains(
                Err(host),
            ),
        pool.dom().finite() ==> pruned(pool, sent).dom().finite(),
{
    if pool.dom().finite() {
        vstd::set_lib::lemma_set_subset_finite(pool.dom(), pruned(pool, sent).dom());
    }
}

/// The pool holds, after new connections have been taken in, the hosts
/// that it held before and those that were connected to.
pub proof fn extended_hosts<C>(pool: Map<Host, C>, connected: Seq<Result<(Host, C), ()>>)
    ensures
        forall|host: Host| #[trigger]
            extended(pool, connected).contains_key(host) <==> pool.contains_key(host) || connects(
                connected,
                host,
            ),
        pool.dom().finite() ==> extended(pool, connected).dom().finite(),
    decreases connected.len(),
{
    if connected.len() > 0 {
        let front = connected.drop_last();
        extended_hosts(pool, front);
        assert forall|host: Host| #[trigger]
            extended(pool, connected).contains_key(host) <==> pool.contains_key(host) || connects(
                connected,
                host,
            ) by {
            connects_last(connected, host);
            assert(extended(pool, front).contains_key(host) <==> pool.contains_key(host)
                || connects(front, host));
        }
    }
}

/// Every new connection of `connected` is to a host that was yet to be
/// tried when the directory listed `addresses` and the pool held `pooled`.
pub open spec fn connects_where_untried<C>(
    pooled: Set<Host>,
    addresses: Seq<Addr>,
    connected: Seq<Result<(Host, C), ()>>,
) -> bool {
    forall|i: int, host: Host|
        0 <= i < connected.len() && #[trigger] connected_to(connected[i], host)
            ==> untried_hosts(pooled, addresses).contains(host)
}

/// A fan-out that connects only where [`untried_hosts`] says makes no new
/// connection to a host that the pool has one to.
pub proof fn pooled_hosts_are_not_connected_to<C>(
    pool: Map<Host, C>,
    addresses: Seq<Addr>,
    connected: Seq<Result<(Host, C), ()>>,
    host: Host,
)
    requires
        connects_where_untried(pool.dom(), addresses, connected),
        pool.contains_key(host),
    ensures
        !connects(connected, host),
{
    untried_hosts_are_the_unpooled(pool.dom(), addresses);
}

/// A connection on which the send failed is in the pool no more when the
/// next change is published, and that publish connects to its host anew if
/// the directory still lists it. This holds unless the same fan-out reports
/// a new connection to that host, which none does that connects only where
/// [`untried_hosts`] says.
pub proof fn failed_connection_leaves_pool<C>(
    pool: Map<Host, C>,
    sent: Seq<Result<Host, Host>>,
    connected: Seq<Result<(Host, C), ()>>,
    host: Host,
    next_addresses: Seq<Addr>,
)
    requires
        sent.contains(Err(host)),
        !connects(connected, host),
    ensures
        !extended(pruned(pool, sent), connected).contains_key(host),
        lists_host(next_addresses, host) ==> untried_hosts(
            extended(pruned(pool, sent), connected).dom(),
            next_addresses,
        ).contains(host),
{
    extended_hosts(pruned(pool, sent), connected);
    untried_hosts_are_the_unpooled(extended(pruned(pool, sent), connected).dom(), next_addresses);
}

/// A read-server that the directory lists and the pool has no connection
/// to is connected to when the next change is published; if the message is
/// delivered over the new connection, the read-server is in the pool
/// afterwards, whatever else happened, and is one of those counted as
/// reached.
pub proof fn reachable_read_server_joins_pool<C>(
    pool: Map<Host, C>,
    addresses: Seq<Addr>,
    sent: Seq<Result<Host, Host>>,
    connected: Seq<Result<(Host, C), ()>>,
    host: Host,
)
    requires
        pool.dom().finite(),
        !pool.contains_key(host),
        lists_host(addresses, host),
    ensures
        untried_hosts(pool.dom(), addresses).contains(host),
        connects(connected, host) ==> {
            let after = extended(pruned(pool, sent), connected);
            after.contains_key(host) && after.len() == after.remove(host).len() + 1
        },
{
    untried_hosts_are_the_unpooled(pool.dom(), addresses);
    pruned_hosts(pool, sent);
    extended_hosts(pruned(pool, sent), connected);
}

/// A connection over which the message was delivered is used again: it
/// stays in the pool, the same connection for the same host, as long as no
/// send over it fails. This holds unless the same fan-out reports a new
/// connection to that host, which none does that connects only where
/// [`untried_hosts`] says.
pub proof fn sound_connection_stays_pooled<C>(
    pool: Map<Host, C>,
    sent: Seq<Result<Host, Host>>,
    connected: Seq<Result<(Host, C), ()>>,
    host: Host,
)
    requires
        pool.contains_key(host),
        !sent.contains(Err(host)),
        !connects(connected, host),
    ensures
        extended(pruned(pool, sent), connected).contains_key(host),
        extended(pruned(pool, sent), connected)[host] == pool[host],
    decreases connected.len(),
{
    if connected.len() > 0 {
        let front = connected.drop_last();
        connects_last(connected, host);
        sound_connection_stays_pooled(pool, sent, front, host);
    }
}

/// A new connection over which the message was delivered is the one that
/// the pool holds for its host afterwards, if no later attempt of the same
/// fan-out delivered the message to that host too.
pub proof fn new_connection_is_pooled<C>(
    pool: Map<Host, C>,
    connected: Seq<Result<(Host, C), ()>>,
    at: int,
    host: Host,
    conn: C,
)
    requires
        0 <= at < connected.len(),
        connected[at] == Ok::<(Host, C), ()>((host, conn)),
        forall|later: int| at < later < connected.len() ==> !connected_to(connected[later], host),
    ensures
        extended(pool, connected).contains_key(host),
        extended(pool, connected)[host] == conn,
    decreases connected.len(),
{
    let front = connected.drop_last();
    if at < connected.len() - 1 {
        assert(!connected_to(connected[connected.len() - 1], host));
        new_connection_is_pooled(pool, front, at, host, conn);
    }
}

/// The number of `reports` that tell of a delivered message.
pub open spec fn delivered<T, E>(reports: Seq<Result<T, E>>) -> nat
    decreases reports.len(),
{
    if reports.len() == 0 {
        0
    } else {
        delivered(reports.drop_last()) + if reports.last() is Ok {
            1nat
        } else {
            0nat
        }
    }
}

/// The host that the report on a send over a pooled connection is about.
pub open spec fn reported_host(report: Result<Host, Host>) -> Host {
    match report {
        Ok(host) => host,
        Err(host) => host,
    }
}

/// `sent` reports on a send over every connection of `pool`, once for each
/// connection and on nothing else.
pub open spec fn reports_on_each<C>(pool: Map<Host, C>, sent: Seq<Result<Host, Host>>) -> bool {
    &&& forall|i: int, j: int|
        0 <= i < j < sent.len() ==> reported_host(sent[i]) != reported_host(sent[j])
    &&& forall|host: Host|
        pool.contains_key(host) <==> exists|i: int|
            0 <= i < sent.len() && reported_host(#[trigger] sent[i]) == host
}

/// The new connections of `connected` are to hosts that `pool` has no
/// connection to, and no two of them to the same host.
pub open spec fn connects_anew<C>(pool: Map<Host, C>, connected: Seq<Result<(Host, C), ()>>) -> bool {
    &&& forall|i: int, host: Host|
        0 <= i < connected.len() && #[trigger] connected_to(connected[i], host)
            ==> !pool.contains_key(host)
    &&& forall|i: int, j: int, host: Host|
        0 <= i < j < connected.len() && #[trigger] connected_to(connected[i], host)
            ==> !#[trigger] connected_to(connected[j], host)
}

/// Where every pooled connection was sent over once, the connections that
/// stay are as many as the sends that delivered the message.
proof fn pruned_counts_deliveries<C>(pool: Map<Host, C>, sent: Seq<Result<Host, Host>>)
    requires
        pool.dom().finite(),
        reports_on_each(pool, sent),
    ensures
        pruned(pool, sent).len() == delivered(sent),
    decreases sent.len(),
{
    if sent.len() == 0 {
        assert(pruned(pool, sent) =~= Map::<Host, C>::empty());
    } else {
        let front = sent.drop_last();
        let last = sent.last();
        let host = reported_host(last);
        let rest = pool.remove(host);
        assert(sent == front.push(last));
        assert(reported_host(sent[sent.len() - 1]) == host);
        assert forall|other: Host| rest.contains_key(other) implies exists|i: int|
            0 <= i < front.len() && reported_host(#[trigger] front[i]) == other by {
            let i = choose|i: int| 0 <= i < sent.len() && reported_host(#[trigger] sent[i]) == other;
            assert(reported_host(front[i]) == other);
        }
        assert forall|other: Host|
            (exists|i: int|
                0 <= i < front.len() && reported_host(#[trigger] front[i])
                    == other) implies rest.contains_key(other) by {
            let i = choose|i: int|
                0 <= i < front.len() && reported_host(#[trigger] front[i]) == other;
            assert(reported_host(sent[i]) == other);
        }
        assert(reports_on_each(rest, front)) by {
            assert forall|i: int, j: int| 0 <= i < j < front.len() implies reported_host(front[i])
                != reported_host(front[j]) by {
                assert(reported_host(sent[i]) != reported_host(sent[j]));
            }
        }
        pruned_counts_deliveries(rest, front);
        pruned_hosts(rest, front);
        failed_hosts_push(front, last);
        match last {
            Ok(_) => {
                if front.contains(Err(host)) {
                    let i = choose|i: int| 0 <= i < front.len() && front[i] == Err::<Host, Host>(host);
                    assert(reported_host(sent[i]) == host);
                }
                assert(pruned(pool, sent) =~= pruned(rest, front).insert(host, pool[host]));
            },
            Err(_) => {
                assert(pruned(pool, sent) =~= pruned(rest, front));
            },
        }
    }
}

/// Where every new connection is to a host of its own that the pool had
/// none to, the pool grows by as many connections as attempts delivered the
/// message.
proof fn extended_counts_deliveries<C>(pool: Map<Host, C>, connected: Seq<Result<(Host, C), ()>>)
    requires
        pool.dom().finite(),
        connects_anew(pool, connected),
    ensures
        extended(pool, connected).len() == pool.len() + delivered(connected),
    decreases connected.len(),
{
    if connected.len() > 0 {
        let front = connected.drop_last();
        assert(connects_anew(pool, front)) by {
            assert forall|i: int, host: Host|
                0 <= i < front.len() && #[trigger] connected_to(
                    front[i],
                    host,
                ) implies !pool.contains_key(host) by {
                assert(connected_to(connected[i], host));
            }
            assert forall|i: int, j: int, host: Host|
                0 <= i < j < front.len() && #[trigger] connected_to(
                    front[i],
                    host,
                ) implies !#[trigger] connected_to(front[j], host) by {
                assert(connected_to(connected[i], host));
                assert(!connected_to(connected[j], host));
            }
        }
        extended_counts_deliveries(pool, front);
        extended_hosts(pool, front);
        if let Ok(entry) = connected.last() {
            let host = entry.0;
            assert(connected_to(connected[connected.len() - 1], host));
            if connects(front, host) {
                let i = choose|i: int| 0 <= i < front.len() && #[trigger] connected_to(front[i], host);
                assert(connected_to(connected[i], host));
            }
            assert(!extended(pool, front).contains_key(host));
        }
    }
}

/// The read-servers counted as reached are those that the message was
/// delivered to: where the caller has sent it over every pooled connection
/// once, and over new connections only to hosts that had none, one to each,
/// the pool holds afterwards as many connections as sends over pooled
/// connections and attempts over new ones delivered the message.
pub proof fn reached_counts_deliveries<C>(
    pool: Map<Host, C>,
    sent: Seq<Result<Host, Host>>,
    connected: Seq<Result<(Host, C), ()>>,
)
    requires
        pool.dom().finite(),
        reports_on_each(pool, sent),
        connects_anew(pool, connected),
    ensures
        extended(pruned(pool, sent), connected).len() == delivered(sent) + delivered(connected),
{
    pruned_counts_deliveries(pool, sent);
    pruned_hosts(pool, sent);
    extended_counts_deliveries(pruned(pool, sent), connected);
}

/// `sent` reports on one send over each of the pooled connections `conns`,
/// in their order.
pub open spec fn reports_in_order<C>(conns: Seq<(Host, C)>, sent: Seq<Result<Host, Host>>) -> bool {
    &&& sent.len() == conns.len()
    &&& forall|i: int| 0 <= i < sent.len() ==> reported_host(#[trigger] sent[i]) == conns[i].0
}

/// `connected` reports on one attempt to connect to each of `targets`, in
/// their order.
pub open spec fn connects_in_order<C>(
    targets: Seq<Host>,
    connected: Seq<Result<(Host, C), ()>>,
) -> bool {
    &&& connected.len() == targets.len()
    &&& forall|i: int, host: Host|
        0 <= i < connected.len() && #[trigger] connected_to(connected[i], host) ==> targets[i]
            == host
}

/// A caller that sends the message once over each pooled connection, and
/// once to each read-server that was yet to be tried, learns how many
/// read-servers took it: the number counted as reached is the number of
/// sends and attempts that delivered the message.
pub proof fn planned_fan_out_reaches_its_deliveries<C>(
    conns: Seq<(Host, C)>,
    addresses: Seq<Addr>,
    sent: Seq<Result<Host, Host>>,
    connected: Seq<Result<(Host, C), ()>>,
)
    requires
        distinct_hosts(conns),
        reports_in_order(conns, sent),
        connects_in_order(untried_hosts(pool_of(conns).dom(), addresses), connected),
    ensures
        extended(pruned(pool_of(conns), sent), connected).len() == delivered(sent) + delivered(
            connected,
        ),
{
    let pool = pool_of(conns);
    let targets = untried_hosts(pool.dom(), addresses);
    pool_of_dom(conns);
    untried_hosts_are_the_unpooled(pool.dom(), addresses);
    assert(reports_on_each(pool, sent)) by {
        assert forall|host: Host| pool.contains_key(host) implies exists|i: int|
            0 <= i < sent.len() && reported_host(#[trigger] sent[i]) == host by {
            assert(has_host(conns, host));
            let i = choose|i: int| 0 <= i < conns.len() && conns[i].0 == host;
            assert(reported_host(sent[i]) == host);
        }
        assert forall|host: Host|
            (exists|i: int|
                0 <= i < sent.len() && reported_host(#[trigger] sent[i])
                    == host) implies pool.contains_key(host) by {
            let i = choose|i: int| 0 <= i < sent.len() && reported_host(#[trigger] sent[i]) == host;
            assert(conns[i].0 == host);
            assert(has_host(conns, host));
        }
    }
    assert(connects_anew(pool, connected)) by {
        assert forall|i: int, host: Host|
            0 <= i < connected.len() && #[trigger] connected_to(
                connected[i],
                host,
            ) implies !pool.contains_key(host) by {
            assert(targets[i] == host);
            assert(targets.contains(host));
        }
    }
    reached_counts_deliveries(pool, sent, connected);
}

} // verus!

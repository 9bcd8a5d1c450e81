//! Network identities of peers, as plain values.

use vstd::prelude::*;

verus! {

/// The host part of a network address. Read-servers are told apart by their
/// host alone, whatever port a connection to them uses.
#[derive(Clone, Copy, Debug, PartialEq, Eq, Hash, Structural)]
pub enum Host {
    /// An IPv4 address, its four octets in network order as one number.
    V4(u32),
    /// An IPv6 address, its sixteen octets in network order as one number.
    V6(u128),
}

/// A socket address: a host and a port on it.
#[derive(Clone, Copy, Debug, PartialEq, Eq, Hash, Structural)]
pub struct Addr {
    pub host: Host,
    pub port: u16,
}

} // verus!

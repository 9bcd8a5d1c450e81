//! Connections from the leader to the read-servers.

pub mod addr;
pub mod pool;
pub mod protocol;
pub mod to_readserv;

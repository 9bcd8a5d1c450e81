//! Replication and liveness core of a metadata-server cluster.
//!
//! The leader of the cluster proves its liveness to the other metadata
//! servers with periodic heartbeats and pushes every directory change to the
//! fleet of read-servers, reporting how large a part of the cluster was
//! reached. This crate holds the decisions of that core: what is sent, which
//! connections are kept, opened and dropped, and how an attempt is classified.
//! Performing the network operations is left to the caller, which hands their
//! outcomes back as plain values.

pub mod consensus;
pub mod server_conn;

//! A verified core for a pool of transport listeners.
//!
//! The crate models the lifecycle of a datagram listener (starting, running,
//! stopping, stopped), the per-peer timeout tracker that turns a
//! connectionless transport into session events, and the registry that maps
//! port numbers to listener instances.  All decisions are made here, over
//! plain values; the socket reads and writes, the listener threads and the
//! event channel live in the unverified shell around this crate, which feeds
//! datagrams, clock readings and poll outcomes into these functions.

pub mod assoc;
pub mod server;
pub mod tracker;
pub mod udpserver;
pub mod srvp;

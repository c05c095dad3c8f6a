//! Core logic of a bounded TCP byte relay.
//!
//! The relay accepts up to a fixed number of simultaneous connections and
//! forwards every byte payload received from one connection to every other
//! connection owned by the same worker.  This crate holds the coordination
//! logic — admission control, the shared hand-off buffer, per-worker slot
//! tables, broadcast target selection, eviction bookkeeping, and cooperative
//! shutdown — as verified state machines.  The surrounding program performs
//! the socket I/O and drives these machines with the events it observes.

pub mod acceptor;
pub mod state;
pub mod system;
pub mod worker;

//! Core of a TCP relay: every byte chunk a peer sends is rebroadcast
//! verbatim to every other currently connected peer, never back to the
//! sender.
//!
//! This library holds the parts whose correctness is proved: the
//! connection registry (a keyed map of live peers), the selection of
//! broadcast targets, the per-connection session state machine, the
//! per-listener accept state machine, and the diagnostic formatter.
//! The host program supplies the sockets and the task scheduler; it
//! feeds events (bytes read, accept results, write outcomes) into the
//! functions here and performs the actions they return.

pub mod registry;
pub mod session;
pub mod accept;
pub mod format;

//! Decision logic of a ledger state synchronizer: peer scoring and selection,
//! outstanding chunk requests, long-poll subscriptions and the coordinator
//! that catches a lagging node up to a target version.
pub mod coordinator;
pub mod peer_manager;
pub mod table;

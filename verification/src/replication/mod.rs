//! Keeping several databases in step.

pub mod active_replication;
pub mod laws;
pub mod passive_replication;
pub mod replication;
pub mod replication_nodes;
pub mod replication_sync_checker;

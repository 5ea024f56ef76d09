//! The configuration of a node.

pub mod database_config;
pub mod laws;

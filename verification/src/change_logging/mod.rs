//! The log of changes.

pub mod change_logging;
pub mod laws;

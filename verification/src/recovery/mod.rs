//! Recovery from the log of changes.

pub mod laws;
pub mod log_laws;
pub mod recovery;
pub mod recovery_run;
pub mod row_laws;

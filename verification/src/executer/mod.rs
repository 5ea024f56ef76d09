//! The execution of queries.

pub mod executer;
pub mod laws;
pub mod plan_laws;
pub mod replies;
pub mod row_changes;
pub mod select;

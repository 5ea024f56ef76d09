//! The rows of tables.

pub mod changes;
pub mod laws;
pub mod past_laws;
pub mod row_laws;
pub mod rows;
pub mod rule_laws;
pub mod table;
pub mod table_laws;
pub mod validation;

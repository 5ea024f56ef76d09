//! Table definitions.

pub mod laws;
pub mod schema;
pub mod schema_json;

//! The query language.

pub mod laws;
pub mod parser;

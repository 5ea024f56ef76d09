pub mod app_state;
pub mod auth;
pub mod change_logging;
pub mod config;
pub mod errors;
pub mod executer;
pub mod json;
pub mod numbers;
pub mod outside;
pub mod query;
pub mod records;
pub mod recovery;
pub mod replication;
pub mod schema;
pub mod string_map;
pub mod text;
pub mod text_laws;

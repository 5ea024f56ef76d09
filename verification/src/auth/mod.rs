//! Users and their credentials.

pub mod auth;
pub mod first_user;
pub mod laws;

//! Queries that clients run over HTTP.

pub mod expire;
pub mod manager;

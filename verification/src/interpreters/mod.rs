//! Interpreters of plans that need no rows.

pub mod stream_create;

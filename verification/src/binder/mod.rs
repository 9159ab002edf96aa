//! Binding of queries: from what was parsed to expressions over tables.

pub mod context;
pub mod having;
pub mod scalar;

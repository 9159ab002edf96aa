//! Plans of queries.

pub mod plan;
pub mod plan_explain;

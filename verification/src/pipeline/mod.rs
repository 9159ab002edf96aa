//! Pipelines and how they are built.

pub mod builder;
pub mod deduplicate;
pub mod fill_missing_columns;
pub mod pipe;
pub mod replace_into;
pub mod sort_merge;
pub mod value_source;

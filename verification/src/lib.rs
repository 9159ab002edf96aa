//! Parts of a query engine: merging of sorted blocks, building of pipelines, binding of the having
//! clause, plans and their interpreters, and the tables of what clients run over HTTP.

pub mod binder;
pub mod exception;
pub mod expression;
pub mod http;
pub mod interpreters;
pub mod laws;
pub mod merge;
pub mod pipeline;
pub mod planners;
pub mod text;

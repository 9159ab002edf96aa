//! What the operations of the library promise, in terms of what they are given and what they
//! return.
//!
//! A law speaks of every call of an operation, through `call_ensures`, and of plain fields.

pub mod cursor;
pub mod deduplicate;
pub mod expression;
pub mod fill;
pub mod having;
pub mod http;
pub mod merge;
pub mod order;
pub mod replace_into;
pub mod stream;
pub mod values;

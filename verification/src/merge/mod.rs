//! Merging sorted inputs into one sorted output.

pub mod cursor;
pub mod drain;
pub mod event;
pub mod heads;
pub mod heap;
pub mod history;
pub mod laws;
pub mod order;
pub mod output;
pub mod port;
pub mod process;
pub mod processor;

//! Values, columns, schemas and blocks of rows.

pub mod block;
pub mod schema;
pub mod value;

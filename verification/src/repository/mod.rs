//! The store: its statements and its schema.

pub mod schema;
pub mod schema_laws;
pub mod statement;

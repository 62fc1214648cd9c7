//! Running a query against a loaded table.

pub mod executor;
pub mod handler;

//! The query model and the row engine.

pub mod laws;
pub mod numbers;
pub mod query;
pub mod query_from;
pub mod query_limit;
pub mod query_order;
pub mod query_select;
pub mod query_where;
pub mod record;
pub mod sorting;

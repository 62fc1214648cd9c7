//! A small query interpreter for delimited text tables.
//!
//! A query of the shape `SELECT ... FROM ... [WHERE ...] [ORDER BY ...] [LIMIT ...]`
//! is cut into tokens, its clauses are read off the token sequence, and the
//! clauses are applied to a table that the caller has loaded into memory:
//! the predicates first, then the order, then the limit, then the selection
//! of columns.
//!
//! * [`entity`] holds the query model and the row engine, with the laws of
//!   the row engine;
//! * [`application`] runs a query against a loaded table and lays out the
//!   result in lines;
//! * [`infra`] cuts the lines of a file into the rows of a table;
//! * [`readings`] holds what the caller has read as numbers;
//! * [`command`], [`handler`], [`executor`] and [`file`] make up the plain
//!   table view, which shows a file without a query;
//! * [`text`] holds what the rest needs of strings.
//!
//! Nothing here opens a file, prints, or reads a text as a floating-point
//! number: the caller does, and hands over lines, takes lines back, and
//! hands over the ranks of numbers.
//!
//! Every function has a contract over sequences of characters, and every
//! contract is proved, but for that of `text::push_char`, which wraps
//! `String::push` and is taken on trust.

pub mod application;
pub mod command;
pub mod entity;
pub mod executor;
pub mod file;
pub mod handler;
pub mod infra;
pub mod readings;
pub mod text;

//! What stands between the engine and the outside: the shape of a table in a
//! file.

pub mod file;

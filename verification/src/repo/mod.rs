//! What is known of the repositories below a directory.

pub mod clone;
pub mod operations;
pub mod order;
pub mod parse;
pub mod repo;
pub mod table;

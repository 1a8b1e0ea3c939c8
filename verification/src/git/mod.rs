//! Clone commands with a chosen transport.

pub mod clone;

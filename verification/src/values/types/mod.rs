//! The built-in containers.

pub mod containers;
pub mod list;
pub mod structs;

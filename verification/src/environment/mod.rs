//! The environments that names are resolved in.

pub mod globals;
pub mod names;

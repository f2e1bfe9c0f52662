//! How values are laid out: the one-word pointer and the heap entries.

pub mod access;
pub mod heap;
pub mod pointer;
pub mod value;

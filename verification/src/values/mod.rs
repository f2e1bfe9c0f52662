//! Values, and the two heaps that they live on.

pub mod alloc_value;
pub mod collect;
pub mod display;
pub mod equality;
pub mod error;
pub mod freeze;
pub mod layout;
pub mod moved;
pub mod mutate;
pub mod ops;
pub mod reach;
pub mod structure;
pub mod types;

//! Collections with deterministic iteration order and a small footprint.

pub mod compare;
pub mod entries;
pub mod hash;
pub mod idhasher;
pub mod index_set;
pub mod order;
pub mod small_map;

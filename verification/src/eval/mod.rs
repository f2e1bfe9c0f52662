//! What the evaluator needs before and around running code.

pub mod parameters;
pub mod scope;
pub mod slots;

//! Runtime scaffolding of an embeddable, Python-like configuration language:
//! ordered maps, the tagged value pointer and its two heaps, the call
//! protocol, lexical scope resolution and the global environment.

pub mod collections;
pub mod environment;
pub mod eval;
pub mod lsp;
pub mod text;
pub mod values;

//! Ownership passes of a compiler for a language with affine types: what may be moved, where
//! values die, where references may point, and how items are lowered and emitted.

pub mod collections;
pub mod database;
pub mod ids;
pub mod codegen;
pub mod types;
pub mod type_laws;
pub mod definition_collection;
pub mod mir;
pub mod text;
pub mod cst;
pub mod type_inference;

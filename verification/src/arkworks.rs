//! Circuits of the arkworks library as steps of this one: an arkworks circuit is synthesized, its
//! matrices and its witness are taken out, and its constraints are replayed.
pub mod compile;
pub mod field_bridge;
pub mod laws;
pub mod sha256_circuit;
pub mod step_circuit;
pub mod translate;

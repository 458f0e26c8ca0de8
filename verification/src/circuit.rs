//! The verifier of the folding scheme inside a circuit.
pub mod absorb_laws;
pub mod laws;
pub mod point;
pub mod power_check_relation;
pub mod relation;
pub mod transcript_laws;
pub mod univariate;
pub mod value_laws;
pub mod zerofold_nifs;

//! A verified folding scheme for zero-check relations over a prime field.
#![allow(non_snake_case)]

pub mod absorb_laws;
pub mod arith;
pub mod arkworks;
pub mod bn254;
pub mod circuit;
pub mod commitment;
pub mod commitment_laws;
pub mod conversion_laws;
pub mod degree;
pub mod errors;
pub mod field;
pub mod field_laws;
pub mod fold_laws;
pub mod frontend;
pub mod frontend_laws;
pub mod gadget_laws;
pub mod gadgets;
pub mod line_laws;
pub mod math;
pub mod matrix_laws;
pub mod nested_sumcheck;
pub mod nifs;
pub mod nifs_laws;
pub mod nsc_conversion;
pub mod num;
pub mod oracle_laws;
pub mod packing;
pub mod packing_laws;
pub mod polynomial_laws;
pub mod power_check_laws;
pub mod power_check_relation;
pub mod primality;
pub mod prover_laws;
pub mod r1cs;
pub mod relation;
pub mod ro;
pub mod ro_circuit;
pub mod root_laws;
pub mod round_laws;
pub mod round_value_laws;
pub mod scalar_prime;
pub mod size_laws;
pub mod soundness_laws;
pub mod sum_laws;
pub mod sumcheck;
pub mod table_laws;
pub mod traits;
pub mod transcript;
pub mod transcript_laws;
pub mod univariate;
pub mod vector_laws;
pub mod weight_table;
pub mod zerofold_laws;
pub mod zerofold_nifs;
pub mod zerofold_transcript;

//! Verification gadgets for affine point arithmetic on the BN254 G1 curve,
//! compiled for a stack machine that checks claimed results against hints.
//!
//! `field` and `point` model the base field and the curve; `script` gives the
//! machine and its semantics; `g1`, `eval` and `scalar_mul` generate scripts and
//! hints; `proofs` and `algebra` establish what the scripts compute; `exec`
//! runs a script.
pub mod field;
pub mod script;
pub mod point;
pub mod g1;
pub mod eval;
pub mod scalar_mul;
pub mod algebra;
pub mod proofs;
pub mod exec;

//! Matrices over the BLS12-377 scalar field `Fq`, as used to describe
//! Poseidon parameters (MDS matrices and their row vectors).

pub mod error;
pub mod fq;
pub mod laws;
pub mod matrix;

use vstd::prelude::*;

verus! {

/// Errors that matrix operations on Poseidon parameters can report.
#[derive(Clone, Copy, Debug, PartialEq, Eq, Structural)]
pub enum PoseidonParameterError {
    /// The two operands of an element-wise operation differ in shape.
    InvalidMatrixDimensions,
}

} // verus!

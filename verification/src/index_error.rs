use vstd::prelude::*;

verus! {

/// The ways in which an operation on H3 cells can fail.
#[derive(Debug, PartialEq, Eq, Structural)]
pub enum IndexError {
    /// The operation met a pentagon or a pentagon's distortion and gave up.
    PentagonalDistortion,
    /// The input could not be handed to the H3 library.
    InvalidInput,
}

} // verus!

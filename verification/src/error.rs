use vstd::prelude::*;

verus! {

/// The ways in which an operation of this library can be refused.
#[derive(Debug, Clone, Copy, PartialEq, Eq, Structural)]
pub enum Error {
    /// A matrix was read or written outside its declared dimensions.
    IndexOutOfBounds,
    /// Matrices of differing dimensions were handed to a summation.
    ShapeMismatch,
    /// No matrix at all was handed to a summation.
    EmptyInput,
    /// A random value was asked from an empty or inverted range.
    DegenerateRange,
}

} // verus!

//! Errors reported by the estimators.
use vstd::prelude::*;

verus! {

/// Why an estimate could not be made.
#[derive(Debug, Clone, Copy, PartialEq, Eq, Structural)]
pub enum InfoError {
    /// A sample with no values was given where one is required.
    EmptySample,
    /// The two samples of a paired estimate differ in length.
    LengthMismatch,
    /// A bin width that is not positive, or so wide that edges would overflow.
    InvalidWidth,
    /// The sample's quartiles are equal, so its Freedman-Diaconis width is zero.
    DegenerateSample,
    /// The histogram would need more bins than a vector can index.
    TooManyBins,
    /// A value lies outside every bin of the given edges.
    OutOfRange,
}

} // verus!

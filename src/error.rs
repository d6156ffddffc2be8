use vstd::prelude::*;

verus! {

/// Why one comparison between an image vector and a tile vector failed.
#[derive(Debug, Clone, Copy, PartialEq, Eq, Structural)]
pub enum MatchError {
    /// The two vectors do not have the same number of samples.
    LengthMismatch,
    /// The sum of squared differences does not fit in an `i32`.
    Overflow,
}

/// Why a batch produced no indices: the first image, in input order, that
/// could not be matched, and the failure of its first failing comparison.
#[derive(Debug, Clone, Copy, PartialEq, Eq, Structural)]
pub struct BatchError {
    pub image: usize,
    pub error: MatchError,
}

} // verus!

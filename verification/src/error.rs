//! The single failure kind of the library: a shape mismatch at construction.

use vstd::prelude::*;

verus! {

/// Construction-time failure: the supplied storage or pixel array length
/// does not match the declared dimensions.
#[derive(Debug, Eq, PartialEq, Structural, Copy, Clone)]
pub enum EightPxUintEightError {
    InvalidLengthData,
}

} // verus!

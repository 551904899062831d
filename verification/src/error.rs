//! The ways a computation of this library can fail.

use vstd::prelude::*;

verus! {

/// Why a computation gave no result.
#[derive(Clone, Copy, Debug, PartialEq, Eq, Structural)]
pub enum XdsError {
    /// A field of an input record is not a number of the expected form.
    MalformedInput,
    /// A cell without volume, a vector without length, an angle whose
    /// derivation divides by zero: any division by zero, and any square root
    /// of a number below zero.
    DegenerateGeometry,
    /// Nothing to merge, or values and uncertainties that do not pair up.
    InsufficientData,
    /// A value too large for the fixed-point range.
    OutOfRange,
}

/// What a fallible result holds, seen through the view of its value.
pub open spec fn viewed<T: View>(r: Result<T, XdsError>) -> Result<T::V, XdsError> {
    match r {
        Ok(v) => Ok(v@),
        Err(e) => Err(e),
    }
}

} // verus!

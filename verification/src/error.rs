//! Error kinds reported by the solver core.

use vstd::prelude::*;

verus! {

/// Every way a solve attempt can fail.  All of these abort the current
/// attempt; there is no partial-result recovery.
#[derive(Clone, Copy, Debug, PartialEq, Eq, Structural)]
pub enum LpError {
    /// Objective and constraint column counts disagree.
    InvalidDimensions,
    /// A selected pivot element is zero; dividing by it is undefined.
    DegeneratePivot,
    /// The iteration cap was reached before a stopping condition.
    MaxIterationsExceeded,
    /// An exact rational result no longer fits in 64-bit integers.
    ArithmeticOverflow,
}

} // verus!

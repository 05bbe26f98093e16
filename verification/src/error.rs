//! How a computation can fail.

use vstd::prelude::*;

verus! {

/// Why no result set was produced.
#[derive(Clone, Copy, Debug, PartialEq, Eq, Structural)]
pub enum GenerateError {
    /// The zoom factor of the view is zero or negative.
    InvalidView,
    /// The evaluation of a strip did not complete.
    WorkerFailure,
}

} // verus!

//! Error surface of the trainer: configuration problems are fatal and typed;
//! running out of iterations is reported on the fitted model instead, since
//! a partially converged model is still usable.
use vstd::prelude::*;

verus! {

/// A typed failure raised before any solving begins.
#[derive(Clone, Copy, Debug, PartialEq, Eq, Structural)]
pub enum SvmResult {
    /// Neither a penalty value nor a nu value was supplied.
    MissingParameters,
    /// The kernel matrix is not square with one row per target.
    ShapeMismatch,
}

/// How a solve ended: at the requested threshold, or at the iteration cap.
#[derive(Clone, Copy, Debug, PartialEq, Eq, Structural)]
pub enum ExitReason {
    ReachedThreshold,
    ReachedIterations,
}

} // verus!

//! Principal component analysis configuration.  The decomposition itself
//! runs on dense floating-point matrices outside this crate; only the
//! validated parameter set lives here.
use vstd::prelude::*;

verus! {

/// Principal component analysis parameters.
#[derive(Clone, Copy, Debug, PartialEq, Eq, Structural)]
pub struct PcaParams {
    embedding_size: usize,
}

impl PcaParams {
    /// The target dimensionality of the embedding.
    pub closed spec fn target_dim(&self) -> int {
        self.embedding_size as int
    }

    /// Create a parameter set targeting `embedding_size` dimensions.
    pub fn new(embedding_size: usize) -> (r: PcaParams)
        ensures
            r.target_dim() == embedding_size,
    {
        PcaParams { embedding_size }
    }

    /// The target dimensionality of the embedding.
    pub fn embedding_size(&self) -> (r: usize)
        ensures
            r == self.target_dim(),
    {
        self.embedding_size
    }
}

} // verus!

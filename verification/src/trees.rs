//! Decision-tree configuration kept by the toolkit.  Only the impurity
//! choice is representable here; the weight thresholds of the full
//! hyperparameter set are floating-point and stay with the tree trainer.
use vstd::prelude::*;

verus! {

/// The possible impurity measures for training a decision tree.
#[derive(Clone, Copy, Debug, PartialEq, Eq, Structural)]
pub enum SplitQuality {
    Gini,
    Entropy,
}

} // verus!

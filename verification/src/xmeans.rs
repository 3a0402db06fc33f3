//! Configuration tags for the cluster-count search variant, which grows
//! the number of clusters and scores candidate splits with a
//! model-selection criterion.
//!
//! Only the tags live here: the engine they configure seeds and iterates
//! like K-Means, but the split scoring itself is a floating-point
//! likelihood computation and is left to callers outside the verified
//! core.

use vstd::prelude::*;

verus! {

/// How the search's initial centers are chosen.
#[derive(Clone, Copy, Debug, PartialEq, Eq, Structural)]
pub enum XMeansInitialization {
    Random,
    KMeansPlusPlus,
    Precomputed,
}

/// Which model-selection score decides whether a split is kept.
#[derive(Clone, Copy, Debug, PartialEq, Eq, Structural)]
pub enum XMeansSplittingCriterion {
    BIC,
    MNDL,
}

} // verus!

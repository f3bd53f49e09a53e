//! The earlier, ratio-based training feature step. Its features are
//! floating-point speed ratios, which are computed outside this library.

use vstd::prelude::*;

verus! {

/// The ratio-based training feature step; it keeps no state.
#[derive(Debug)]
pub struct TrainingFeatureExtractor {}

impl TrainingFeatureExtractor {
    /// The step; it has nothing to hold.
    pub fn init() -> (r: Self)
        ensures
            r == (TrainingFeatureExtractor {}),
    {
        TrainingFeatureExtractor {}
    }
}

} // verus!

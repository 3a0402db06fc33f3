//! Validated run configuration: the checks every algorithm makes before
//! its first iteration, and the error each failed check raises.

use vstd::prelude::*;
use crate::point::Point;

verus! {

/// Why a clustering configuration was rejected before any iteration ran.
#[derive(Clone, Copy, Debug, PartialEq, Eq, Structural)]
pub enum ConfigError {
    /// The input point set is empty.
    EmptyPointSet,
    /// Two input points, or a precomputed center and the input points,
    /// have different dimensions.
    DimensionMismatch,
    /// The requested cluster count is zero.
    ZeroClusters,
    /// More clusters were requested than there are points.
    TooManyClusters,
    /// The iteration budget is zero.
    ZeroMaxIterations,
    /// The convergence tolerance is not positive.
    NonPositiveTolerance,
    /// Precomputed seeding was requested without exactly `k` centers.
    PrecomputedCountMismatch,
    /// The mini-batch size is zero.
    ZeroBatchSize,
    /// The number of medoid-search restarts is zero.
    ZeroLocalSearches,
}

/// All points share the dimension of the first point.
pub open spec fn equal_dims(ps: Seq<Point>) -> bool {
    forall|i: int| 0 <= i < ps.len() ==> (#[trigger] ps[i]).spec_dim() == ps[0].spec_dim()
}

/// Checks that every point has the same dimension as the first.
pub fn check_equal_dims(points: &Vec<Point>) -> (r: bool)
    requires
        points@.len() >= 1,
    ensures
        r == equal_dims(points@),
{
    let d = points[0].dim();
    let n = points.len();
    let mut i: usize = 0;
    while i < n
        invariant
            n == points@.len(),
            n >= 1,
            d == points@[0].spec_dim(),
            0 <= i <= n,
            forall|x: int| 0 <= x < i ==> (#[trigger] points@[x]).spec_dim() == d,
        decreases n - i,
    {
        if points[i].dim() != d {
            return false;
        }
        i += 1;
    }
    true
}

/// The views of an optional center list.
pub open spec fn opt_views(p: Option<&Vec<Point>>) -> Option<Seq<Point>> {
    match p {
        Some(v) => Some(v@),
        None => None,
    }
}

} // verus!

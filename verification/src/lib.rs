//! Exact k-means clustering for two-dimensional points.
//!
//! Points carry integer coordinates; centroids are exact rationals kept as a
//! coordinate sum together with the count of assigned points, so the mean of a
//! cluster, the squared distances and the total squared error are all exact
//! values that contracts can pin down.

use vstd::prelude::*;

pub mod assign;
pub mod engine;
pub mod error;
pub mod frac;
pub mod point;
pub mod rat;
pub mod update;

verus! {

/// Largest coordinate magnitude a data point may carry.  Keeping coordinates
/// within this bound lets every distance computation fit in 128-bit integers.
pub const MAX_COORD: i64 = 1048576;

/// Largest number of data points a run may take, for the same reason.
pub const MAX_POINTS: usize = 1048576;

} // verus!

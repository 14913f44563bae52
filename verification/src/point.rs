//! Points, centroids and assignments, with their validity bounds.
//!
//! A data point carries integer coordinates.  A centroid is the exact mean of
//! the points assigned to its cluster, kept as the coordinate sums together
//! with the count, so its coordinates are the rationals `sum / count`.

use vstd::prelude::*;

use crate::rat::{Rat, rat_wf};
use crate::MAX_COORD;
use crate::MAX_POINTS;

verus! {

/// A two-dimensional data point with integer coordinates.
#[derive(Clone, Copy, Debug, PartialEq, Eq, Structural)]
pub struct DataPoint {
    pub x: i64,
    pub y: i64,
}

/// The assignment of one data point to a cluster.
#[derive(Clone, Copy, Debug, PartialEq, Eq, Structural)]
pub struct Clustercall {
    pub data_point: DataPoint,
    pub cluster_ind: usize,
}

/// A cluster centre: the exact mean `(sum_x / count, sum_y / count)` of the
/// points the cluster holds, or a seed point when `count` is `1`.
#[derive(Clone, Copy, Debug, PartialEq, Eq, Structural)]
pub struct Centroid {
    pub sum_x: i64,
    pub sum_y: i64,
    pub count: usize,
}

/// A data point's coordinates stay within `MAX_COORD`, so that every
/// distance computation fits in 128 bits.
pub open spec fn valid_point(p: DataPoint) -> bool {
    &&& -(MAX_COORD as int) <= p.x <= MAX_COORD as int
    &&& -(MAX_COORD as int) <= p.y <= MAX_COORD as int
}

/// A dataset holds at most `MAX_POINTS` points, all within bounds.
pub open spec fn valid_data(data: Seq<DataPoint>) -> bool {
    &&& data.len() <= MAX_POINTS as int
    &&& forall|i: int| 0 <= i < data.len() ==> valid_point(#[trigger] data[i])
}

/// A centroid is the mean of at least one and at most `MAX_POINTS` points
/// within coordinate bounds, so its sums are bounded by `count * MAX_COORD`.
pub open spec fn valid_centroid(c: Centroid) -> bool {
    &&& 1 <= c.count <= MAX_POINTS as int
    &&& -(c.count * MAX_COORD) <= c.sum_x <= c.count * MAX_COORD
    &&& -(c.count * MAX_COORD) <= c.sum_y <= c.count * MAX_COORD
}

/// A centroid sequence fixes the cluster count `K`, which must be at least 1.
pub open spec fn valid_centroids(cs: Seq<Centroid>) -> bool {
    &&& cs.len() >= 1
    &&& forall|j: int| 0 <= j < cs.len() ==> valid_centroid(#[trigger] cs[j])
}

/// An assignment list: every entry names a cluster below `k` and carries a
/// point within bounds.
pub open spec fn valid_calls(calls: Seq<Clustercall>, k: int) -> bool {
    &&& calls.len() <= MAX_POINTS as int
    &&& forall|i: int| 0 <= i < calls.len() ==> (#[trigger] calls[i]).cluster_ind < k
    &&& forall|i: int| 0 <= i < calls.len() ==> valid_point((#[trigger] calls[i]).data_point)
}

/// The x coordinate of a centroid, as a rational.
pub open spec fn centroid_x(c: Centroid) -> Rat {
    Rat { num: c.sum_x as int, den: c.count as int }
}

/// The y coordinate of a centroid, as a rational.
pub open spec fn centroid_y(c: Centroid) -> Rat {
    Rat { num: c.sum_y as int, den: c.count as int }
}

/// Squared Euclidean distance between two data points.
pub open spec fn spec_sqdist(a: DataPoint, b: DataPoint) -> int {
    (b.x - a.x) * (b.x - a.x) + (b.y - a.y) * (b.y - a.y)
}

/// Squared Euclidean distance between a point and a centroid, as a rational:
/// scaling both coordinate differences by `count` gives the numerator over
/// `count * count`.
pub open spec fn spec_dist_pc(p: DataPoint, c: Centroid) -> Rat {
    Rat {
        num: (p.x * c.count - c.sum_x) * (p.x * c.count - c.sum_x) + (p.y * c.count - c.sum_y) * (
        p.y * c.count - c.sum_y),
        den: c.count * c.count,
    }
}

/// The distance from a point to a well-formed centroid is a well-formed,
/// non-negative rational.
pub proof fn lemma_dist_pc_wf(p: DataPoint, c: Centroid)
    requires
        valid_centroid(c),
    ensures
        rat_wf(spec_dist_pc(p, c)),
        spec_dist_pc(p, c).num >= 0,
{
    let dx = p.x * c.count - c.sum_x;
    let dy = p.y * c.count - c.sum_y;
    assert(dx * dx >= 0 && dy * dy >= 0 && c.count * c.count > 0) by (nonlinear_arith)
        requires
            c.count >= 1,
    ;
}

/// Squared Euclidean distance between two points, exactly.
pub fn edistance_squared(point_a: &DataPoint, point_b: &DataPoint) -> (r: u64)
    requires
        valid_point(*point_a),
        valid_point(*point_b),
    ensures
        r as int == spec_sqdist(*point_a, *point_b),
{
    let dx: i64 = point_b.x - point_a.x;
    let dy: i64 = point_b.y - point_a.y;
    proof {
        assert(0 <= dx * dx <= 0x40000000000 && 0 <= dy * dy <= 0x40000000000)
            by (nonlinear_arith)
            requires
                -0x200000 <= dx <= 0x200000,
                -0x200000 <= dy <= 0x200000,
        ;
    }
    (dx * dx + dy * dy) as u64
}

/// The squared distance of a point to itself is zero.
pub proof fn lemma_sqdist_self_zero(p: DataPoint)
    ensures
        spec_sqdist(p, p) == 0,
{
}

/// Squared distance is symmetric in its arguments.
pub proof fn lemma_sqdist_symmetric(a: DataPoint, b: DataPoint)
    ensures
        spec_sqdist(a, b) == spec_sqdist(b, a),
{
    assert((b.x - a.x) * (b.x - a.x) == (a.x - b.x) * (a.x - b.x)) by (nonlinear_arith);
    assert((b.y - a.y) * (b.y - a.y) == (a.y - b.y) * (a.y - b.y)) by (nonlinear_arith);
}

/// Squared distance is non-negative, and zero exactly between equal points.
pub proof fn lemma_sqdist_zero_iff_eq(a: DataPoint, b: DataPoint)
    ensures
        spec_sqdist(a, b) >= 0,
        spec_sqdist(a, b) == 0 <==> (a.x == b.x && a.y == b.y),
{
    assert(spec_sqdist(a, b) >= 0 && (spec_sqdist(a, b) == 0 <==> (a.x == b.x && a.y == b.y)))
        by (nonlinear_arith);
}

} // verus!

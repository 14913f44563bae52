//! The maximisation step: each centroid becomes the exact mean of the
//! points assigned to its cluster.
//!
//! A cluster that received no points keeps its previous centroid, so no
//! division by zero can arise and the error metric stays well defined.

use vstd::prelude::*;

use crate::rat::{Rat, rat_wf};
use crate::point::{
    Centroid,
    Clustercall,
    DataPoint,
    centroid_x,
    centroid_y,
    valid_calls,
    valid_centroid,
    valid_centroids,
    valid_point,
};
use crate::MAX_COORD;
use crate::MAX_POINTS;

verus! {

/// The assignments that name cluster `j`, in their original order.
pub open spec fn calls_in_cluster(calls: Seq<Clustercall>, j: int) -> Seq<Clustercall>
    decreases calls.len(),
{
    if calls.len() == 0 {
        Seq::empty()
    } else {
        let rest = calls_in_cluster(calls.drop_last(), j);
        if calls.last().cluster_ind == j {
            rest.push(calls.last())
        } else {
            rest
        }
    }
}

/// The number of assignments that name cluster `j`.
pub open spec fn cnt_in(calls: Seq<Clustercall>, j: int) -> int {
    calls_in_cluster(calls, j).len() as int
}

/// Sum of the x coordinates of a list of assigned points.
pub open spec fn sum_xs(s: Seq<Clustercall>) -> int
    decreases s.len(),
{
    if s.len() == 0 {
        0
    } else {
        sum_xs(s.drop_last()) + s.last().data_point.x
    }
}

/// Sum of the y coordinates of a list of assigned points.
pub open spec fn sum_ys(s: Seq<Clustercall>) -> int
    decreases s.len(),
{
    if s.len() == 0 {
        0
    } else {
        sum_ys(s.drop_last()) + s.last().data_point.y
    }
}

/// The mean x coordinate of a non-empty list of assigned points.
pub open spec fn mean_x(s: Seq<Clustercall>) -> Rat {
    Rat { num: sum_xs(s), den: s.len() as int }
}

/// The mean y coordinate of a non-empty list of assigned points.
pub open spec fn mean_y(s: Seq<Clustercall>) -> Rat {
    Rat { num: sum_ys(s), den: s.len() as int }
}

/// The centroids after an update: the mean of each non-empty cluster, the
/// previous centroid where the cluster is empty.
pub open spec fn spec_update(cents: Seq<Centroid>, calls: Seq<Clustercall>) -> Seq<Centroid> {
    Seq::new(
        cents.len(),
        |j: int|
            if cnt_in(calls, j) > 0 {
                Centroid {
                    sum_x: sum_xs(calls_in_cluster(calls, j)) as i64,
                    sum_y: sum_ys(calls_in_cluster(calls, j)) as i64,
                    count: cnt_in(calls, j) as usize,
                }
            } else {
                cents[j]
            },
    )
}

/// A cluster holds at most all assignments, only points within bounds, and
/// its coordinate sums are bounded by its size.
pub proof fn lemma_cluster_bounds(calls: Seq<Clustercall>, j: int)
    requires
        forall|i: int| 0 <= i < calls.len() ==> valid_point((#[trigger] calls[i]).data_point),
    ensures
        calls_in_cluster(calls, j).len() <= calls.len(),
        forall|l: int|
            0 <= l < calls_in_cluster(calls, j).len() ==> valid_point(
                (#[trigger] calls_in_cluster(calls, j)[l]).data_point,
            ),
        forall|l: int|
            0 <= l < calls_in_cluster(calls, j).len() ==> (#[trigger] calls_in_cluster(calls, j)[l]).cluster_ind
                == j,
        -(cnt_in(calls, j) * MAX_COORD) <= sum_xs(calls_in_cluster(calls, j)) <= cnt_in(calls, j)
            * MAX_COORD,
        -(cnt_in(calls, j) * MAX_COORD) <= sum_ys(calls_in_cluster(calls, j)) <= cnt_in(calls, j)
            * MAX_COORD,
    decreases calls.len(),
{
    if calls.len() > 0 {
        assert(forall|i: int|
            0 <= i < calls.drop_last().len() ==> valid_point(
                (#[trigger] calls.drop_last()[i]).data_point,
            ));
        lemma_cluster_bounds(calls.drop_last(), j);
        let rest = calls_in_cluster(calls.drop_last(), j);
        if calls.last().cluster_ind == j {
            assert(calls_in_cluster(calls, j) == rest.push(calls.last()));
            assert(calls_in_cluster(calls, j).drop_last() =~= rest);
            assert(valid_point(calls.last().data_point));
        }
    }
}

/// The cluster sizes of clusters `0..j`, added up.
pub open spec fn sum_counts(calls: Seq<Clustercall>, j: int) -> int
    decreases j,
{
    if j <= 0 {
        0
    } else {
        sum_counts(calls, j - 1) + cnt_in(calls, j - 1)
    }
}

/// Appending one assignment grows exactly its own cluster's count.
pub proof fn lemma_cnt_push(s: Seq<Clustercall>, c: Clustercall, j: int)
    ensures
        cnt_in(s.push(c), j) == cnt_in(s, j) + if c.cluster_ind == j {
            1int
        } else {
            0int
        },
{
    assert(s.push(c).drop_last() =~= s);
    assert(s.push(c).last() == c);
}

/// Appending one assignment below `j` grows the first `j` counts by one.
pub proof fn lemma_sum_counts_push(s: Seq<Clustercall>, c: Clustercall, j: int)
    requires
        0 <= c.cluster_ind < j,
    ensures
        sum_counts(s.push(c), j) == sum_counts(s, j) + 1,
    decreases j,
{
    lemma_cnt_push(s, c, j - 1);
    if j - 1 > c.cluster_ind {
        lemma_sum_counts_push(s, c, j - 1);
        assert(cnt_in(s.push(c), j - 1) == cnt_in(s, j - 1));
    } else {
        lemma_sum_counts_same(s, c, j - 1);
        assert(cnt_in(s.push(c), j - 1) == cnt_in(s, j - 1) + 1);
    }
    assert(sum_counts(s.push(c), j) == sum_counts(s.push(c), j - 1) + cnt_in(s.push(c), j - 1));
    assert(sum_counts(s, j) == sum_counts(s, j - 1) + cnt_in(s, j - 1));
}

/// Up to and including the appended assignment's own cluster, prefix sums
/// of counts are unchanged by the append.
pub proof fn lemma_sum_counts_same(s: Seq<Clustercall>, c: Clustercall, j: int)
    requires
        j <= c.cluster_ind,
    ensures
        sum_counts(s.push(c), j) == sum_counts(s, j),
    decreases j,
{
    if j > 0 {
        lemma_cnt_push(s, c, j - 1);
        lemma_sum_counts_same(s, c, j - 1);
    }
}

/// Every assignment lies in exactly one cluster: the cluster sizes add up
/// to the number of assignments.
pub proof fn lemma_count_partition(calls: Seq<Clustercall>, k: int)
    requires
        forall|i: int| 0 <= i < calls.len() ==> (#[trigger] calls[i]).cluster_ind < k,
        k >= 0,
    ensures
        sum_counts(calls, k) == calls.len(),
    decreases calls.len(),
{
    if calls.len() == 0 {
        lemma_sum_counts_zero(calls, k);
    } else {
        let s = calls.drop_last();
        let c = calls.last();
        assert(s.push(c) =~= calls);
        lemma_count_partition(s, k);
        lemma_sum_counts_push(s, c, k);
    }
}

/// With no assignments, all cluster sizes are zero.
pub proof fn lemma_sum_counts_zero(calls: Seq<Clustercall>, j: int)
    requires
        calls.len() == 0,
    ensures
        sum_counts(calls, j) == 0,
    decreases j,
{
    if j > 0 {
        lemma_sum_counts_zero(calls, j - 1);
    }
}

/// More clusters than assignments force an empty cluster: some cluster
/// index below `k` receives no assignment at all.
pub proof fn lemma_excess_clusters_leave_one_empty(calls: Seq<Clustercall>, k: int)
    requires
        forall|i: int| 0 <= i < calls.len() ==> (#[trigger] calls[i]).cluster_ind < k,
        k > calls.len(),
    ensures
        exists|j: int| 0 <= j < k && #[trigger] cnt_in(calls, j) == 0,
{
    lemma_count_partition(calls, k);
    if forall|j: int| 0 <= j < k ==> #[trigger] cnt_in(calls, j) >= 1 {
        lemma_sum_counts_lower(calls, k);
    }
}

/// If every cluster below `j` is non-empty, their sizes add up to `j` at
/// least.
pub proof fn lemma_sum_counts_lower(calls: Seq<Clustercall>, j: int)
    requires
        j >= 0,
        forall|l: int| 0 <= l < j ==> #[trigger] cnt_in(calls, l) >= 1,
    ensures
        sum_counts(calls, j) >= j,
    decreases j,
{
    if j > 0 {
        lemma_sum_counts_lower(calls, j - 1);
    }
}

/// The assignments that name the given cluster, in order.
pub fn points_in_cluster(calls: &Vec<Clustercall>, cluster_ind: usize) -> (r: Vec<Clustercall>)
    ensures
        r@ == calls_in_cluster(calls@, cluster_ind as int),
{
    let mut r: Vec<Clustercall> = Vec::new();
    let mut i: usize = 0;
    while i < calls.len()
        invariant
            0 <= i <= calls@.len(),
            r@ == calls_in_cluster(calls@.take(i as int), cluster_ind as int),
        decreases calls@.len() - i,
    {
        proof {
            assert(calls@.take(i + 1).drop_last() =~= calls@.take(i as int));
            assert(calls@.take(i + 1).last() == calls@[i as int]);
        }
        if calls[i].cluster_ind == cluster_ind {
            r.push(calls[i]);
        }
        i = i + 1;
    }
    proof {
        assert(calls@.take(calls@.len() as int) =~= calls@);
    }
    r
}

/// How many assignments name the given cluster.
pub fn Clustercall_number(calls: &Vec<Clustercall>, cluster_ind: usize) -> (r: usize)
    ensures
        r as int == cnt_in(calls@, cluster_ind as int),
{
    let points_in_cluster = points_in_cluster(calls, cluster_ind);
    points_in_cluster.len()
}

/// The exact coordinate sums of the points assigned to the given cluster.
pub fn sum_assigned_values(calls: &Vec<Clustercall>, cluster_ind: usize) -> (r: DataPoint)
    requires
        calls@.len() <= MAX_POINTS as int,
        forall|i: int| 0 <= i < calls@.len() ==> valid_point((#[trigger] calls@[i]).data_point),
    ensures
        r.x as int == sum_xs(calls_in_cluster(calls@, cluster_ind as int)),
        r.y as int == sum_ys(calls_in_cluster(calls@, cluster_ind as int)),
{
    proof {
        lemma_cluster_bounds(calls@, cluster_ind as int);
    }
    let points_in_cluster = points_in_cluster(calls, cluster_ind);
    let ghost pts = points_in_cluster@;
    let mut x_tot: i64 = 0;
    let mut y_tot: i64 = 0;
    let mut i: usize = 0;
    while i < points_in_cluster.len()
        invariant
            0 <= i <= pts.len(),
            pts == points_in_cluster@,
            pts.len() <= MAX_POINTS as int,
            forall|l: int| 0 <= l < pts.len() ==> valid_point((#[trigger] pts[l]).data_point),
            x_tot as int == sum_xs(pts.take(i as int)),
            y_tot as int == sum_ys(pts.take(i as int)),
            -(i as int * MAX_COORD) <= x_tot as int <= i as int * MAX_COORD,
            -(i as int * MAX_COORD) <= y_tot as int <= i as int * MAX_COORD,
        decreases pts.len() - i,
    {
        proof {
            assert(pts.take(i + 1).drop_last() =~= pts.take(i as int));
            assert(pts.take(i + 1).last() == pts[i as int]);
            assert(i as int * MAX_COORD + MAX_COORD == (i + 1) as int * MAX_COORD)
                by (nonlinear_arith);
            assert(i as int * MAX_COORD <= MAX_POINTS as int * MAX_COORD) by (nonlinear_arith)
                requires
                    0 <= i as int <= MAX_POINTS as int,
            ;
        }
        x_tot = x_tot + points_in_cluster[i].data_point.x;
        y_tot = y_tot + points_in_cluster[i].data_point.y;
        i = i + 1;
    }
    proof {
        assert(pts.take(pts.len() as int) =~= pts);
    }
    DataPoint { x: x_tot, y: y_tot }
}

/// The maximisation step: move every centroid to the exact mean of its
/// cluster; a cluster with no points keeps its previous centroid.
pub fn maximisation(cluster_centroids: &mut Vec<Centroid>, calls: &Vec<Clustercall>)
    requires
        valid_centroids(old(cluster_centroids)@),
        valid_calls(calls@, old(cluster_centroids)@.len() as int),
    ensures
        final(cluster_centroids)@ == spec_update(old(cluster_centroids)@, calls@),
        valid_centroids(final(cluster_centroids)@),
{
    let ghost orig = old(cluster_centroids)@;
    let k = cluster_centroids.len();
    let mut i: usize = 0;
    while i < k
        invariant
            0 <= i <= k,
            k == orig.len(),
            cluster_centroids@.len() == k,
            valid_centroids(orig),
            valid_calls(calls@, k as int),
            forall|j: int| 0 <= j < i ==> #[trigger] cluster_centroids@[j] == spec_update(orig, calls@)[j],
            forall|j: int| 0 <= j < i ==> valid_centroid(#[trigger] cluster_centroids@[j]),
            forall|j: int| i <= j < k ==> #[trigger] cluster_centroids@[j] == orig[j],
        decreases k - i,
    {
        let num_points = Clustercall_number(calls, i);
        if num_points > 0 {
            proof {
                lemma_cluster_bounds(calls@, i as int);
                assert(cnt_in(calls@, i as int) * MAX_COORD <= MAX_POINTS as int * MAX_COORD)
                    by (nonlinear_arith)
                    requires
                        0 <= cnt_in(calls@, i as int) <= MAX_POINTS as int,
                ;
            }
            let sum_points = sum_assigned_values(calls, i);
            cluster_centroids.set(
                i,
                Centroid { sum_x: sum_points.x, sum_y: sum_points.y, count: num_points },
            );
        }
        i = i + 1;
    }
    proof {
        assert(cluster_centroids@ =~= spec_update(orig, calls@));
    }
}

/// After an update, each non-empty cluster's centroid is exactly the mean
/// of the coordinates of the points assigned to it.
pub proof fn lemma_updated_centroid_is_mean(cents: Seq<Centroid>, calls: Seq<Clustercall>, j: int)
    requires
        valid_centroids(cents),
        valid_calls(calls, cents.len() as int),
        0 <= j < cents.len(),
        cnt_in(calls, j) > 0,
    ensures
        centroid_x(spec_update(cents, calls)[j]) == mean_x(calls_in_cluster(calls, j)),
        centroid_y(spec_update(cents, calls)[j]) == mean_y(calls_in_cluster(calls, j)),
        rat_wf(mean_x(calls_in_cluster(calls, j))),
        rat_wf(mean_y(calls_in_cluster(calls, j))),
{
    lemma_cluster_bounds(calls, j);
    assert(cnt_in(calls, j) * MAX_COORD <= MAX_POINTS as int * MAX_COORD) by (nonlinear_arith)
        requires
            0 <= cnt_in(calls, j) <= MAX_POINTS as int,
    ;
}

} // verus!

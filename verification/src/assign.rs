//! The assignment step: each point goes to its nearest centroid.
//!
//! Ties between equidistant centroids resolve to the lowest cluster index,
//! so a run is reproducible whatever order distances are examined in.

use vstd::prelude::*;

use crate::rat::{Rat, rat_le, rat_lt, rat_wf, lemma_rat_lt_le_trans};
use crate::point::{
    Centroid,
    Clustercall,
    DataPoint,
    lemma_dist_pc_wf,
    spec_dist_pc,
    valid_calls,
    valid_centroids,
    valid_data,
    valid_point,
};
use crate::frac::{Frac, dist_frac, frac_le, lemma_dist_product_fits, spec_dist_den_bound, spec_dist_num_bound};

verus! {

/// The views of a sequence of fractions.
pub open spec fn fracs_view(s: Seq<Frac>) -> Seq<Rat> {
    s.map_values(|f: Frac| f@)
}

/// Index of the smallest of the first `n` rationals, lowest index on ties.
pub open spec fn argmin_prefix(vals: Seq<Rat>, n: int) -> int
    decreases n,
{
    if n <= 1 {
        0
    } else {
        let m = argmin_prefix(vals, n - 1);
        if rat_le(vals[m], vals[n - 1]) {
            m
        } else {
            n - 1
        }
    }
}

/// The arg-min index is in range, its value is a lower bound of the prefix,
/// and every earlier value is strictly larger.
pub proof fn lemma_argmin_props(vals: Seq<Rat>, n: int)
    requires
        1 <= n <= vals.len(),
        forall|i: int| 0 <= i < n ==> rat_wf(#[trigger] vals[i]),
    ensures
        0 <= argmin_prefix(vals, n) < n,
        forall|i: int| 0 <= i < n ==> rat_le(vals[argmin_prefix(vals, n)], #[trigger] vals[i]),
        forall|i: int| 0 <= i < argmin_prefix(vals, n) ==> rat_lt(
            vals[argmin_prefix(vals, n)],
            #[trigger] vals[i],
        ),
    decreases n,
{
    if n > 1 {
        lemma_argmin_props(vals, n - 1);
        let m = argmin_prefix(vals, n - 1);
        let r = argmin_prefix(vals, n);
        if rat_le(vals[m], vals[n - 1]) {
            assert(r == m);
        } else {
            assert(r == n - 1);
            assert(rat_lt(vals[n - 1], vals[m]));
            assert forall|i: int| 0 <= i < n - 1 implies rat_lt(vals[n - 1], #[trigger] vals[i]) by {
                lemma_rat_lt_le_trans(vals[n - 1], vals[m], vals[i]);
            }
        }
    }
}

/// The distances from a point to each centroid.
pub open spec fn dists_to(p: DataPoint, cents: Seq<Centroid>) -> Seq<Rat> {
    Seq::new(cents.len(), |j: int| spec_dist_pc(p, cents[j]))
}

/// The cluster index of the centroid nearest to `p`, lowest index on ties.
pub open spec fn nearest(p: DataPoint, cents: Seq<Centroid>) -> int {
    argmin_prefix(dists_to(p, cents), cents.len() as int)
}

/// The nearest index is a cluster index, and no centroid is nearer.
pub proof fn lemma_nearest_props(p: DataPoint, cents: Seq<Centroid>)
    requires
        valid_centroids(cents),
    ensures
        0 <= nearest(p, cents) < cents.len(),
        forall|j: int| 0 <= j < cents.len() ==> rat_le(
            spec_dist_pc(p, cents[nearest(p, cents)]),
            spec_dist_pc(p, #[trigger] cents[j]),
        ),
        forall|j: int| 0 <= j < nearest(p, cents) ==> rat_lt(
            spec_dist_pc(p, cents[nearest(p, cents)]),
            spec_dist_pc(p, #[trigger] cents[j]),
        ),
{
    let ds = dists_to(p, cents);
    assert(forall|j: int| 0 <= j < cents.len() ==> ds[j] == spec_dist_pc(p, #[trigger] cents[j]));
    assert forall|j: int| 0 <= j < cents.len() implies rat_wf(#[trigger] ds[j]) by {
        lemma_dist_pc_wf(p, cents[j]);
    }
    lemma_argmin_props(ds, cents.len() as int);
    let m = nearest(p, cents);
    assert forall|j: int| 0 <= j < cents.len() implies rat_le(
        spec_dist_pc(p, cents[m]),
        spec_dist_pc(p, #[trigger] cents[j]),
    ) by {
        assert(rat_le(ds[m], ds[j]));
    }
    assert forall|j: int| 0 <= j < m implies rat_lt(
        spec_dist_pc(p, cents[m]),
        spec_dist_pc(p, #[trigger] cents[j]),
    ) by {
        assert(rat_lt(ds[m], ds[j]));
    }
}

/// The assignment of every data point to its nearest centroid.
pub open spec fn spec_calls(data: Seq<DataPoint>, cents: Seq<Centroid>) -> Seq<Clustercall> {
    Seq::new(
        data.len(),
        |i: int| Clustercall { data_point: data[i], cluster_ind: nearest(data[i], cents) as usize },
    )
}

/// Nearest-centroid assignments are valid: every index is a cluster index.
pub proof fn lemma_spec_calls_valid(data: Seq<DataPoint>, cents: Seq<Centroid>)
    requires
        valid_data(data),
        valid_centroids(cents),
    ensures
        valid_calls(spec_calls(data, cents), cents.len() as int),
        spec_calls(data, cents).len() == data.len(),
{
    assert forall|i: int| 0 <= i < data.len() implies (#[trigger] spec_calls(data, cents)[i]).cluster_ind
        < cents.len() && valid_point(spec_calls(data, cents)[i].data_point) by {
        lemma_nearest_props(data[i], cents);
    }
}

/// Index of the smallest of a non-empty list of fractions; on ties the
/// lowest index wins.
pub fn get_index_of_min_val(vals: &Vec<Frac>) -> (r: usize)
    requires
        vals.len() >= 1,
        forall|i: int| 0 <= i < vals@.len() ==> (#[trigger] vals@[i]).den >= 1,
        forall|i: int, j: int|
            0 <= i < vals@.len() && 0 <= j < vals@.len() ==> (#[trigger] vals@[i]).num * (
            #[trigger] vals@[j]).den <= u128::MAX,
    ensures
        r < vals.len(),
        r as int == argmin_prefix(fracs_view(vals@), vals@.len() as int),
        forall|i: int| 0 <= i < vals@.len() ==> rat_le(vals@[r as int]@, (#[trigger] vals@[i])@),
        forall|i: int| 0 <= i < r ==> rat_lt(vals@[r as int]@, (#[trigger] vals@[i])@),
{
    let ghost view = fracs_view(vals@);
    proof {
        assert(forall|i: int| 0 <= i < vals@.len() ==> #[trigger] view[i] == vals@[i]@);
    }
    let mut min_ind: usize = 0;
    let mut ind: usize = 1;
    while ind < vals.len()
        invariant
            1 <= ind <= vals@.len(),
            0 <= min_ind < ind,
            vals@.len() >= 1,
            view == fracs_view(vals@),
            forall|i: int| 0 <= i < vals@.len() ==> (#[trigger] vals@[i]).den >= 1,
            forall|i: int, j: int|
                0 <= i < vals@.len() && 0 <= j < vals@.len() ==> (#[trigger] vals@[i]).num * (
                #[trigger] vals@[j]).den <= u128::MAX,
            min_ind as int == argmin_prefix(view, ind as int),
            forall|i: int| 0 <= i < ind ==> rat_le(view[min_ind as int], #[trigger] view[i]),
            forall|i: int| 0 <= i < min_ind ==> rat_lt(view[min_ind as int], #[trigger] view[i]),
        decreases vals@.len() - ind,
    {
        if !frac_le(&vals[min_ind], &vals[ind]) {
            proof {
                assert(rat_lt(view[ind as int], view[min_ind as int]));
                assert forall|i: int| 0 <= i < ind implies rat_lt(
                    view[ind as int],
                    #[trigger] view[i],
                ) by {
                    lemma_rat_lt_le_trans(view[ind as int], view[min_ind as int], view[i]);
                }
            }
            min_ind = ind;
        }
        ind = ind + 1;
    }
    proof {
        assert forall|i: int| 0 <= i < vals@.len() implies rat_le(
            vals@[min_ind as int]@,
            (#[trigger] vals@[i])@,
        ) by {
            assert(view[i] == vals@[i]@);
            assert(view[min_ind as int] == vals@[min_ind as int]@);
        }
        assert forall|i: int| 0 <= i < min_ind implies rat_lt(
            vals@[min_ind as int]@,
            (#[trigger] vals@[i])@,
        ) by {
            assert(view[i] == vals@[i]@);
            assert(view[min_ind as int] == vals@[min_ind as int]@);
        }
    }
    min_ind
}

/// The expectation step: assign every point to its nearest centroid.
pub fn expectation(data: &Vec<DataPoint>, cluster_centroids: &Vec<Centroid>) -> (calls: Vec<
    Clustercall,
>)
    requires
        valid_data(data@),
        valid_centroids(cluster_centroids@),
    ensures
        calls@ == spec_calls(data@, cluster_centroids@),
        calls@.len() == data@.len(),
        valid_calls(calls@, cluster_centroids@.len() as int),
{
    let ghost cents = cluster_centroids@;
    let mut calls: Vec<Clustercall> = Vec::new();
    let mut i: usize = 0;
    while i < data.len()
        invariant
            0 <= i <= data@.len(),
            valid_data(data@),
            valid_centroids(cents),
            cents == cluster_centroids@,
            calls@.len() == i,
            forall|l: int| 0 <= l < i ==> #[trigger] calls@[l] == spec_calls(data@, cents)[l],
        decreases data@.len() - i,
    {
        let p = data[i];
        let mut distance: Vec<Frac> = Vec::new();
        let mut j: usize = 0;
        while j < cluster_centroids.len()
            invariant
                0 <= j <= cents.len(),
                valid_point(p),
                valid_centroids(cents),
                cents == cluster_centroids@,
                distance@.len() == j,
                forall|l: int|
                    0 <= l < j ==> (#[trigger] distance@[l]).num as int == spec_dist_pc(
                        p,
                        cents[l],
                    ).num && distance@[l].den as int == spec_dist_pc(p, cents[l]).den,
                forall|l: int|
                    0 <= l < j ==> 1 <= (#[trigger] distance@[l]).den && distance@[l].num as int
                        <= spec_dist_num_bound() && distance@[l].den as int
                        <= spec_dist_den_bound(),
            decreases cents.len() - j,
        {
            let d = dist_frac(&p, &cluster_centroids[j]);
            distance.push(d);
            j = j + 1;
        }
        proof {
            assert(fracs_view(distance@) =~= dists_to(p, cents));
            assert forall|l: int, m: int|
                0 <= l < distance@.len() && 0 <= m < distance@.len() implies (
            #[trigger] distance@[l]).num * (#[trigger] distance@[m]).den <= u128::MAX by {
                lemma_dist_product_fits(distance@[l].num as int, distance@[m].den as int);
            }
        }
        let min_ind = get_index_of_min_val(&distance);
        calls.push(Clustercall { data_point: p, cluster_ind: min_ind });
        i = i + 1;
    }
    proof {
        assert(calls@ =~= spec_calls(data@, cents));
        lemma_spec_calls_valid(data@, cents);
    }
    calls
}

} // verus!

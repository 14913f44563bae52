//! The total squared error: the convergence signal of the clustering loop.
//!
//! The metric is the exact rational sum, over all assignments, of the
//! squared distance between the point and its cluster's centroid.  All
//! points of one cluster share the denominator `count * count`, so the
//! executable metric accumulates each cluster's numerators over that
//! common denominator and only combines the per-cluster fractions at the
//! end; its raw denominator is the product of the clusters' denominators,
//! not one factor per point.  The value is either exact or refused when
//! even that representation exceeds 128 bits.

use vstd::prelude::*;

use crate::rat::{
    Rat,
    lemma_rat_add_assoc,
    lemma_rat_add_comm_raw,
    lemma_rat_add_congruence,
    lemma_rat_add_congruence_left,
    lemma_rat_add_same_den,
    lemma_rat_add_wf,
    lemma_rat_eq_trans,
    rat_add,
    rat_eq,
    rat_wf,
    rat_zero,
};
use crate::point::{
    Centroid,
    Clustercall,
    lemma_dist_pc_wf,
    spec_dist_pc,
    valid_calls,
    valid_centroid,
    valid_centroids,
    valid_point,
};
use crate::frac::{
    Frac,
    dist_frac,
    frac_add,
    lemma_dist_pc_bounds,
    spec_dist_num_bound,
};
use crate::update::{calls_in_cluster, lemma_cluster_bounds, points_in_cluster};
use crate::MAX_POINTS;

verus! {

/// The exact total squared error of an assignment under given centroids,
/// summed in assignment order.
pub open spec fn spec_error(cents: Seq<Centroid>, calls: Seq<Clustercall>) -> Rat
    decreases calls.len(),
{
    if calls.len() == 0 {
        rat_zero()
    } else {
        rat_add(
            spec_error(cents, calls.drop_last()),
            spec_dist_pc(calls.last().data_point, cents[calls.last().cluster_ind as int]),
        )
    }
}

/// Sum of the distance numerators of a list of assignments, all measured
/// against the one centroid `c`.
pub open spec fn err_num_of(c: Centroid, s: Seq<Clustercall>) -> int
    decreases s.len(),
{
    if s.len() == 0 {
        0
    } else {
        err_num_of(c, s.drop_last()) + spec_dist_pc(s.last().data_point, c).num
    }
}

/// Cluster `j`'s share of the error: its numerator sum over the common
/// denominator `count * count`.
pub open spec fn cluster_frac(cents: Seq<Centroid>, calls: Seq<Clustercall>, j: int) -> Rat {
    Rat {
        num: err_num_of(cents[j], calls_in_cluster(calls, j)),
        den: cents[j].count * cents[j].count,
    }
}

/// The per-cluster fractions of clusters `0..j`, combined left to right.
pub open spec fn combined_prefix(cents: Seq<Centroid>, calls: Seq<Clustercall>, j: int) -> Rat
    decreases j,
{
    if j <= 0 {
        rat_zero()
    } else {
        rat_add(combined_prefix(cents, calls, j - 1), cluster_frac(cents, calls, j - 1))
    }
}

/// The raw representation the executable metric produces.
pub open spec fn error_rep(cents: Seq<Centroid>, calls: Seq<Clustercall>) -> Rat {
    combined_prefix(cents, calls, cents.len() as int)
}

/// Whether that representation fits in 128 bits.
pub open spec fn error_fits(cents: Seq<Centroid>, calls: Seq<Clustercall>) -> bool {
    error_rep(cents, calls).num <= u128::MAX && error_rep(cents, calls).den <= u128::MAX
}

/// A cluster's numerator sum is non-negative.
pub proof fn lemma_err_num_nonneg(c: Centroid, s: Seq<Clustercall>)
    requires
        valid_centroid(c),
    ensures
        err_num_of(c, s) >= 0,
    decreases s.len(),
{
    if s.len() > 0 {
        lemma_err_num_nonneg(c, s.drop_last());
        lemma_dist_pc_wf(s.last().data_point, c);
    }
}

/// A cluster's numerator sum is bounded by its size.
pub proof fn lemma_err_num_bound(c: Centroid, s: Seq<Clustercall>)
    requires
        valid_centroid(c),
        forall|l: int| 0 <= l < s.len() ==> valid_point((#[trigger] s[l]).data_point),
    ensures
        0 <= err_num_of(c, s) <= s.len() * spec_dist_num_bound(),
    decreases s.len(),
{
    if s.len() == 0 {
    } else {
        assert(forall|l: int|
            0 <= l < s.drop_last().len() ==> valid_point((#[trigger] s.drop_last()[l]).data_point));
        lemma_err_num_bound(c, s.drop_last());
        lemma_dist_pc_bounds(s.last().data_point, c);
        assert((s.len() - 1) * spec_dist_num_bound() + spec_dist_num_bound() == s.len()
            * spec_dist_num_bound()) by (nonlinear_arith);
    }
}

/// Every combined prefix is a well-formed, non-negative rational.
pub proof fn lemma_combined_props(cents: Seq<Centroid>, calls: Seq<Clustercall>, j: int)
    requires
        valid_centroids(cents),
        0 <= j <= cents.len(),
    ensures
        combined_prefix(cents, calls, j).num >= 0,
        combined_prefix(cents, calls, j).den >= 1,
    decreases j,
{
    if j > 0 {
        lemma_combined_props(cents, calls, j - 1);
        let e = combined_prefix(cents, calls, j - 1);
        let f = cluster_frac(cents, calls, j - 1);
        lemma_err_num_nonneg(cents[j - 1], calls_in_cluster(calls, j - 1));
        assert(f.den >= 1) by (nonlinear_arith)
            requires
                cents[j - 1].count >= 1,
                f.den == cents[j - 1].count * cents[j - 1].count,
        ;
        assert(e.num * f.den + f.num * e.den >= 0 && e.den * f.den >= 1) by (nonlinear_arith)
            requires
                e.num >= 0,
                e.den >= 1,
                f.num >= 0,
                f.den >= 1,
        ;
    }
}

/// A combined prefix never exceeds the full representation, in raw
/// numerator and denominator alike.
pub proof fn lemma_combined_monotone(cents: Seq<Centroid>, calls: Seq<Clustercall>, j: int)
    requires
        valid_centroids(cents),
        0 <= j <= cents.len(),
    ensures
        combined_prefix(cents, calls, j).num <= error_rep(cents, calls).num,
        combined_prefix(cents, calls, j).den <= error_rep(cents, calls).den,
    decreases cents.len() - j,
{
    if j == cents.len() {
    } else {
        lemma_combined_monotone(cents, calls, j + 1);
        lemma_combined_props(cents, calls, j);
        let e = combined_prefix(cents, calls, j);
        let f = cluster_frac(cents, calls, j);
        lemma_err_num_nonneg(cents[j], calls_in_cluster(calls, j));
        assert(f.den >= 1) by (nonlinear_arith)
            requires
                cents[j].count >= 1,
                f.den == cents[j].count * cents[j].count,
        ;
        assert(e.num * f.den + f.num * e.den >= e.num && e.den * f.den >= e.den)
            by (nonlinear_arith)
            requires
                e.num >= 0,
                e.den >= 1,
                f.num >= 0,
                f.den >= 1,
        ;
    }
}

/// The total error is a well-formed, non-negative rational.
pub proof fn lemma_spec_error_props(cents: Seq<Centroid>, calls: Seq<Clustercall>)
    requires
        valid_centroids(cents),
        valid_calls(calls, cents.len() as int),
    ensures
        spec_error(cents, calls).num >= 0,
        spec_error(cents, calls).den >= 1,
    decreases calls.len(),
{
    if calls.len() > 0 {
        assert(valid_calls(calls.drop_last(), cents.len() as int));
        lemma_spec_error_props(cents, calls.drop_last());
        let e = spec_error(cents, calls.drop_last());
        let d = spec_dist_pc(calls.last().data_point, cents[calls.last().cluster_ind as int]);
        lemma_dist_pc_wf(calls.last().data_point, cents[calls.last().cluster_ind as int]);
        assert(e.num * d.den + d.num * e.den >= 0 && e.den * d.den >= 1) by (nonlinear_arith)
            requires
                e.num >= 0,
                e.den >= 1,
                d.num >= 0,
                d.den >= 1,
        ;
    }
}

/// Appending one assignment changes exactly its own cluster's share: the
/// combined prefixes up to that cluster are untouched, and beyond it the
/// new combined value is the old one plus the new point's distance.
pub proof fn lemma_combined_push(
    cents: Seq<Centroid>,
    s: Seq<Clustercall>,
    c: Clustercall,
    j: int,
)
    requires
        valid_centroids(cents),
        0 <= c.cluster_ind < cents.len(),
        0 <= j <= cents.len(),
    ensures
        j <= c.cluster_ind ==> combined_prefix(cents, s.push(c), j) == combined_prefix(
            cents,
            s,
            j,
        ),
        j > c.cluster_ind ==> rat_eq(
            combined_prefix(cents, s.push(c), j),
            rat_add(
                combined_prefix(cents, s, j),
                spec_dist_pc(c.data_point, cents[c.cluster_ind as int]),
            ),
        ),
    decreases j,
{
    let js = c.cluster_ind as int;
    let t = spec_dist_pc(c.data_point, cents[js]);
    assert(s.push(c).drop_last() =~= s);
    assert forall|l: int| 0 <= l < cents.len() implies #[trigger] calls_in_cluster(s.push(c), l)
        == if l == js {
        calls_in_cluster(s, l).push(c)
    } else {
        calls_in_cluster(s, l)
    } by {
        assert(s.push(c).last() == c);
    }
    if j == 0 {
    } else {
        lemma_combined_push(cents, s, c, j - 1);
        lemma_combined_props(cents, s, j - 1);
        lemma_combined_props(cents, s.push(c), j - 1);
        lemma_dist_pc_wf(c.data_point, cents[js]);
        lemma_err_num_nonneg(cents[j - 1], calls_in_cluster(s, j - 1));
        let a = combined_prefix(cents, s, j - 1);
        let a2 = combined_prefix(cents, s.push(c), j - 1);
        let f = cluster_frac(cents, s, j - 1);
        let f2 = cluster_frac(cents, s.push(c), j - 1);
        assert(f.den >= 1 && f.den == f2.den) by (nonlinear_arith)
            requires
                cents[j - 1].count >= 1,
                f.den == cents[j - 1].count * cents[j - 1].count,
                f2.den == cents[j - 1].count * cents[j - 1].count,
        ;
        if j - 1 < js {
            assert(f2 == f);
            assert(a2 == a);
        } else if j - 1 == js {
            assert(a2 == a);
            assert(calls_in_cluster(s.push(c), js).drop_last() =~= calls_in_cluster(s, js));
            assert(f2.num == f.num + t.num);
            assert(t.den == f.den);
            lemma_rat_add_same_den(f, t);
            assert(rat_eq(rat_add(f, t), f2));
            lemma_rat_add_wf(f, t);
            assert(rat_eq(f2, rat_add(f, t)));
            lemma_rat_add_congruence(a2, f2, a, rat_add(f, t));
            lemma_rat_add_assoc(a, f, t);
            assert(rat_eq(
                combined_prefix(cents, s.push(c), j),
                rat_add(combined_prefix(cents, s, j), t),
            ));
        } else {
            assert(f2 == f);
            assert(rat_eq(a2, rat_add(a, t)));
            lemma_rat_add_wf(a, t);
            lemma_rat_add_congruence_left(a2, rat_add(a, t), f);
            lemma_rat_add_assoc(a, t, f);
            lemma_rat_add_comm_raw(t, f);
            lemma_rat_add_assoc(a, f, t);
            assert(rat_add(rat_add(a, t), f) == rat_add(rat_add(a, f), t));
            assert(rat_eq(
                combined_prefix(cents, s.push(c), j),
                rat_add(combined_prefix(cents, s, j), t),
            ));
        }
    }
}

/// The per-cluster representation denotes exactly the total error.
pub proof fn lemma_error_rep_eq(cents: Seq<Centroid>, calls: Seq<Clustercall>)
    requires
        valid_centroids(cents),
        valid_calls(calls, cents.len() as int),
    ensures
        rat_wf(error_rep(cents, calls)),
        rat_wf(spec_error(cents, calls)),
        rat_eq(error_rep(cents, calls), spec_error(cents, calls)),
    decreases calls.len(),
{
    lemma_combined_props(cents, calls, cents.len() as int);
    lemma_spec_error_props(cents, calls);
    if calls.len() == 0 {
        lemma_combined_zero(cents, calls, cents.len() as int);
    } else {
        let s = calls.drop_last();
        let c = calls.last();
        assert(s.push(c) =~= calls);
        assert(valid_calls(s, cents.len() as int));
        lemma_error_rep_eq(cents, s);
        let t = spec_dist_pc(c.data_point, cents[c.cluster_ind as int]);
        lemma_dist_pc_wf(c.data_point, cents[c.cluster_ind as int]);
        lemma_combined_push(cents, s, c, cents.len() as int);
        lemma_combined_props(cents, s, cents.len() as int);
        lemma_rat_add_congruence_left(error_rep(cents, s), spec_error(cents, s), t);
        lemma_rat_eq_trans(
            error_rep(cents, calls),
            rat_add(error_rep(cents, s), t),
            rat_add(spec_error(cents, s), t),
        );
    }
}

/// With no assignments at all, every cluster's share is zero and the
/// combined value is zero.
pub proof fn lemma_combined_zero(cents: Seq<Centroid>, calls: Seq<Clustercall>, j: int)
    requires
        valid_centroids(cents),
        calls.len() == 0,
        0 <= j <= cents.len(),
    ensures
        combined_prefix(cents, calls, j).num == 0,
        combined_prefix(cents, calls, j).den >= 1,
        rat_eq(combined_prefix(cents, calls, j), rat_zero()),
    decreases j,
{
    if j > 0 {
        lemma_combined_zero(cents, calls, j - 1);
        let e = combined_prefix(cents, calls, j - 1);
        let f = cluster_frac(cents, calls, j - 1);
        assert(f.num == 0);
        assert(f.den >= 1) by (nonlinear_arith)
            requires
                cents[j - 1].count >= 1,
                f.den == cents[j - 1].count * cents[j - 1].count,
        ;
        assert(e.num * f.den + f.num * e.den == 0 && e.den * f.den >= 1) by (nonlinear_arith)
            requires
                e.num == 0,
                f.num == 0,
                e.den >= 1,
                f.den >= 1,
        ;
    }
}

/// The exact total squared error, or `None` when even the per-cluster
/// representation exceeds 128 bits — exactly when it does.
pub fn get_error_metric(cluster_centroids: &Vec<Centroid>, calls: &Vec<Clustercall>) -> (r: Option<
    Frac,
>)
    requires
        valid_centroids(cluster_centroids@),
        valid_calls(calls@, cluster_centroids@.len() as int),
    ensures
        r is Some <==> error_fits(cluster_centroids@, calls@),
        r matches Some(f) ==> f.num as int == error_rep(cluster_centroids@, calls@).num
            && f.den as int == error_rep(cluster_centroids@, calls@).den && f.den >= 1 && rat_eq(
            f@,
            spec_error(cluster_centroids@, calls@),
        ),
{
    let ghost cents = cluster_centroids@;
    proof {
        lemma_error_rep_eq(cents, calls@);
    }
    let k = cluster_centroids.len();
    let mut error = Frac { num: 0, den: 1 };
    let mut j: usize = 0;
    while j < k
        invariant
            0 <= j <= k,
            k == cents.len(),
            cents == cluster_centroids@,
            valid_centroids(cents),
            valid_calls(calls@, cents.len() as int),
            error.num as int == combined_prefix(cents, calls@, j as int).num,
            error.den as int == combined_prefix(cents, calls@, j as int).den,
            error.den >= 1,
        decreases k - j,
    {
        proof {
            lemma_cluster_bounds(calls@, j as int);
        }
        let pts = points_in_cluster(calls, j);
        let cj = cluster_centroids[j];
        let ghost cluster = calls_in_cluster(calls@, j as int);
        let mut num: u128 = 0;
        let mut i: usize = 0;
        while i < pts.len()
            invariant
                0 <= i <= pts@.len(),
                pts@ == cluster,
                cluster.len() <= MAX_POINTS as int,
                cj == cents[j as int],
                valid_centroid(cj),
                forall|l: int| 0 <= l < cluster.len() ==> valid_point(
                    (#[trigger] cluster[l]).data_point,
                ),
                num as int == err_num_of(cj, cluster.take(i as int)),
                num as int <= i as int * spec_dist_num_bound(),
            decreases pts@.len() - i,
        {
            proof {
                assert(cluster.take(i + 1).drop_last() =~= cluster.take(i as int));
                assert(cluster.take(i + 1).last() == cluster[i as int]);
                lemma_dist_pc_bounds(cluster[i as int].data_point, cj);
                assert(i as int * spec_dist_num_bound() + spec_dist_num_bound() == (i + 1) as int
                    * spec_dist_num_bound()) by (nonlinear_arith);
                assert(i as int * spec_dist_num_bound() <= MAX_POINTS as int
                    * spec_dist_num_bound()) by (nonlinear_arith)
                    requires
                        0 <= i as int <= MAX_POINTS as int,
                ;
                crate::frac::lemma_num_bound_value();
                assert(MAX_POINTS as int * spec_dist_num_bound() + spec_dist_num_bound()
                    <= u128::MAX) by (nonlinear_arith)
                    requires
                        spec_dist_num_bound() == 9671406556917033397649408,
                        MAX_POINTS as int == 1048576,
                ;
            }
            let t = dist_frac(&pts[i].data_point, &cj);
            num = num + t.num;
            i = i + 1;
        }
        proof {
            assert(cluster.take(cluster.len() as int) =~= cluster);
            assert(cj.count * cj.count >= 1 && cj.count * cj.count <= u128::MAX)
                by (nonlinear_arith)
                requires
                    1 <= cj.count <= MAX_POINTS as int,
            ;
        }
        let cnt: u128 = cj.count as u128;
        let f = Frac { num, den: cnt * cnt };
        match frac_add(&error, &f) {
            None => {
                proof {
                    lemma_combined_monotone(cents, calls@, j + 1);
                }
                return None;
            },
            Some(nf) => {
                error = nf;
            },
        }
        j = j + 1;
    }
    Some(error)
}

} // verus!

//! The clustering loop: assignment, update, error, repeated to a fixed
//! point.
//!
//! One iteration assigns every point to its nearest centroid, moves each
//! centroid to its cluster's exact mean, and computes the total squared
//! error.  The loop stops when two consecutive error values are equal as
//! rationals, or when the configured iteration bound is reached, and then
//! reports the best-found state as not converged.

use vstd::prelude::*;

use crate::rat::{Rat, lemma_rat_eq_trans, rat_eq, rat_wf};
use crate::point::{
    Centroid,
    Clustercall,
    DataPoint,
    valid_calls,
    valid_centroid,
    valid_centroids,
    valid_data,
    valid_point,
};
use crate::frac::Frac;
use crate::assign::{expectation, spec_calls, lemma_spec_calls_valid};
use crate::update::{
    cnt_in,
    lemma_cluster_bounds,
    lemma_excess_clusters_leave_one_empty,
    maximisation,
    spec_update,
};
use crate::error::{error_fits, error_rep, get_error_metric, lemma_error_rep_eq, spec_error};
use crate::MAX_COORD;
use crate::MAX_POINTS;

verus! {

/// The error cases of a clustering run.
#[derive(Clone, Copy, Debug, PartialEq, Eq, Structural)]
pub enum KmeansError {
    /// No centroids, or no data points, were supplied.
    InvalidConfiguration,
    /// An exact error value or comparison exceeded 128 bits.
    ArithmeticOverflow,
}

/// The result of a clustering run: the final centroids and assignments,
/// the error value of every iteration, and whether the loop converged.
#[derive(Debug)]
pub struct KmeansOutput {
    pub centroids: Vec<Centroid>,
    pub calls: Vec<Clustercall>,
    pub errors: Vec<Frac>,
    pub converged: bool,
}

/// Seed points become centroids of count one.
pub open spec fn init_centroids(seeds: Seq<DataPoint>) -> Seq<Centroid> {
    Seq::new(seeds.len(), |j: int| Centroid { sum_x: seeds[j].x, sum_y: seeds[j].y, count: 1 })
}

/// One full iteration on the centroid state.
pub open spec fn spec_step(data: Seq<DataPoint>, cents: Seq<Centroid>) -> Seq<Centroid> {
    spec_update(cents, spec_calls(data, cents))
}

/// The centroid state after `k` iterations.
pub open spec fn iterate(data: Seq<DataPoint>, cents0: Seq<Centroid>, k: nat) -> Seq<Centroid>
    decreases k,
{
    if k == 0 {
        cents0
    } else {
        spec_step(data, iterate(data, cents0, (k - 1) as nat))
    }
}

/// The assignments computed during iteration `k` (for `k >= 1`).
pub open spec fn calls_at(data: Seq<DataPoint>, cents0: Seq<Centroid>, k: nat) -> Seq<
    Clustercall,
> {
    spec_calls(data, iterate(data, cents0, (k - 1) as nat))
}

/// The error value reported by iteration `k` (for `k >= 1`).
pub open spec fn error_at(data: Seq<DataPoint>, cents0: Seq<Centroid>, k: nat) -> Rat {
    spec_error(iterate(data, cents0, k), calls_at(data, cents0, k))
}

/// The raw fraction the error metric produces at iteration `k` (for
/// `k >= 1`).
pub open spec fn rep_at(data: Seq<DataPoint>, cents0: Seq<Centroid>, k: nat) -> Rat {
    error_rep(iterate(data, cents0, k), calls_at(data, cents0, k))
}

/// Whether the cross products that decide equality of two error values fit
/// in 128 bits.
pub open spec fn cmp_fits(a: Rat, b: Rat) -> bool {
    a.num * b.den <= u128::MAX && b.num * a.den <= u128::MAX
}

/// An update of valid centroids by valid assignments is valid.
pub proof fn lemma_spec_update_valid(cents: Seq<Centroid>, calls: Seq<Clustercall>)
    requires
        valid_centroids(cents),
        valid_calls(calls, cents.len() as int),
    ensures
        spec_update(cents, calls).len() == cents.len(),
        valid_centroids(spec_update(cents, calls)),
{
    assert forall|j: int| 0 <= j < cents.len() implies valid_centroid(
        #[trigger] spec_update(cents, calls)[j],
    ) by {
        lemma_cluster_bounds(calls, j);
        if cnt_in(calls, j) > 0 {
            assert(cnt_in(calls, j) * MAX_COORD <= MAX_POINTS as int * MAX_COORD)
                by (nonlinear_arith)
                requires
                    0 <= cnt_in(calls, j) <= MAX_POINTS as int,
            ;
        }
    }
}

/// Every iterate of a valid state is valid and keeps the cluster count.
pub proof fn lemma_iterate_valid(data: Seq<DataPoint>, cents0: Seq<Centroid>, k: nat)
    requires
        valid_data(data),
        valid_centroids(cents0),
    ensures
        iterate(data, cents0, k).len() == cents0.len(),
        valid_centroids(iterate(data, cents0, k)),
    decreases k,
{
    if k > 0 {
        lemma_iterate_valid(data, cents0, (k - 1) as nat);
        let prev = iterate(data, cents0, (k - 1) as nat);
        lemma_spec_calls_valid(data, prev);
        lemma_spec_update_valid(prev, spec_calls(data, prev));
    }
}

/// The raw fraction of iteration `k` denotes exactly that iteration's
/// error value.
pub proof fn lemma_rep_error_bridge(data: Seq<DataPoint>, cents0: Seq<Centroid>, k: nat)
    requires
        valid_data(data),
        valid_centroids(cents0),
        k >= 1,
    ensures
        rat_wf(rep_at(data, cents0, k)),
        rat_wf(error_at(data, cents0, k)),
        rat_eq(rep_at(data, cents0, k), error_at(data, cents0, k)),
{
    lemma_iterate_valid(data, cents0, (k - 1) as nat);
    lemma_iterate_valid(data, cents0, k);
    let prev = iterate(data, cents0, (k - 1) as nat);
    lemma_spec_calls_valid(data, prev);
    lemma_error_rep_eq(iterate(data, cents0, k), calls_at(data, cents0, k));
}

/// Two consecutive raw fractions are equal as rationals exactly when the
/// two error values are.
pub proof fn lemma_cmp_bridge(data: Seq<DataPoint>, cents0: Seq<Centroid>, k: nat)
    requires
        valid_data(data),
        valid_centroids(cents0),
        k >= 2,
    ensures
        rat_eq(rep_at(data, cents0, (k - 1) as nat), rep_at(data, cents0, k)) <==> rat_eq(
            error_at(data, cents0, (k - 1) as nat),
            error_at(data, cents0, k),
        ),
{
    let km = (k - 1) as nat;
    lemma_rep_error_bridge(data, cents0, km);
    lemma_rep_error_bridge(data, cents0, k);
    let ra = rep_at(data, cents0, km);
    let rb = rep_at(data, cents0, k);
    let ea = error_at(data, cents0, km);
    let eb = error_at(data, cents0, k);
    if rat_eq(ra, rb) {
        lemma_rat_eq_trans(ea, ra, rb);
        lemma_rat_eq_trans(ea, rb, eb);
    }
    if rat_eq(ea, eb) {
        lemma_rat_eq_trans(ra, ea, eb);
        lemma_rat_eq_trans(ra, eb, rb);
    }
}

/// With more clusters than data points some cluster receives no point, and
/// the update step then applies the empty-cluster policy to it: its
/// centroid is left exactly as it was.
pub proof fn lemma_excess_clusters_policy(data: Seq<DataPoint>, cents: Seq<Centroid>)
    requires
        valid_data(data),
        valid_centroids(cents),
        cents.len() > data.len(),
    ensures
        exists|j: int|
            0 <= j < cents.len() && #[trigger] cnt_in(spec_calls(data, cents), j) == 0
                && spec_step(data, cents)[j] == cents[j],
{
    lemma_spec_calls_valid(data, cents);
    lemma_excess_clusters_leave_one_empty(spec_calls(data, cents), cents.len() as int);
    let j = choose|j: int|
        0 <= j < cents.len() && #[trigger] cnt_in(spec_calls(data, cents), j) == 0;
    assert(spec_step(data, cents)[j] == cents[j]);
}

/// One iteration of the loop: assign all points, then update all centroids.
pub fn kmeans_one_iteration(cluster_centroids: &mut Vec<Centroid>, data: &Vec<DataPoint>) -> (
    calls: Vec<Clustercall>)
    requires
        valid_data(data@),
        valid_centroids(old(cluster_centroids)@),
    ensures
        calls@ == spec_calls(data@, old(cluster_centroids)@),
        final(cluster_centroids)@ == spec_step(data@, old(cluster_centroids)@),
        final(cluster_centroids)@.len() == old(cluster_centroids)@.len(),
        valid_centroids(final(cluster_centroids)@),
        valid_calls(calls@, final(cluster_centroids)@.len() as int),
        calls@.len() == data@.len(),
{
    let calls = expectation(data, cluster_centroids);
    maximisation(cluster_centroids, &calls);
    calls
}

/// Run the clustering loop from the given seed centroids.
///
/// The loop stops at the first iteration whose exact error equals the
/// previous iteration's, or, failing that, after `max_iterations`
/// iterations with `converged` false.  Every reported error value is the
/// exact total squared error of that iteration.
#[verifier::rlimit(100)]
pub fn run_kmeans(
    data: &Vec<DataPoint>,
    initial_centroids: &Vec<DataPoint>,
    max_iterations: usize,
) -> (r: Result<KmeansOutput, KmeansError>)
    requires
        valid_data(data@),
        forall|j: int| 0 <= j < initial_centroids@.len() ==> valid_point(
            #[trigger] initial_centroids@[j],
        ),
        max_iterations >= 1,
    ensures
        r matches Err(KmeansError::InvalidConfiguration) <==> (data@.len() == 0
            || initial_centroids@.len() == 0),
        r matches Ok(out) ==> ({
            let c0 = init_centroids(initial_centroids@);
            let k = out.errors@.len() as nat;
            &&& 1 <= k <= max_iterations
            &&& out.centroids@ == iterate(data@, c0, k)
            &&& out.calls@ == calls_at(data@, c0, k)
            &&& forall|m: int| 1 <= m <= k ==> (#[trigger] out.errors@[m - 1])@ == rep_at(
                data@,
                c0,
                m as nat,
            )
            &&& forall|m: int| 1 <= m <= k ==> rat_eq(
                (#[trigger] out.errors@[m - 1])@,
                error_at(data@, c0, m as nat),
            )
            &&& forall|m: nat| 2 <= m <= k ==> (rat_eq(
                error_at(data@, c0, (m - 1) as nat),
                #[trigger] error_at(data@, c0, m),
            ) <==> (out.converged && m == k))
            &&& (out.converged ==> k >= 2)
            &&& (!out.converged ==> k == max_iterations)
        }),
        r matches Err(KmeansError::ArithmeticOverflow) ==> ({
            let c0 = init_centroids(initial_centroids@);
            exists|k: nat|
                1 <= k <= max_iterations && (!error_fits(
                    iterate(data@, c0, k),
                    #[trigger] calls_at(data@, c0, k),
                ) || (k >= 2 && !cmp_fits(
                    rep_at(data@, c0, (k - 1) as nat),
                    rep_at(data@, c0, k),
                ))) && (forall|m: nat| 2 <= m < k ==> !rat_eq(
                    error_at(data@, c0, (m - 1) as nat),
                    #[trigger] error_at(data@, c0, m),
                ))
        }),
{
    if data.len() == 0 || initial_centroids.len() == 0 {
        return Err(KmeansError::InvalidConfiguration);
    }
    let ghost c0 = init_centroids(initial_centroids@);
    let mut cluster_centroids: Vec<Centroid> = Vec::new();
    let mut j: usize = 0;
    while j < initial_centroids.len()
        invariant
            0 <= j <= initial_centroids@.len(),
            forall|l: int| 0 <= l < initial_centroids@.len() ==> valid_point(
                #[trigger] initial_centroids@[l],
            ),
            cluster_centroids@.len() == j,
            forall|l: int| 0 <= l < j ==> #[trigger] cluster_centroids@[l] == init_centroids(
                initial_centroids@,
            )[l],
        decreases initial_centroids@.len() - j,
    {
        let seed = initial_centroids[j];
        cluster_centroids.push(Centroid { sum_x: seed.x, sum_y: seed.y, count: 1 });
        j = j + 1;
    }
    proof {
        assert(cluster_centroids@ =~= c0);
        assert(valid_centroids(c0));
    }
    let mut calls: Vec<Clustercall> = Vec::new();
    let mut errors: Vec<Frac> = Vec::new();
    let mut iter: usize = 0;
    while iter < max_iterations
        invariant
            0 <= iter <= max_iterations,
            valid_data(data@),
            data@.len() >= 1,
            c0 == init_centroids(initial_centroids@),
            valid_centroids(c0),
            valid_centroids(cluster_centroids@),
            cluster_centroids@ == iterate(data@, c0, iter as nat),
            errors@.len() == iter,
            iter >= 1 ==> calls@ == calls_at(data@, c0, iter as nat),
            forall|m: int| 1 <= m <= iter ==> (#[trigger] errors@[m - 1])@ == rep_at(
                data@,
                c0,
                m as nat,
            ),
            forall|m: int| 1 <= m <= iter ==> rat_eq(
                (#[trigger] errors@[m - 1])@,
                error_at(data@, c0, m as nat),
            ),
            forall|m: int| 1 <= m <= iter ==> (#[trigger] errors@[m - 1]).den >= 1,
            forall|m: nat| 2 <= m <= iter ==> !rat_eq(
                error_at(data@, c0, (m - 1) as nat),
                #[trigger] error_at(data@, c0, m),
            ),
        decreases max_iterations - iter,
    {
        let ghost prev_state = cluster_centroids@;
        let new_calls = kmeans_one_iteration(&mut cluster_centroids, data);
        proof {
            assert(iterate(data@, c0, (iter + 1) as nat) == spec_step(
                data@,
                iterate(data@, c0, iter as nat),
            ));
        }
        calls = new_calls;
        let e = match get_error_metric(&cluster_centroids, &calls) {
            None => {
                proof {
                    let kw = (iter + 1) as nat;
                    assert(!error_fits(iterate(data@, c0, kw), calls_at(data@, c0, kw)));
                }
                return Err(KmeansError::ArithmeticOverflow);
            },
            Some(e) => e,
        };
        proof {
            assert(e@ == rep_at(data@, c0, (iter + 1) as nat));
            assert(rat_eq(e@, error_at(data@, c0, (iter + 1) as nat)));
        }
        if iter >= 1 {
            let prev_e = errors[iter - 1];
            match crate::frac::frac_eq(&prev_e, &e) {
                None => {
                    proof {
                        let kw = (iter + 1) as nat;
                        assert(prev_e@ == rep_at(data@, c0, iter as nat));
                        assert(!cmp_fits(rep_at(data@, c0, iter as nat), rep_at(data@, c0, kw)));
                    }
                    return Err(KmeansError::ArithmeticOverflow);
                },
                Some(true) => {
                    proof {
                        lemma_cmp_bridge(data@, c0, (iter + 1) as nat);
                    }
                    errors.push(e);
                    return Ok(
                        KmeansOutput {
                            centroids: cluster_centroids,
                            calls,
                            errors,
                            converged: true,
                        },
                    );
                },
                Some(false) => {
                    proof {
                        lemma_cmp_bridge(data@, c0, (iter + 1) as nat);
                    }
                },
            }
        }
        errors.push(e);
        iter = iter + 1;
    }
    Ok(KmeansOutput { centroids: cluster_centroids, calls, errors, converged: false })
}

} // verus!

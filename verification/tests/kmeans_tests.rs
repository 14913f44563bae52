use kmeans::engine::{run_kmeans, kmeans_one_iteration, KmeansError};
use kmeans::point::{Centroid, Clustercall, DataPoint, edistance_squared};
use kmeans::frac::Frac;
use kmeans::assign::{expectation, get_index_of_min_val};
use kmeans::update::{points_in_cluster, sum_assigned_values, Clustercall_number, maximisation};
use kmeans::error::get_error_metric;

fn dp(x: i64, y: i64) -> DataPoint {
    DataPoint { x, y }
}

#[test]
fn test1() {
    let origin = DataPoint { x: 0, y: 0 };
    let point = DataPoint { x: 1, y: 1 };
    let expected = 2;
    let actual = edistance_squared(&origin, &point);
    assert_eq!(expected, actual)
}

#[test]
fn test_distance_self_zero_and_symmetric() {
    let a = dp(-3, 7);
    let b = dp(4, -2);
    assert_eq!(edistance_squared(&a, &a), 0);
    assert_eq!(edistance_squared(&a, &b), edistance_squared(&b, &a));
    assert_eq!(edistance_squared(&a, &b), 49 + 81);
}

#[test]
fn test_min_index_tie_breaks_low() {
    let vals = vec![
        Frac { num: 3, den: 1 },
        Frac { num: 2, den: 4 },
        Frac { num: 1, den: 2 },
    ];
    assert_eq!(get_index_of_min_val(&vals), 1);
}

#[test]
fn test_expectation_tie_lowest_cluster() {
    let data = vec![dp(5, 0)];
    let cents = vec![
        Centroid { sum_x: 0, sum_y: 0, count: 1 },
        Centroid { sum_x: 10, sum_y: 0, count: 1 },
    ];
    let calls = expectation(&data, &cents);
    assert_eq!(calls.len(), 1);
    assert_eq!(calls[0].cluster_ind, 0);
}

#[test]
fn test_cluster_helpers() {
    let calls = vec![
        Clustercall { data_point: dp(1, 2), cluster_ind: 0 },
        Clustercall { data_point: dp(3, 4), cluster_ind: 1 },
        Clustercall { data_point: dp(5, 6), cluster_ind: 0 },
    ];
    assert_eq!(Clustercall_number(&calls, 0), 2);
    assert_eq!(Clustercall_number(&calls, 1), 1);
    assert_eq!(Clustercall_number(&calls, 2), 0);
    let in0 = points_in_cluster(&calls, 0);
    assert_eq!(in0.len(), 2);
    assert_eq!(in0[0].data_point, dp(1, 2));
    assert_eq!(in0[1].data_point, dp(5, 6));
    let sums = sum_assigned_values(&calls, 0);
    assert_eq!(sums, dp(6, 8));
}

#[test]
fn test_maximisation_mean_and_empty_policy() {
    let mut cents = vec![
        Centroid { sum_x: 0, sum_y: 0, count: 1 },
        Centroid { sum_x: 9, sum_y: 9, count: 3 },
    ];
    let calls = vec![
        Clustercall { data_point: dp(0, 0), cluster_ind: 0 },
        Clustercall { data_point: dp(0, 1), cluster_ind: 0 },
    ];
    maximisation(&mut cents, &calls);
    assert_eq!(cents[0], Centroid { sum_x: 0, sum_y: 1, count: 2 });
    assert_eq!(cents[1], Centroid { sum_x: 9, sum_y: 9, count: 3 });
}

#[test]
fn test_error_metric_exact() {
    let cents = vec![Centroid { sum_x: 0, sum_y: 1, count: 2 }];
    let calls = vec![Clustercall { data_point: dp(0, 0), cluster_ind: 0 }];
    let e = get_error_metric(&cents, &calls).unwrap();
    assert_eq!(e.num, 1);
    assert_eq!(e.den, 4);
}

#[test]
fn test_two_cluster_scenario() {
    let data = vec![dp(0, 0), dp(0, 1), dp(10, 10), dp(10, 11)];
    let seeds = vec![dp(0, 0), dp(10, 0)];
    let out = run_kmeans(&data, &seeds, 10).unwrap();
    assert!(out.converged);
    assert_eq!(out.errors.len(), 2);
    assert_eq!(out.centroids[0], Centroid { sum_x: 0, sum_y: 1, count: 2 });
    assert_eq!(out.centroids[1], Centroid { sum_x: 20, sum_y: 21, count: 2 });
    let inds: Vec<usize> = out.calls.iter().map(|c| c.cluster_ind).collect();
    assert_eq!(inds, vec![0, 0, 1, 1]);
    let last = out.errors[1];
    assert_eq!(last.num, last.den);
}

#[test]
fn test_error_sequence_non_increasing() {
    let data = vec![dp(0, 0), dp(0, 1), dp(10, 10), dp(10, 11)];
    let seeds = vec![dp(0, 0), dp(10, 0)];
    let out = run_kmeans(&data, &seeds, 10).unwrap();
    for w in out.errors.windows(2) {
        assert!(w[0].num * w[1].den >= w[1].num * w[0].den);
    }
}

#[test]
fn test_single_cluster_converges() {
    let data = vec![dp(1, 2), dp(3, 4)];
    let seeds = vec![dp(0, 0)];
    let out = run_kmeans(&data, &seeds, 10).unwrap();
    assert!(out.converged);
    assert_eq!(out.errors.len(), 2);
    assert_eq!(out.centroids[0], Centroid { sum_x: 4, sum_y: 6, count: 2 });
    let last = out.errors[1];
    assert_eq!(last.num, 4 * last.den);
}

#[test]
fn test_excess_clusters_keep_empty_centroid() {
    let data = vec![dp(0, 0), dp(0, 1)];
    let seeds = vec![dp(0, 0), dp(0, 1), dp(5, 5)];
    let out = run_kmeans(&data, &seeds, 10).unwrap();
    assert!(out.converged);
    assert_eq!(out.centroids[2], Centroid { sum_x: 5, sum_y: 5, count: 1 });
    assert_eq!(out.errors[out.errors.len() - 1].num, 0);
}

#[test]
fn test_invalid_configuration() {
    let empty: Vec<DataPoint> = vec![];
    let seeds = vec![dp(0, 0)];
    assert_eq!(run_kmeans(&empty, &seeds, 10).unwrap_err(), KmeansError::InvalidConfiguration);
    let data = vec![dp(0, 0)];
    let no_seeds: Vec<DataPoint> = vec![];
    assert_eq!(run_kmeans(&data, &no_seeds, 10).unwrap_err(), KmeansError::InvalidConfiguration);
}

#[test]
fn test_larger_dataset_exact_error() {
    let data: Vec<DataPoint> = (0..20).map(|i| dp(i, i)).collect();
    let seeds = vec![dp(0, 0)];
    let out = run_kmeans(&data, &seeds, 10).unwrap();
    assert!(out.converged);
    assert_eq!(out.centroids[0], Centroid { sum_x: 190, sum_y: 190, count: 20 });
    let last = out.errors[out.errors.len() - 1];
    assert_eq!(last.num, 1330 * last.den);
}

#[test]
fn test_arithmetic_overflow_reported() {
    let mut data: Vec<DataPoint> = Vec::new();
    let sites = [dp(0, 0), dp(1000, 0), dp(0, 1000), dp(1000, 1000)];
    for site in sites {
        for _ in 0..70000 {
            data.push(site);
        }
    }
    let seeds = sites.to_vec();
    assert_eq!(run_kmeans(&data, &seeds, 10).unwrap_err(), KmeansError::ArithmeticOverflow);
}

#[test]
fn test_one_iteration_matches_loop() {
    let data = vec![dp(0, 0), dp(0, 1), dp(10, 10), dp(10, 11)];
    let mut cents = vec![
        Centroid { sum_x: 0, sum_y: 0, count: 1 },
        Centroid { sum_x: 10, sum_y: 0, count: 1 },
    ];
    let calls = kmeans_one_iteration(&mut cents, &data);
    assert_eq!(calls.len(), 4);
    assert_eq!(cents[0], Centroid { sum_x: 0, sum_y: 1, count: 2 });
    assert_eq!(cents[1], Centroid { sum_x: 20, sum_y: 21, count: 2 });
}

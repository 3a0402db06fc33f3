use clustering::kmeans::{KMeans, KMeansInitialization};
use clustering::point::{Point, copy_points};
use clustering::engine::{assign_points, group_by_cluster, total_inertia};
use clustering::update::mean_update;
use clustering::distance::Metric;
use rand::Rng;
use rand::SeedableRng;

fn scenario_a_points() -> Vec<Point> {
    // two blobs, coordinates in thousandths
    vec![
        Point::new(vec![0, 0]),
        Point::new(vec![0, 1000]),
        Point::new(vec![1000, 0]),
        Point::new(vec![10000, 10000]),
        Point::new(vec![10000, 11000]),
        Point::new(vec![11000, 10000]),
    ]
}

fn random_points(n: usize, dim: usize, seed: u64) -> Vec<Point> {
    let mut rng = rand::rngs::StdRng::seed_from_u64(seed);
    (0..n)
        .map(|_| Point::new((0..dim).map(|_| rng.gen_range(0..=1_000_000)).collect()))
        .collect()
}

#[test]
fn can_run_kmeans() {
    let dimension = 2;
    let points = random_points(10000, dimension, 7);

    let output = KMeans::run(
        &points,
        10,
        15,
        10,
        KMeansInitialization::Random,
        None,
        42,
    )
    .unwrap();

    assert_eq!(points.len(), output.assignments().len());
    if output.iterations() < output.max_iterations() {
        assert!(output.converged());
    } else if output.iterations() == output.max_iterations() {
        assert!(!output.converged());
    } else {
        panic!("Algorithm should not run for more than max_iterations");
    }

    assert!(output.assignments().iter().all(|a| *a < output.centroids().len()));
    assert!(output.centroids().iter().all(|c| c.coordinates().len() == dimension));
}

#[test]
fn fixed_seed_reproduces_runs() {
    let points = random_points(200, 3, 11);
    for init in [KMeansInitialization::Random, KMeansInitialization::KMeansPlusPlus] {
        let a = KMeans::run(&points, 5, 15, 10, init, None, 1234).unwrap();
        let b = KMeans::run(&points, 5, 15, 10, init, None, 1234).unwrap();
        assert_eq!(a.centroids(), b.centroids());
        assert_eq!(a.assignments(), b.assignments());
        assert_eq!(a.iterations(), b.iterations());
        assert_eq!(a.converged(), b.converged());
    }
}

#[test]
fn assignment_is_total() {
    let points = random_points(500, 2, 3);
    let output = KMeans::run(
        &points,
        7,
        15,
        10,
        KMeansInitialization::KMeansPlusPlus,
        None,
        99,
    )
    .unwrap();
    assert_eq!(output.assignments().len(), points.len());
    for label in output.assignments() {
        assert!(*label < 7);
    }
}

#[test]
fn inertia_never_increases_across_passes() {
    let points = random_points(300, 2, 21);
    let mut centers = copy_points(&vec![
        clustering::point::copy_point(&points[0]),
        clustering::point::copy_point(&points[1]),
        clustering::point::copy_point(&points[2]),
        clustering::point::copy_point(&points[3]),
    ]);
    let mut last = total_inertia(Metric::SquaredEuclidean, &points, &centers);
    for _ in 0..10 {
        let asg = assign_points(Metric::SquaredEuclidean, &points, &centers);
        let buckets = group_by_cluster(&asg, centers.len());
        centers = mean_update(&points, &buckets, &centers);
        let now = total_inertia(Metric::SquaredEuclidean, &points, &centers);
        assert!(now <= last);
        last = now;
    }
}

#[test]
fn converged_centers_are_reproduced_exactly() {
    let points = scenario_a_points();
    // iterate manually until the mean update reproduces the centers exactly
    let mut centers = vec![
        clustering::point::copy_point(&points[0]),
        clustering::point::copy_point(&points[3]),
    ];
    let mut settled = false;
    for _ in 0..50 {
        let asg = assign_points(Metric::SquaredEuclidean, &points, &centers);
        let buckets = group_by_cluster(&asg, centers.len());
        let updated = mean_update(&points, &buckets, &centers);
        if updated == centers {
            settled = true;
            break;
        }
        centers = updated;
    }
    assert!(settled);
    // one more assignment-and-update pass on the settled centers changes nothing
    let asg = assign_points(Metric::SquaredEuclidean, &points, &centers);
    let buckets = group_by_cluster(&asg, centers.len());
    let again = mean_update(&points, &buckets, &centers);
    assert_eq!(again, centers);
    // a run seeded with the settled centers converges with zero iterations
    let rerun = KMeans::run(
        &points,
        2,
        15,
        1,
        KMeansInitialization::Precomputed,
        Some(&centers),
        0,
    )
    .unwrap();
    assert!(rerun.converged());
    assert_eq!(rerun.iterations(), 0);
    assert_eq!(rerun.centroids(), &centers);
}

#[test]
fn each_point_its_own_cluster_when_k_equals_n() {
    let points = scenario_a_points();
    let init = copy_points(&points);
    let output = KMeans::run(
        &points,
        points.len(),
        15,
        1,
        KMeansInitialization::Precomputed,
        Some(&init),
        0,
    )
    .unwrap();
    assert!(output.converged());
    assert_eq!(output.iterations(), 0);
    for (i, label) in output.assignments().iter().enumerate() {
        assert_eq!(*label, i);
    }
    assert_eq!(total_inertia(Metric::SquaredEuclidean, &points, output.centroids()), 0);
}

#[test]
fn scenario_two_blobs_mean_rule() {
    let points = scenario_a_points();
    let output = KMeans::run(
        &points,
        2,
        15,
        1,
        KMeansInitialization::KMeansPlusPlus,
        None,
        5,
    )
    .unwrap();
    assert!(output.converged());
    assert!(output.iterations() < 15);
    let asg = output.assignments();
    // each blob lands in one cluster; the two blobs get different labels
    assert_eq!(asg[0], asg[1]);
    assert_eq!(asg[0], asg[2]);
    assert_eq!(asg[3], asg[4]);
    assert_eq!(asg[3], asg[5]);
    assert_ne!(asg[0], asg[3]);
}

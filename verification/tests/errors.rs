use clustering::kmeans::{KMeans, KMeansInitialization};
use clustering::kmedoids::{KMedoids, KMedoidsInitialization};
use clustering::mini_batch_kmeans::MiniBatchKMeans;
use clustering::clarans::Clarans;
use clustering::config::ConfigError;
use clustering::point::Point;

fn two_points() -> Vec<Point> {
    vec![Point::new(vec![0, 0]), Point::new(vec![4, 4])]
}

#[test]
fn empty_point_set_is_rejected() {
    let points: Vec<Point> = Vec::new();
    let r = KMeans::run(&points, 1, 15, 1, KMeansInitialization::Random, None, 0);
    assert_eq!(r.unwrap_err(), ConfigError::EmptyPointSet);
}

#[test]
fn mismatched_dimensions_are_rejected() {
    let points = vec![Point::new(vec![0, 0]), Point::new(vec![1, 2, 3])];
    let r = KMeans::run(&points, 1, 15, 1, KMeansInitialization::Random, None, 0);
    assert_eq!(r.unwrap_err(), ConfigError::DimensionMismatch);
}

#[test]
fn zero_clusters_are_rejected() {
    let points = two_points();
    let r = KMeans::run(&points, 0, 15, 1, KMeansInitialization::Random, None, 0);
    assert_eq!(r.unwrap_err(), ConfigError::ZeroClusters);
}

#[test]
fn more_clusters_than_points_are_rejected() {
    let points = two_points();
    let r = KMeans::run(&points, 3, 15, 1, KMeansInitialization::Random, None, 0);
    assert_eq!(r.unwrap_err(), ConfigError::TooManyClusters);
}

#[test]
fn zero_iteration_budget_is_rejected() {
    let points = two_points();
    let r = KMeans::run(&points, 1, 0, 1, KMeansInitialization::Random, None, 0);
    assert_eq!(r.unwrap_err(), ConfigError::ZeroMaxIterations);
}

#[test]
fn non_positive_tolerance_is_rejected() {
    let points = two_points();
    let r = KMeans::run(&points, 1, 15, 0, KMeansInitialization::Random, None, 0);
    assert_eq!(r.unwrap_err(), ConfigError::NonPositiveTolerance);
    let r2 = KMeans::run(&points, 1, 15, -5, KMeansInitialization::Random, None, 0);
    assert_eq!(r2.unwrap_err(), ConfigError::NonPositiveTolerance);
}

#[test]
fn precomputed_seeding_needs_exactly_k_centers() {
    let points = two_points();
    let r = KMeans::run(&points, 2, 15, 1, KMeansInitialization::Precomputed, None, 0);
    assert_eq!(r.unwrap_err(), ConfigError::PrecomputedCountMismatch);
    let one = vec![Point::new(vec![0, 0])];
    let r2 = KMeans::run(&points, 2, 15, 1, KMeansInitialization::Precomputed, Some(&one), 0);
    assert_eq!(r2.unwrap_err(), ConfigError::PrecomputedCountMismatch);
    let wrong_dim = vec![Point::new(vec![0, 0]), Point::new(vec![1, 2, 3])];
    let r3 = KMeans::run(
        &points,
        2,
        15,
        1,
        KMeansInitialization::Precomputed,
        Some(&wrong_dim),
        0,
    );
    assert_eq!(r3.unwrap_err(), ConfigError::DimensionMismatch);
}

#[test]
fn kmedoids_rejects_precomputed_without_centers() {
    let points = two_points();
    let r = KMedoids::run(&points, 1, 15, KMedoidsInitialization::Precomputed, 0);
    assert_eq!(r.unwrap_err(), ConfigError::PrecomputedCountMismatch);
}

#[test]
fn zero_batch_size_is_rejected() {
    let points = two_points();
    let r = MiniBatchKMeans::run(
        &points,
        1,
        15,
        1,
        0,
        KMeansInitialization::Random,
        None,
        0,
    );
    assert_eq!(r.unwrap_err(), ConfigError::ZeroBatchSize);
}

#[test]
fn zero_restarts_are_rejected() {
    let points = two_points();
    let r = Clarans::run(&points, 1, 0, 4, 0);
    assert_eq!(r.unwrap_err(), ConfigError::ZeroLocalSearches);
}

use clustering::kmedians::{KMedians, KMediansInitialization};
use clustering::mini_batch_kmeans::MiniBatchKMeans;
use clustering::kmeans::KMeansInitialization;
use clustering::clarans::Clarans;
use clustering::update::online_update;
use clustering::point::Point;

fn blob_points() -> Vec<Point> {
    vec![
        Point::new(vec![0, 0]),
        Point::new(vec![0, 1000]),
        Point::new(vec![1000, 0]),
        Point::new(vec![10000, 10000]),
        Point::new(vec![10000, 11000]),
        Point::new(vec![11000, 10000]),
    ]
}

#[test]
fn kmedians_separates_two_blobs() {
    let points = blob_points();
    let output = KMedians::run(
        &points,
        2,
        15,
        1,
        KMediansInitialization::KMeansPlusPlus,
        None,
        5,
    )
    .unwrap();
    assert!(output.converged);
    assert_eq!(output.assignments.len(), points.len());
    let asg = &output.assignments;
    assert_eq!(asg[0], asg[1]);
    assert_eq!(asg[0], asg[2]);
    assert_eq!(asg[3], asg[4]);
    assert_eq!(asg[3], asg[5]);
    assert_ne!(asg[0], asg[3]);
}

#[test]
fn kmedians_median_is_dimension_wise() {
    // one cluster: the center becomes the per-dimension median
    let points = vec![
        Point::new(vec![0, 100]),
        Point::new(vec![10, 0]),
        Point::new(vec![100, 10]),
    ];
    let init = vec![Point::new(vec![0, 0])];
    let output = KMedians::run(
        &points,
        1,
        15,
        1,
        KMediansInitialization::Precomputed,
        Some(&init),
        0,
    )
    .unwrap();
    assert_eq!(output.centroids[0].coordinates(), &[10, 10]);
}

#[test]
fn mini_batch_moves_centers_toward_samples() {
    let points = blob_points();
    let output = MiniBatchKMeans::run(
        &points,
        2,
        15,
        1,
        64,
        KMeansInitialization::KMeansPlusPlus,
        None,
        9,
    )
    .unwrap();
    assert_eq!(output.assignments.len(), points.len());
    for label in &output.assignments {
        assert!(*label < 2);
    }
    assert_eq!(output.centroids.len(), 2);
    assert!(output.iterations <= 15);
    assert_eq!(output.converged, output.iterations < 15);
}

#[test]
fn online_update_is_incremental_mean() {
    let old = Point::new(vec![0, 0]);
    let p = Point::new(vec![10, 6]);
    let moved = online_update(&old, &p, 1);
    assert_eq!(moved.coordinates(), &[10, 6]);
    let old2 = Point::new(vec![0, 0]);
    let moved2 = online_update(&old2, &p, 2);
    assert_eq!(moved2.coordinates(), &[5, 3]);
    let old3 = Point::new(vec![0, 0]);
    let moved3 = online_update(&old3, &p, 3);
    assert_eq!(moved3.coordinates(), &[3, 2]);
}

#[test]
fn clarans_picks_distinct_medoids() {
    let points = blob_points();
    let output = Clarans::run(&points, 2, 3, 6, 13).unwrap();
    assert_eq!(output.medoids.len(), 2);
    assert_ne!(output.medoids[0], output.medoids[1]);
    assert_eq!(output.assignments.len(), points.len());
    for label in &output.assignments {
        assert!(*label < 2);
    }
    assert_eq!(output.iterations, 0);
    assert!(output.converged);
    for (j, c) in output.centroids.iter().enumerate() {
        assert_eq!(c, &points[output.medoids[j]]);
    }
}

#[test]
fn clarans_fixed_seed_reproduces_runs() {
    let points = blob_points();
    let a = Clarans::run(&points, 2, 2, 4, 77).unwrap();
    let b = Clarans::run(&points, 2, 2, 4, 77).unwrap();
    assert_eq!(a.medoids, b.medoids);
    assert_eq!(a.assignments, b.assignments);
}

#[test]
fn empty_cluster_keeps_previous_center() {
    // both initial centers coincide, so one cluster gets every point and
    // the other stays empty and keeps its center instead of dividing by
    // zero
    let points = vec![Point::new(vec![0, 0]), Point::new(vec![2, 0])];
    let far = vec![Point::new(vec![100, 100]), Point::new(vec![100, 100])];
    let output = clustering::kmeans::KMeans::run(
        &points,
        2,
        15,
        1,
        KMeansInitialization::Precomputed,
        Some(&far),
        0,
    )
    .unwrap();
    assert!(output.converged);
    // the tie-break sends both points to the first center; the second
    // cluster is empty and its center never moves
    assert_eq!(output.assignments, vec![0, 0]);
    assert_eq!(output.centroids[0].coordinates(), &[1, 0]);
    assert_eq!(output.centroids[1].coordinates(), &[100, 100]);
}

#[test]
fn extreme_coordinates_stay_in_range() {
    let lim = clustering::point::COORD_LIMIT;
    let points = vec![
        Point::new(vec![-lim, -lim]),
        Point::new(vec![lim, lim]),
        Point::new(vec![lim, -lim]),
    ];
    let output = clustering::kmeans::KMeans::run(
        &points,
        1,
        15,
        1,
        KMeansInitialization::Random,
        None,
        2,
    )
    .unwrap();
    let c = output.centroids[0].coordinates();
    assert!(c.iter().all(|x| -lim <= *x && *x <= lim));
    // the mean of the three corners, rounded to the nearest unit
    assert_eq!(c, &[333_333, -333_333]);
}

#[test]
fn kmedians_even_cluster_averages_middle_values() {
    let points = vec![
        Point::new(vec![0, 100]),
        Point::new(vec![10, 0]),
        Point::new(vec![100, 10]),
        Point::new(vec![50, 50]),
    ];
    let init = vec![Point::new(vec![0, 0])];
    let output = KMedians::run(
        &points,
        1,
        15,
        1,
        KMediansInitialization::Precomputed,
        Some(&init),
        0,
    )
    .unwrap();
    assert_eq!(output.centroids[0].coordinates(), &[30, 30]);
}

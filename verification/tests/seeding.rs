use clustering::seeding::{kmeans_pp_seed, pick_by_weight, centers_from_indices};
use clustering::point::Point;
use clustering::distance::Metric;
use clustering::statistics::Statistics;
use clustering::kmeans::{KMeans, KMeansInitialization};
use rand::SeedableRng;

#[test]
fn cumulative_selection_picks_first_exhausting_weight() {
    let ws: Vec<i64> = vec![2, 3, 5];
    // threshold 4: 2 does not reach it, 2+3 does
    assert_eq!(pick_by_weight(&ws, 4), 1);
    // threshold 0 selects the first point even with weight zero
    let zs: Vec<i64> = vec![0, 3];
    assert_eq!(pick_by_weight(&zs, 0), 0);
    // a threshold beyond the total falls back to the last index
    assert_eq!(pick_by_weight(&ws, 1_000), 2);
}

#[test]
fn weighted_seeding_prefers_far_points() {
    let points = vec![
        Point::new(vec![0]),
        Point::new(vec![1]),
        Point::new(vec![100]),
    ];
    // first center is point 0; weights are then 0, 1, 10000.
    // half the total weight lands inside the far point's span,
    // so a mid-range fraction must select index 2.
    let fracs = vec![1u64 << 63];
    let chosen = kmeans_pp_seed(Metric::SquaredEuclidean, &points, 0, &fracs);
    assert_eq!(chosen, vec![0, 2]);
    // a zero fraction exhausts at the first point, weight zero or not
    let fracs0 = vec![0u64];
    let chosen0 = kmeans_pp_seed(Metric::SquaredEuclidean, &points, 0, &fracs0);
    assert_eq!(chosen0, vec![0, 0]);
}

#[test]
fn chosen_indices_materialize_as_centers() {
    let points = vec![
        Point::new(vec![5, 5]),
        Point::new(vec![7, -7]),
        Point::new(vec![0, 3]),
    ];
    let idxs = vec![2usize, 0usize];
    let centers = centers_from_indices(&points, &idxs);
    assert_eq!(centers.len(), 2);
    assert_eq!(centers[0].coordinates(), &[0, 3]);
    assert_eq!(centers[1].coordinates(), &[5, 5]);
}

#[test]
fn statistics_mean_rounds_half_up() {
    let vectors = vec![vec![1i64, 2], vec![3, 4]];
    assert_eq!(Statistics::mean(&vectors), vec![2, 3]);
    let odd = vec![vec![1i64], vec![2]];
    assert_eq!(Statistics::mean(&odd), vec![2]);
    let neg = vec![vec![-1i64], vec![-2]];
    assert_eq!(Statistics::mean(&neg), vec![-1]);
}

#[test]
fn statistics_max_change_takes_largest_displacement() {
    let old = vec![Point::new(vec![0, 0]), Point::new(vec![10, 10])];
    let new = vec![Point::new(vec![1, 0]), Point::new(vec![10, 13])];
    assert_eq!(Statistics::max_change(&old, &new), 9);
}

#[test]
fn statistics_variance_sums_squared_distances() {
    let centroid = Point::new(vec![0, 0]);
    let points = vec![Point::new(vec![3, 4]), Point::new(vec![1, 1])];
    assert_eq!(Statistics::variance(&centroid, &points), 27);
}

#[test]
fn initial_centroids_copy_input_points() {
    let points = vec![
        Point::new(vec![0, 0]),
        Point::new(vec![10, 0]),
        Point::new(vec![0, 10]),
    ];
    let mut rng = rand::rngs::StdRng::seed_from_u64(4);
    let cs = KMeans::initial_centroids(
        &points,
        2,
        KMeansInitialization::Random,
        None,
        &mut rng,
    )
    .unwrap();
    assert_eq!(cs.len(), 2);
    for c in &cs {
        assert!(points.iter().any(|p| p == c));
    }
    let mut rng2 = rand::rngs::StdRng::seed_from_u64(4);
    let pp = KMeans::initial_centroids(
        &points,
        3,
        KMeansInitialization::KMeansPlusPlus,
        None,
        &mut rng2,
    )
    .unwrap();
    assert_eq!(pp.len(), 3);
    for c in &pp {
        assert!(points.iter().any(|p| p == c));
    }
    let given = vec![Point::new(vec![1, 1])];
    let mut rng3 = rand::rngs::StdRng::seed_from_u64(4);
    let pre = KMeans::initial_centroids(
        &points,
        1,
        KMeansInitialization::Precomputed,
        Some(&given),
        &mut rng3,
    )
    .unwrap();
    assert_eq!(pre[0].coordinates(), &[1, 1]);
}

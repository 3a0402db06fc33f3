use clustering::point::Point;
use clustering::engine::{assign_points, group_by_cluster, nearest_center, total_inertia};
use clustering::distance::Metric;
use clustering::sort::sorted_values;
use clustering::arith::{round_div_i128, mul_frac};

#[test]
fn nearest_center_prefers_first_on_ties() {
    let p = Point::new(vec![0, 0]);
    let centers = vec![
        Point::new(vec![5, 0]),
        Point::new(vec![0, 5]),
        Point::new(vec![1, 1]),
    ];
    // index 2 is strictly nearest
    assert_eq!(nearest_center(Metric::SquaredEuclidean, &p, &centers), 2);
    let tied = vec![
        Point::new(vec![3, 0]),
        Point::new(vec![0, 3]),
    ];
    // equal distances: the first center wins
    assert_eq!(nearest_center(Metric::SquaredEuclidean, &p, &tied), 0);
}

#[test]
fn parallel_assignment_matches_brute_force() {
    let points: Vec<Point> = (0..50)
        .map(|i| Point::new(vec![(i * 37) % 101 - 50, (i * 53) % 97 - 48]))
        .collect();
    let centers = vec![
        Point::new(vec![-40, -40]),
        Point::new(vec![0, 0]),
        Point::new(vec![40, 40]),
    ];
    let asg = assign_points(Metric::SquaredEuclidean, &points, &centers);
    assert_eq!(asg.len(), points.len());
    for (i, label) in asg.iter().enumerate() {
        let d = |j: usize| -> i64 {
            let a = points[i].coordinates();
            let b = centers[j].coordinates();
            (0..2).map(|t| (a[t] - b[t]) * (a[t] - b[t])).sum()
        };
        let best = (0..centers.len()).min_by_key(|j| (d(*j), *j)).unwrap();
        assert_eq!(*label, best);
    }
}

#[test]
fn grouping_collects_exactly_the_assigned_indices() {
    let asg: Vec<usize> = vec![2, 0, 2, 1, 0, 2];
    let buckets = group_by_cluster(&asg, 3);
    assert_eq!(buckets.len(), 3);
    assert_eq!(buckets[0], vec![1, 4]);
    assert_eq!(buckets[1], vec![3]);
    assert_eq!(buckets[2], vec![0, 2, 5]);
}

#[test]
fn inertia_of_exact_cover_is_zero() {
    let points = vec![Point::new(vec![4, 4]), Point::new(vec![-3, 9])];
    let centers = vec![Point::new(vec![-3, 9]), Point::new(vec![4, 4])];
    assert_eq!(total_inertia(Metric::SquaredEuclidean, &points, &centers), 0);
    let off = vec![Point::new(vec![-3, 9]), Point::new(vec![4, 5])];
    assert_eq!(total_inertia(Metric::SquaredEuclidean, &points, &off), 1);
}

#[test]
fn sorting_orders_values() {
    let v: Vec<i64> = vec![5, -2, 9, -2, 0];
    assert_eq!(sorted_values(&v), vec![-2, -2, 0, 5, 9]);
    let empty: Vec<i64> = Vec::new();
    assert_eq!(sorted_values(&empty), Vec::<i64>::new());
}

#[test]
fn rounded_division_rounds_half_toward_positive() {
    assert_eq!(round_div_i128(7, 2), 4);
    assert_eq!(round_div_i128(-7, 2), -3);
    assert_eq!(round_div_i128(9, 3), 3);
    assert_eq!(round_div_i128(10, 4), 3);
    assert_eq!(round_div_i128(-10, 4), -2);
    assert_eq!(round_div_i128(0, 5), 0);
}

#[test]
fn fraction_scaling_is_exact() {
    assert_eq!(mul_frac(100, 0), 0);
    assert_eq!(mul_frac(100, 1 << 63), 50);
    assert_eq!(mul_frac(100, u64::MAX), 99);
    assert_eq!(mul_frac(0, u64::MAX), 0);
}

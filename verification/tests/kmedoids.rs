use clustering::kmedoids::{KMedoids, KMedoidsInitialization};
use clustering::point::Point;
use clustering::distance::{Distance, Manhattan};

fn scenario_b_points() -> Vec<Point> {
    vec![
        Point::new(vec![0, 0]),
        Point::new(vec![0, 1000]),
        Point::new(vec![1000, 0]),
        Point::new(vec![10000, 10000]),
        Point::new(vec![10000, 11000]),
        Point::new(vec![11000, 10000]),
    ]
}

#[test]
fn scenario_two_blobs_medoid_rule() {
    let points = scenario_b_points();
    let output = KMedoids::run(&points, 2, 15, KMedoidsInitialization::Random, 3).unwrap();

    assert_eq!(output.assignments.len(), points.len());
    assert_eq!(output.medoids.len(), 2);
    for label in &output.assignments {
        assert!(*label < 2);
    }

    // the selected medoid of each cluster beats every other member of
    // that cluster on total intra-cluster Manhattan cost
    for (j, medoid) in output.medoids.iter().enumerate() {
        let member_indices: Vec<usize> = (0..points.len())
            .filter(|i| output.assignments[*i] == j)
            .collect();
        let cost = |candidate: usize| -> i64 {
            member_indices
                .iter()
                .map(|i| {
                    Manhattan::distance(
                        points[*i].coordinates(),
                        points[candidate].coordinates(),
                    )
                })
                .sum()
        };
        if member_indices.contains(medoid) {
            let medoid_cost = cost(*medoid);
            for candidate in &member_indices {
                assert!(medoid_cost <= cost(*candidate));
            }
        }
    }
}

#[test]
fn kmedoids_centers_are_input_points() {
    let points = scenario_b_points();
    let output =
        KMedoids::run(&points, 3, 15, KMedoidsInitialization::KMeansPlusPlus, 8).unwrap();
    for (j, c) in output.centroids.iter().enumerate() {
        let m = output.medoids[j];
        assert_eq!(c, &points[m]);
    }
}

#[test]
fn kmedoids_fixed_seed_reproduces_runs() {
    let points = scenario_b_points();
    let a = KMedoids::run(&points, 2, 15, KMedoidsInitialization::Random, 17).unwrap();
    let b = KMedoids::run(&points, 2, 15, KMedoidsInitialization::Random, 17).unwrap();
    assert_eq!(a.medoids, b.medoids);
    assert_eq!(a.assignments, b.assignments);
    assert_eq!(a.iterations, b.iterations);
}

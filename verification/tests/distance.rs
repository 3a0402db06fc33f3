use clustering::distance::{
    Chebyshev, Distance, Euclidean, Hamming, Manhattan, Metric, SquaredEuclidean,
    metric_distance, isqrt,
};

#[test]
fn squared_euclidean_is_correct_distance() {
    let expected: i64 = 25;

    let input_a = vec![1, 2, 3];
    let input_b = vec![4, 6, 3];

    let output = SquaredEuclidean::distance(input_a.as_slice(), input_b.as_slice());

    assert_eq!(expected, output);
}

#[test]
fn euclidean_is_correct_distance() {
    let expected: i64 = 5;

    let input_a = vec![0, 0];
    let input_b = vec![3, 4];

    let output = Euclidean::distance(input_a.as_slice(), input_b.as_slice());

    assert_eq!(expected, output);
}

#[test]
fn hamming_is_correct_distance() {
    let expected: i64 = 4;

    let input_a = vec![0, 10, 30, -87, 45, 10];
    let input_b = vec![-23, 10, -10, 30, 45, -23];

    let output = Hamming::distance(input_a.as_slice(), input_b.as_slice());

    assert_eq!(expected, output);
}

#[test]
fn chebyshev_is_correct_distance() {
    let expected: i64 = 9;

    let input_a = vec![1, 2, 3];
    let input_b = vec![4, -7, 3];

    let output = Chebyshev::distance(input_a.as_slice(), input_b.as_slice());

    assert_eq!(expected, output);
}

#[test]
fn manhattan_is_correct_distance() {
    let expected: i64 = 12;

    let input_a = vec![1, 2, 3];
    let input_b = vec![4, -7, 3];

    let output = Manhattan::distance(input_a.as_slice(), input_b.as_slice());

    assert_eq!(expected, output);
}

#[test]
fn metric_dispatch_matches_direct_calls() {
    let a = vec![5, -3, 8];
    let b = vec![-2, 4, 8];
    assert_eq!(
        metric_distance(Metric::SquaredEuclidean, &a, &b),
        SquaredEuclidean::distance(&a, &b)
    );
    assert_eq!(metric_distance(Metric::Manhattan, &a, &b), Manhattan::distance(&a, &b));
    assert_eq!(metric_distance(Metric::Chebyshev, &a, &b), Chebyshev::distance(&a, &b));
    assert_eq!(metric_distance(Metric::Hamming, &a, &b), Hamming::distance(&a, &b));
}

#[test]
fn distances_are_symmetric_and_zero_on_equal() {
    let a = vec![7, -1, 0, 44];
    let b = vec![-9, 3, 2, 44];
    for m in [Metric::SquaredEuclidean, Metric::Manhattan, Metric::Chebyshev, Metric::Hamming] {
        assert_eq!(metric_distance(m, &a, &b), metric_distance(m, &b, &a));
        assert_eq!(metric_distance(m, &a, &a), 0);
        assert!(metric_distance(m, &a, &b) > 0);
    }
}

#[test]
fn isqrt_rounds_down() {
    assert_eq!(isqrt(0), 0);
    assert_eq!(isqrt(1), 1);
    assert_eq!(isqrt(15), 3);
    assert_eq!(isqrt(16), 4);
    assert_eq!(isqrt(99), 9);
    assert_eq!(isqrt(100), 10);
}

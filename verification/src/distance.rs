//! Pairwise distance functions over fixed-point coordinate vectors.
//!
//! Each metric is defined first as a mathematical specification over
//! coordinate sequences, then computed by a verified executable function.
//! The engine's default metric is squared Euclidean distance: convergence
//! thresholds are stated in squared-distance units, so no root is taken.

use vstd::prelude::*;
use crate::point::{valid_coords, COORD_LIMIT, DIM_LIMIT};

verus! {

/// Squared Euclidean distance: the sum over dimensions of the squared
/// coordinate differences.
pub open spec fn sq_euclid(a: Seq<i64>, b: Seq<i64>) -> int
    recommends
        a.len() == b.len(),
    decreases a.len(),
{
    if a.len() == 0 {
        0
    } else {
        sq_euclid(a.drop_last(), b.drop_last()) + (a.last() - b.last()) * (a.last()
            - b.last())
    }
}

/// Manhattan distance: the sum over dimensions of the absolute
/// coordinate differences.
pub open spec fn manhattan_dist(a: Seq<i64>, b: Seq<i64>) -> int
    recommends
        a.len() == b.len(),
    decreases a.len(),
{
    if a.len() == 0 {
        0
    } else {
        manhattan_dist(a.drop_last(), b.drop_last()) + vstd::math::abs(a.last() - b.last())
    }
}

/// Chebyshev distance: the largest absolute coordinate difference.
pub open spec fn chebyshev_dist(a: Seq<i64>, b: Seq<i64>) -> int
    recommends
        a.len() == b.len(),
    decreases a.len(),
{
    if a.len() == 0 {
        0
    } else {
        vstd::math::max(
            chebyshev_dist(a.drop_last(), b.drop_last()),
            vstd::math::abs(a.last() - b.last()) as int,
        )
    }
}

/// Hamming distance: the number of dimensions whose coordinates differ.
pub open spec fn hamming_dist(a: Seq<i64>, b: Seq<i64>) -> int
    recommends
        a.len() == b.len(),
    decreases a.len(),
{
    if a.len() == 0 {
        0
    } else {
        hamming_dist(a.drop_last(), b.drop_last()) + if a.last() == b.last() {
            0int
        } else {
            1int
        }
    }
}

/// `r` is the floor of the square root of `n`.
pub open spec fn is_sqrt_floor(r: int, n: int) -> bool {
    0 <= r && r * r <= n < (r + 1) * (r + 1)
}

/// The floor of the square root of a non-negative integer.
pub open spec fn sqrt_floor(n: int) -> int {
    choose|r: int| is_sqrt_floor(r, n)
}

/// The metrics the clustering engine can run with. Exactly one metric is
/// fixed per run and used for seeding, assignment and convergence alike.
#[derive(Clone, Copy, Debug, PartialEq, Eq, Structural)]
pub enum Metric {
    SquaredEuclidean,
    Manhattan,
    Chebyshev,
    Hamming,
}

/// Distance under the given metric.
pub open spec fn metric_dist(m: Metric, a: Seq<i64>, b: Seq<i64>) -> int {
    match m {
        Metric::SquaredEuclidean => sq_euclid(a, b),
        Metric::Manhattan => manhattan_dist(a, b),
        Metric::Chebyshev => chebyshev_dist(a, b),
        Metric::Hamming => hamming_dist(a, b),
    }
}

/// Every metric is non-negative and bounded by the per-dimension maximum
/// times the number of dimensions.
pub proof fn lemma_metric_bounds(m: Metric, a: Seq<i64>, b: Seq<i64>)
    requires
        a.len() == b.len(),
        valid_coords(a) || a.len() == 0,
        valid_coords(b) || b.len() == 0,
    ensures
        0 <= metric_dist(m, a, b) <= a.len() * 4 * COORD_LIMIT * COORD_LIMIT,
    decreases a.len(),
{
    if a.len() == 0 {
    } else {
        let d = a.last() - b.last();
        assert(valid_coords(a.drop_last()) || a.drop_last().len() == 0);
        assert(valid_coords(b.drop_last()) || b.drop_last().len() == 0);
        lemma_metric_bounds(m, a.drop_last(), b.drop_last());
        assert(-2 * COORD_LIMIT <= d <= 2 * COORD_LIMIT);
        assert(0 <= d * d <= 4 * COORD_LIMIT * COORD_LIMIT) by (nonlinear_arith)
            requires
                -2 * COORD_LIMIT <= d <= 2 * COORD_LIMIT,
        ;
        assert((a.len() - 1) * 4 * COORD_LIMIT * COORD_LIMIT + 4 * COORD_LIMIT * COORD_LIMIT
            == a.len() * 4 * COORD_LIMIT * COORD_LIMIT) by (nonlinear_arith);
    }
}

/// Every metric is non-negative.
pub proof fn lemma_metric_nonneg(m: Metric, a: Seq<i64>, b: Seq<i64>)
    requires
        a.len() == b.len(),
    ensures
        metric_dist(m, a, b) >= 0,
    decreases a.len(),
{
    if a.len() == 0 {
    } else {
        lemma_metric_nonneg(m, a.drop_last(), b.drop_last());
        let d = a.last() - b.last();
        assert(d * d >= 0) by (nonlinear_arith);
    }
}

/// Every metric is symmetric.
pub proof fn lemma_metric_symmetric(m: Metric, a: Seq<i64>, b: Seq<i64>)
    requires
        a.len() == b.len(),
    ensures
        metric_dist(m, a, b) == metric_dist(m, b, a),
    decreases a.len(),
{
    if a.len() == 0 {
    } else {
        lemma_metric_symmetric(m, a.drop_last(), b.drop_last());
        let d = a.last() - b.last();
        let e = b.last() - a.last();
        assert(d * d == e * e) by (nonlinear_arith)
            requires
                e == -d,
        ;
    }
}

/// Every metric is zero exactly when the two vectors are equal.
pub proof fn lemma_metric_zero_iff_eq(m: Metric, a: Seq<i64>, b: Seq<i64>)
    requires
        a.len() == b.len(),
    ensures
        metric_dist(m, a, b) == 0 <==> a == b,
    decreases a.len(),
{
    if a.len() == 0 {
        assert(a =~= b);
    } else {
        lemma_metric_zero_iff_eq(m, a.drop_last(), b.drop_last());
        lemma_metric_nonneg(m, a.drop_last(), b.drop_last());
        let d = a.last() - b.last();
        assert(d != 0 ==> d * d > 0) by (nonlinear_arith);
        assert(d == 0 ==> d * d == 0) by (nonlinear_arith);
        assert(d * d >= 0) by (nonlinear_arith);
        if metric_dist(m, a, b) == 0 {
            match m {
                Metric::SquaredEuclidean => {
                    assert(sq_euclid(a.drop_last(), b.drop_last()) == 0 && d * d == 0);
                },
                Metric::Manhattan => {
                    assert(manhattan_dist(a.drop_last(), b.drop_last()) == 0
                        && vstd::math::abs(d) == 0);
                },
                Metric::Chebyshev => {
                    assert(chebyshev_dist(a.drop_last(), b.drop_last()) == 0
                        && vstd::math::abs(d) == 0);
                },
                Metric::Hamming => {
                    assert(hamming_dist(a.drop_last(), b.drop_last()) == 0 && d == 0);
                },
            }
            assert(a.drop_last() == b.drop_last() && a.last() == b.last());
            assert(a =~= a.drop_last().push(a.last()));
            assert(b =~= b.drop_last().push(b.last()));
        } else {
            if a == b {
                assert(a.drop_last() =~= b.drop_last());
                assert(a.last() == b.last());
            }
        }
    }
}

pub struct SquaredEuclidean;

pub struct Euclidean;

pub struct Hamming;

pub struct Chebyshev;

pub struct Manhattan;

/// A pluggable pairwise distance function, defined only for inputs of
/// equal dimension within the fixed-point coordinate range.
pub trait Distance {
    /// The mathematical distance this implementation computes.
    spec fn dist_spec(a: Seq<i64>, b: Seq<i64>) -> int;

    fn distance(a: &[i64], b: &[i64]) -> (d: i64)
        requires
            a@.len() == b@.len(),
            valid_coords(a@),
            valid_coords(b@),
        ensures
            d == Self::dist_spec(a@, b@),
    ;
}

impl Distance for SquaredEuclidean {
    open spec fn dist_spec(a: Seq<i64>, b: Seq<i64>) -> int {
        sq_euclid(a, b)
    }

    fn distance(a: &[i64], b: &[i64]) -> (d: i64) {
        let n = a.len();
        let mut acc: i64 = 0;
        let mut i: usize = 0;
        while i < n
            invariant
                n == a@.len() == b@.len(),
                valid_coords(a@),
                valid_coords(b@),
                0 <= i <= n,
                acc == sq_euclid(a@.take(i as int), b@.take(i as int)),
                0 <= acc <= i * 4 * COORD_LIMIT * COORD_LIMIT,
            decreases n - i,
        {
            proof {
                lemma_metric_bounds(
                    Metric::SquaredEuclidean,
                    a@.take(i as int),
                    b@.take(i as int),
                );
                assert(i * 4 * COORD_LIMIT * COORD_LIMIT + 4 * COORD_LIMIT * COORD_LIMIT == (i
                    + 1) * 4 * COORD_LIMIT * COORD_LIMIT) by (nonlinear_arith);
                assert((i + 1) * 4 * COORD_LIMIT * COORD_LIMIT <= DIM_LIMIT * 4 * COORD_LIMIT
                    * COORD_LIMIT) by (nonlinear_arith)
                    requires
                        0 <= i + 1 <= DIM_LIMIT,
                ;
            }
            let diff = a[i] - b[i];
            proof {
                assert(0 <= diff * diff <= 4 * COORD_LIMIT * COORD_LIMIT) by (nonlinear_arith)
                    requires
                        -2 * COORD_LIMIT <= diff <= 2 * COORD_LIMIT,
                ;
            }
            acc = acc + diff * diff;
            proof {
                assert(a@.take(i + 1 as int).drop_last() =~= a@.take(i as int));
                assert(b@.take(i + 1 as int).drop_last() =~= b@.take(i as int));
            }
            i += 1;
        }
        proof {
            assert(a@.take(n as int) =~= a@);
            assert(b@.take(n as int) =~= b@);
        }
        acc
    }
}

impl Distance for Manhattan {
    open spec fn dist_spec(a: Seq<i64>, b: Seq<i64>) -> int {
        manhattan_dist(a, b)
    }

    fn distance(a: &[i64], b: &[i64]) -> (d: i64) {
        let n = a.len();
        let mut acc: i64 = 0;
        let mut i: usize = 0;
        while i < n
            invariant
                n == a@.len() == b@.len(),
                valid_coords(a@),
                valid_coords(b@),
                0 <= i <= n,
                acc == manhattan_dist(a@.take(i as int), b@.take(i as int)),
                0 <= acc <= i * 2 * COORD_LIMIT,
            decreases n - i,
        {
            proof {
                assert((i + 1) * 2 * COORD_LIMIT == i * 2 * COORD_LIMIT + 2 * COORD_LIMIT)
                    by (nonlinear_arith);
                assert((i + 1) * 2 * COORD_LIMIT <= DIM_LIMIT * 2 * COORD_LIMIT)
                    by (nonlinear_arith)
                    requires
                        0 <= i + 1 <= DIM_LIMIT,
                ;
            }
            let diff = a[i] - b[i];
            let ad = if diff < 0 {
                -diff
            } else {
                diff
            };
            acc = acc + ad;
            proof {
                assert(a@.take(i + 1 as int).drop_last() =~= a@.take(i as int));
                assert(b@.take(i + 1 as int).drop_last() =~= b@.take(i as int));
            }
            i += 1;
        }
        proof {
            assert(a@.take(n as int) =~= a@);
            assert(b@.take(n as int) =~= b@);
        }
        acc
    }
}

impl Distance for Chebyshev {
    open spec fn dist_spec(a: Seq<i64>, b: Seq<i64>) -> int {
        chebyshev_dist(a, b)
    }

    fn distance(a: &[i64], b: &[i64]) -> (d: i64) {
        let n = a.len();
        let mut best: i64 = 0;
        let mut i: usize = 0;
        while i < n
            invariant
                n == a@.len() == b@.len(),
                valid_coords(a@),
                valid_coords(b@),
                0 <= i <= n,
                best == chebyshev_dist(a@.take(i as int), b@.take(i as int)),
                0 <= best <= 2 * COORD_LIMIT,
            decreases n - i,
        {
            let diff = a[i] - b[i];
            let ad = if diff < 0 {
                -diff
            } else {
                diff
            };
            if ad > best {
                best = ad;
            }
            proof {
                assert(a@.take(i + 1 as int).drop_last() =~= a@.take(i as int));
                assert(b@.take(i + 1 as int).drop_last() =~= b@.take(i as int));
            }
            i += 1;
        }
        proof {
            assert(a@.take(n as int) =~= a@);
            assert(b@.take(n as int) =~= b@);
        }
        best
    }
}

impl Distance for Hamming {
    open spec fn dist_spec(a: Seq<i64>, b: Seq<i64>) -> int {
        hamming_dist(a, b)
    }

    fn distance(a: &[i64], b: &[i64]) -> (d: i64) {
        let n = a.len();
        let mut count: i64 = 0;
        let mut i: usize = 0;
        while i < n
            invariant
                n == a@.len() == b@.len(),
                0 <= i <= n,
                count == hamming_dist(a@.take(i as int), b@.take(i as int)),
                0 <= count <= i,
                n <= DIM_LIMIT,
            decreases n - i,
        {
            if a[i] != b[i] {
                count = count + 1;
            }
            proof {
                assert(a@.take(i + 1 as int).drop_last() =~= a@.take(i as int));
                assert(b@.take(i + 1 as int).drop_last() =~= b@.take(i as int));
            }
            i += 1;
        }
        proof {
            assert(a@.take(n as int) =~= a@);
            assert(b@.take(n as int) =~= b@);
        }
        count
    }
}

/// Two floors of the square root of the same number are equal.
pub proof fn lemma_sqrt_floor_unique(r1: int, r2: int, n: int)
    requires
        is_sqrt_floor(r1, n),
        is_sqrt_floor(r2, n),
    ensures
        r1 == r2,
{
    assert(r1 == r2) by (nonlinear_arith)
        requires
            0 <= r1 && r1 * r1 <= n < (r1 + 1) * (r1 + 1),
            0 <= r2 && r2 * r2 <= n < (r2 + 1) * (r2 + 1),
    ;
}

/// The floor of the square root, by binary search.
pub fn isqrt(n: i64) -> (r: i64)
    requires
        0 <= n <= 0x400_0000_0000_0000,
    ensures
        is_sqrt_floor(r as int, n as int),
        r == sqrt_floor(n as int),
{
    let mut lo: i64 = 0;
    let mut hi: i64 = 0x2000_0001;
    proof {
        assert(hi * hi > n) by (nonlinear_arith)
            requires
                hi == 0x2000_0001 && n <= 0x400_0000_0000_0000,
        ;
    }
    while lo + 1 < hi
        invariant
            0 <= lo < hi <= 0x2000_0001,
            lo * lo <= n,
            hi * hi > n,
        decreases hi - lo,
    {
        let mid = lo + (hi - lo) / 2;
        proof {
            assert(lo < mid < hi);
            assert(mid * mid <= 0x2000_0001 * 0x2000_0001) by (nonlinear_arith)
                requires
                    0 <= mid <= 0x2000_0001,
            ;
        }
        if mid * mid <= n {
            lo = mid;
        } else {
            hi = mid;
        }
    }
    proof {
        assert(is_sqrt_floor(lo as int, n as int));
        let w = sqrt_floor(n as int);
        assert(is_sqrt_floor(w, n as int)) by {
            assert(exists|r: int| is_sqrt_floor(r, n as int)) by {
                assert(is_sqrt_floor(lo as int, n as int));
            }
        }
        lemma_sqrt_floor_unique(lo as int, w, n as int);
    }
    lo
}

impl Distance for Euclidean {
    open spec fn dist_spec(a: Seq<i64>, b: Seq<i64>) -> int {
        sqrt_floor(sq_euclid(a, b))
    }

    fn distance(a: &[i64], b: &[i64]) -> (d: i64) {
        let sq = SquaredEuclidean::distance(a, b);
        proof {
            lemma_metric_bounds(Metric::SquaredEuclidean, a@, b@);
            assert(a@.len() * 4 * COORD_LIMIT * COORD_LIMIT <= DIM_LIMIT * 4 * COORD_LIMIT
                * COORD_LIMIT) by (nonlinear_arith)
                requires
                    0 <= a@.len() <= DIM_LIMIT,
            ;
        }
        isqrt(sq)
    }
}

/// Distance under the metric picked at configuration time.
pub fn metric_distance(m: Metric, a: &[i64], b: &[i64]) -> (d: i64)
    requires
        a@.len() == b@.len(),
        valid_coords(a@),
        valid_coords(b@),
    ensures
        d == metric_dist(m, a@, b@),
        0 <= d <= a@.len() * 4 * COORD_LIMIT * COORD_LIMIT,
{
    proof {
        lemma_metric_bounds(m, a@, b@);
    }
    match m {
        Metric::SquaredEuclidean => SquaredEuclidean::distance(a, b),
        Metric::Manhattan => Manhattan::distance(a, b),
        Metric::Chebyshev => Chebyshev::distance(a, b),
        Metric::Hamming => Hamming::distance(a, b),
    }
}

} // verus!

//! Aggregate helpers consumed by the clustering engine: dimension-wise
//! means, the maximum center displacement, and cluster scatter.

use vstd::prelude::*;
use crate::point::{Point, views, valid_coords, valid_coord, all_points_valid, COORD_LIMIT};
use crate::arith::{round_div, round_div_i128, lemma_round_div_bounds};
use crate::engine::max_sq_change;
use crate::distance::{Metric, sq_euclid, metric_distance, lemma_metric_bounds};

verus! {

pub struct Statistics;

/// Sum of coordinate `t` over a list of vectors.
pub open spec fn dim_sum(vs: Seq<Seq<i64>>, t: int) -> int
    decreases vs.len(),
{
    if vs.len() == 0 {
        0
    } else {
        dim_sum(vs.drop_last(), t) + vs.last()[t]
    }
}

/// A dimension sum over `n` valid vectors stays within `n` times the
/// coordinate limit.
pub proof fn lemma_dim_sum_bounds(vs: Seq<Seq<i64>>, t: int, d: nat)
    requires
        forall|i: int| 0 <= i < vs.len() ==> valid_coords(#[trigger] vs[i]) && vs[i].len() == d,
        0 <= t < d,
    ensures
        -(vs.len() * COORD_LIMIT) <= dim_sum(vs, t) <= vs.len() * COORD_LIMIT,
    decreases vs.len(),
{
    if vs.len() == 0 {
    } else {
        lemma_dim_sum_bounds(vs.drop_last(), t, d);
        assert(valid_coord(vs.last()[t]));
        assert((vs.len() - 1) * COORD_LIMIT + COORD_LIMIT == vs.len() * COORD_LIMIT)
            by (nonlinear_arith);
    }
}

/// Total squared Euclidean distance from a center to each of the points.
pub open spec fn scatter(c: Seq<i64>, ps: Seq<Point>) -> int
    decreases ps.len(),
{
    if ps.len() == 0 {
        0
    } else {
        scatter(c, ps.drop_last()) + sq_euclid(c, ps.last()@)
    }
}

/// Scatter over `n` points is non-negative and at most `n` times the
/// largest possible distance.
pub proof fn lemma_scatter_bounds(c: Seq<i64>, ps: Seq<Point>, d: nat)
    requires
        valid_coords(c),
        c.len() == d,
        all_points_valid(ps, d),
    ensures
        0 <= scatter(c, ps) <= ps.len() * crate::engine::max_metric_value(),
    decreases ps.len(),
{
    if ps.len() == 0 {
    } else {
        lemma_scatter_bounds(c, ps.drop_last(), d);
        assert(ps.last().is_valid());
        lemma_metric_bounds(Metric::SquaredEuclidean, c, ps.last()@);
        assert(sq_euclid(c, ps.last()@) <= crate::engine::max_metric_value())
            by (nonlinear_arith)
            requires
                sq_euclid(c, ps.last()@) <= c.len() * 4 * COORD_LIMIT * COORD_LIMIT,
                0 <= c.len() <= crate::point::DIM_LIMIT,
                crate::engine::max_metric_value() == crate::point::DIM_LIMIT * 4 * COORD_LIMIT
                    * COORD_LIMIT,
        ;
        assert((ps.len() - 1) * crate::engine::max_metric_value()
            + crate::engine::max_metric_value() == ps.len() * crate::engine::max_metric_value())
            by (nonlinear_arith);
    }
}

impl Statistics {
    /// Dimension-wise rounded mean of a non-empty list of equal-dimension
    /// valid vectors.
    pub fn mean(vectors: &Vec<Vec<i64>>) -> (r: Vec<i64>)
        requires
            vectors@.len() >= 1,
            forall|i: int|
                0 <= i < vectors@.len() ==> valid_coords(#[trigger] vectors@[i]@) && vectors@[i]@.len()
                    == vectors@[0]@.len(),
        ensures
            r@.len() == vectors@[0]@.len(),
            valid_coords(r@) || r@.len() == 0,
            forall|t: int|
                0 <= t < r@.len() ==> #[trigger] r@[t] as int == round_div(
                    dim_sum(vectors@.map_values(|v: Vec<i64>| v@), t),
                    vectors@.len() as int,
                ),
    {
        let ghost vs = vectors@.map_values(|v: Vec<i64>| v@);
        let ghost dim = vectors@[0]@.len();
        let n = vectors.len();
        let d = vectors[0].len();
        let mut r: Vec<i64> = Vec::new();
        let mut t: usize = 0;
        while t < d
            invariant
                n == vectors@.len(),
                n >= 1,
                d == dim,
                dim == vectors@[0]@.len(),
                vs == vectors@.map_values(|v: Vec<i64>| v@),
                forall|i: int|
                    0 <= i < vectors@.len() ==> valid_coords(#[trigger] vectors@[i]@)
                        && vectors@[i]@.len() == dim,
                0 <= t <= d,
                r@.len() == t,
                forall|tt: int|
                    0 <= tt < t ==> #[trigger] r@[tt] as int == round_div(
                        dim_sum(vs, tt),
                        n as int,
                    ) && valid_coord(r@[tt]),
            decreases d - t,
        {
            let mut sum: i128 = 0;
            let mut i: usize = 0;
            while i < n
                invariant
                    n == vectors@.len(),
                    d == dim,
                    dim == vectors@[0]@.len(),
                    vs == vectors@.map_values(|v: Vec<i64>| v@),
                    forall|ii: int|
                        0 <= ii < vectors@.len() ==> valid_coords(#[trigger] vectors@[ii]@)
                            && vectors@[ii]@.len() == dim,
                    0 <= t < d,
                    0 <= i <= n,
                    sum == dim_sum(vs.take(i as int), t as int),
                    -(i * COORD_LIMIT) <= sum <= i * COORD_LIMIT,
                decreases n - i,
            {
                proof {
                    assert forall|x: int|
                        0 <= x < vs.take(i + 1 as int).len() implies valid_coords(
                        #[trigger] vs.take(i + 1 as int)[x],
                    ) && vs.take(i + 1 as int)[x].len() == dim by {
                        assert(vs.take(i + 1 as int)[x] == vectors@[x]@);
                    }
                    lemma_dim_sum_bounds(vs.take(i + 1 as int), t as int, dim);
                    assert(vs.take(i + 1 as int).drop_last() =~= vs.take(i as int));
                    assert(vs.take(i + 1 as int).last() == vectors@[i as int]@);
                    assert((i + 1) * COORD_LIMIT == i * COORD_LIMIT + COORD_LIMIT)
                        by (nonlinear_arith);
                    assert(i * COORD_LIMIT <= 0x1_0000_0000_0000_0000 * COORD_LIMIT)
                        by (nonlinear_arith)
                        requires
                            0 <= i < 0x1_0000_0000_0000_0000,
                    ;
                }
                let c = vectors[i][t];
                sum = sum + (c as i128);
                i += 1;
            }
            proof {
                assert(vs.take(n as int) =~= vs);
                assert forall|x: int| 0 <= x < vs.len() implies valid_coords(#[trigger] vs[x])
                    && vs[x].len() == dim by {
                    assert(vs[x] == vectors@[x]@);
                }
                lemma_dim_sum_bounds(vs, t as int, dim);
                assert((-COORD_LIMIT) * (n as int) <= sum <= COORD_LIMIT * (n as int))
                    by (nonlinear_arith)
                    requires
                        -((n as int) * COORD_LIMIT) <= sum <= (n as int) * COORD_LIMIT,
                ;
                lemma_round_div_bounds(sum as int, n as int, -COORD_LIMIT as int,
                    COORD_LIMIT as int);
            }
            let c = round_div_i128(sum, n as i128);
            r.push(c as i64);
            t += 1;
        }
        r
    }

    /// The largest squared Euclidean displacement between corresponding
    /// centers of the previous and the updated center lists.
    pub fn max_change(centroids: &Vec<Point>, updated_centroids: &Vec<Point>) -> (r: i64)
        requires
            centroids@.len() == updated_centroids@.len(),
            centroids@.len() >= 1,
            all_points_valid(centroids@, centroids@[0].spec_dim()),
            all_points_valid(updated_centroids@, centroids@[0].spec_dim()),
        ensures
            r == max_sq_change(views(centroids@), views(updated_centroids@)),
            r >= 0,
    {
        Self::max_change_slice(centroids.as_slice(), updated_centroids.as_slice())
    }

    /// `max_change` over center slices.
    pub fn max_change_slice(centroids: &[Point], updated_centroids: &[Point]) -> (r: i64)
        requires
            centroids@.len() == updated_centroids@.len(),
            centroids@.len() >= 1,
            all_points_valid(centroids@, centroids@[0].spec_dim()),
            all_points_valid(updated_centroids@, centroids@[0].spec_dim()),
        ensures
            r == max_sq_change(views(centroids@), views(updated_centroids@)),
            r >= 0,
    {
        let ghost av = views(centroids@);
        let ghost bv = views(updated_centroids@);
        let k = centroids.len();
        let mut best: i64 = 0;
        let mut j: usize = 0;
        while j < k
            invariant
                k == centroids@.len() == updated_centroids@.len(),
                av == views(centroids@),
                bv == views(updated_centroids@),
                all_points_valid(centroids@, centroids@[0].spec_dim()),
                all_points_valid(updated_centroids@, centroids@[0].spec_dim()),
                0 <= j <= k,
                best == max_sq_change(av.take(j as int), bv.take(j as int)),
                best >= 0,
            decreases k - j,
        {
            let d = metric_distance(
                Metric::SquaredEuclidean,
                centroids[j].coordinates(),
                updated_centroids[j].coordinates(),
            );
            if d > best {
                best = d;
            }
            proof {
                assert(av.take(j + 1 as int).drop_last() =~= av.take(j as int));
                assert(bv.take(j + 1 as int).drop_last() =~= bv.take(j as int));
                assert(av.take(j + 1 as int).last() == centroids@[j as int]@);
                assert(bv.take(j + 1 as int).last() == updated_centroids@[j as int]@);
            }
            j += 1;
        }
        proof {
            assert(av.take(k as int) =~= av);
            assert(bv.take(k as int) =~= bv);
        }
        best
    }

    /// Total squared Euclidean distance from the centroid to every point:
    /// the cluster's distortion.
    pub fn variance(centroid: &Point, points: &Vec<Point>) -> (r: u128)
        requires
            centroid.is_valid(),
            all_points_valid(points@, centroid.spec_dim()),
            points@.len() < 0x1_0000_0000_0000_0000,
        ensures
            r == scatter(centroid@, points@),
    {
        let ghost dim = centroid.spec_dim();
        let n = points.len();
        let mut sum: u128 = 0;
        let mut i: usize = 0;
        while i < n
            invariant
                n == points@.len(),
                n < 0x1_0000_0000_0000_0000,
                dim == centroid.spec_dim(),
                centroid.is_valid(),
                all_points_valid(points@, dim),
                0 <= i <= n,
                sum == scatter(centroid@, points@.take(i as int)),
                sum <= i * crate::engine::max_metric_value(),
            decreases n - i,
        {
            proof {
                assert(all_points_valid(points@.take(i + 1 as int), dim));
                lemma_scatter_bounds(centroid@, points@.take(i + 1 as int), dim);
                assert(points@.take(i + 1 as int).drop_last() =~= points@.take(i as int));
                assert((i + 1) * crate::engine::max_metric_value() <= 0x1_0000_0000_0000_0000
                    * crate::engine::max_metric_value()) by (nonlinear_arith)
                    requires
                        0 <= i + 1 <= 0x1_0000_0000_0000_0000,
                ;
            }
            let d = metric_distance(
                Metric::SquaredEuclidean,
                centroid.coordinates(),
                points[i].coordinates(),
            );
            sum = sum + (d as u128);
            i += 1;
        }
        proof {
            assert(points@.take(n as int) =~= points@);
        }
        sum
    }
}

} // verus!

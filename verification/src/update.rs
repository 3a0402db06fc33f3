//! Per-cluster update rules: mean, median, medoid and online mean.
//!
//! Each rule recomputes the centers from the current assignment. An empty
//! cluster keeps its previous center unchanged instead of dividing by
//! zero.

use vstd::prelude::*;
use crate::point::{
    Point, views, valid_coords, valid_coord, all_points_valid, copy_point, COORD_LIMIT,
};
use crate::arith::{round_div, round_div_i128, lemma_round_div_bounds};
use crate::distance::Metric;

verus! {

/// Sum of coordinate `t` over the member points.
pub open spec fn member_dim_sum(ps: Seq<Seq<i64>>, mem: Seq<usize>, t: int) -> int
    decreases mem.len(),
{
    if mem.len() == 0 {
        0
    } else {
        member_dim_sum(ps, mem.drop_last(), t) + ps[mem.last() as int][t]
    }
}

/// Every point of dimension `d` is valid and the member indices are in
/// range.
pub open spec fn valid_members(ps: Seq<Seq<i64>>, mem: Seq<usize>, d: nat) -> bool {
    &&& forall|i: int| 0 <= i < ps.len() ==> valid_coords(#[trigger] ps[i]) && ps[i].len() == d
    &&& forall|u: int| 0 <= u < mem.len() ==> #[trigger] mem[u] < ps.len()
}

/// A dimension sum over `n` members stays within `n` times the
/// coordinate limit.
pub proof fn lemma_member_dim_sum_bounds(ps: Seq<Seq<i64>>, mem: Seq<usize>, t: int, d: nat)
    requires
        valid_members(ps, mem, d),
        0 <= t < d,
    ensures
        -(mem.len() * COORD_LIMIT) <= member_dim_sum(ps, mem, t) <= mem.len() * COORD_LIMIT,
    decreases mem.len(),
{
    if mem.len() == 0 {
    } else {
        lemma_member_dim_sum_bounds(ps, mem.drop_last(), t, d);
        let p = ps[mem.last() as int];
        assert(valid_coords(p));
        assert(valid_coord(p[t]));
        assert((mem.len() - 1) * COORD_LIMIT + COORD_LIMIT == mem.len() * COORD_LIMIT)
            by (nonlinear_arith);
    }
}

/// The mean-rule center for one cluster: the dimension-wise rounded mean
/// of the members; an empty cluster keeps the previous center.
pub open spec fn mean_center(ps: Seq<Seq<i64>>, mem: Seq<usize>, old: Seq<i64>) -> Seq<i64> {
    if mem.len() == 0 {
        old
    } else {
        Seq::new(
            old.len(),
            |t: int| round_div(member_dim_sum(ps, mem, t), mem.len() as int) as i64,
        )
    }
}

/// A mean-rule center of valid members is itself a valid point: the
/// rounded mean never leaves the coordinate range, and the `as i64` cast
/// in its definition does not truncate.
pub proof fn lemma_mean_center_valid(ps: Seq<Seq<i64>>, mem: Seq<usize>, old: Seq<i64>, d: nat)
    requires
        valid_members(ps, mem, d),
        valid_coords(old),
        old.len() == d,
    ensures
        valid_coords(mean_center(ps, mem, old)),
        mean_center(ps, mem, old).len() == d,
        forall|t: int|
            0 <= t < d && mem.len() >= 1 ==> #[trigger] mean_center(ps, mem, old)[t] as int
                == round_div(member_dim_sum(ps, mem, t), mem.len() as int),
{
    if mem.len() == 0 {
    } else {
        assert forall|t: int|
            0 <= t < d implies #[trigger] mean_center(ps, mem, old)[t] as int == round_div(
            member_dim_sum(ps, mem, t),
            mem.len() as int,
        ) && valid_coord(mean_center(ps, mem, old)[t]) by {
            lemma_member_dim_sum_bounds(ps, mem, t, d);
            assert((-COORD_LIMIT) * mem.len() <= member_dim_sum(ps, mem, t) <= COORD_LIMIT
                * mem.len()) by (nonlinear_arith)
                requires
                    -(mem.len() * COORD_LIMIT) <= member_dim_sum(ps, mem, t) <= mem.len()
                        * COORD_LIMIT,
            ;
            lemma_round_div_bounds(
                member_dim_sum(ps, mem, t),
                mem.len() as int,
                -COORD_LIMIT as int,
                COORD_LIMIT as int,
            );
        }
    }
}

/// Recomputes every center as the dimension-wise rounded mean of its
/// assigned points; a cluster with no assigned points keeps its previous
/// center.
pub fn mean_update(points: &Vec<Point>, buckets: &Vec<Vec<usize>>, old_centers: &Vec<Point>) -> (r:
    Vec<Point>)
    requires
        buckets@.len() == old_centers@.len(),
        old_centers@.len() >= 1,
        all_points_valid(points@, old_centers@[0].spec_dim()),
        all_points_valid(old_centers@, old_centers@[0].spec_dim()),
        forall|j: int, u: int|
            0 <= j < buckets@.len() && 0 <= u < buckets@[j]@.len() ==> #[trigger] buckets@[j]@[u]
                < points@.len(),
    ensures
        r@.len() == old_centers@.len(),
        all_points_valid(r@, old_centers@[0].spec_dim()),
        forall|j: int|
            0 <= j < r@.len() ==> #[trigger] r@[j]@ == mean_center(
                views(points@),
                buckets@[j]@,
                old_centers@[j]@,
            ),
{
    let ghost psv = views(points@);
    let ghost dim = old_centers@[0].spec_dim();
    let d = old_centers[0].dim();
    let k = old_centers.len();
    let mut r: Vec<Point> = Vec::new();
    let mut j: usize = 0;
    while j < k
        invariant
            k == old_centers@.len() == buckets@.len(),
            d == dim,
            dim == old_centers@[0].spec_dim(),
            psv == views(points@),
            all_points_valid(points@, dim),
            all_points_valid(old_centers@, dim),
            forall|jj: int, u: int|
                0 <= jj < buckets@.len() && 0 <= u < buckets@[jj]@.len() ==> #[trigger] buckets@[jj]@[u]
                    < points@.len(),
            0 <= j <= k,
            r@.len() == j,
            all_points_valid(r@, dim),
            forall|jj: int|
                0 <= jj < j ==> #[trigger] r@[jj]@ == mean_center(
                    psv,
                    buckets@[jj]@,
                    old_centers@[jj]@,
                ),
        decreases k - j,
    {
        let bucket = &buckets[j];
        let nj = bucket.len();
        proof {
            assert(valid_members(psv, bucket@, dim));
        }
        if nj == 0 {
            let c = copy_point(&old_centers[j]);
            r.push(c);
        } else {
            let mut coords: Vec<i64> = Vec::new();
            let mut t: usize = 0;
            while t < d
                invariant
                    k == old_centers@.len() == buckets@.len(),
                    0 <= j < k,
                    d == dim,
                    dim == old_centers@[0].spec_dim(),
                    psv == views(points@),
                    all_points_valid(points@, dim),
                    all_points_valid(old_centers@, dim),
                    bucket == &buckets[j as int],
                    1 <= nj == bucket@.len(),
                    valid_members(psv, bucket@, dim),
                    forall|u: int| 0 <= u < bucket@.len() ==> #[trigger] bucket@[u] < points@.len(),
                    0 <= t <= d,
                    coords@.len() == t,
                    forall|tt: int|
                        0 <= tt < t ==> #[trigger] coords@[tt] as int == round_div(
                            member_dim_sum(psv, bucket@, tt),
                            nj as int,
                        ) && valid_coord(coords@[tt]),
                decreases d - t,
            {
                let mut sum: i128 = 0;
                let mut u: usize = 0;
                while u < nj
                    invariant
                        0 <= u <= nj,
                        nj == bucket@.len(),
                        psv == views(points@),
                        all_points_valid(points@, dim),
                        valid_members(psv, bucket@, dim),
                        0 <= t < dim,
                        forall|uu: int|
                            0 <= uu < bucket@.len() ==> #[trigger] bucket@[uu] < points@.len(),
                        sum == member_dim_sum(psv, bucket@.take(u as int), t as int),
                        -(u * COORD_LIMIT) <= sum <= u * COORD_LIMIT,
                    decreases nj - u,
                {
                    proof {
                        assert(valid_members(psv, bucket@.take(u + 1 as int), dim));
                        lemma_member_dim_sum_bounds(psv, bucket@.take(u + 1 as int), t as int, dim);
                        assert(bucket@.take(u + 1 as int).drop_last() =~= bucket@.take(u as int));
                        assert((u + 1) * COORD_LIMIT == u * COORD_LIMIT + COORD_LIMIT)
                            by (nonlinear_arith);
                        assert(u * COORD_LIMIT <= 0x1_0000_0000_0000_0000 * COORD_LIMIT)
                            by (nonlinear_arith)
                            requires
                                0 <= u < 0x1_0000_0000_0000_0000,
                        ;
                    }
                    let pi = bucket[u];
                    let c = points[pi].coordinates()[t];
                    proof {
                        assert(points@[pi as int].is_valid());
                        assert(valid_coord(points@[pi as int]@[t as int]));
                        assert(psv[pi as int] == points@[pi as int]@);
                        assert(bucket@.take(u + 1 as int).last() == bucket@[u as int]);
                    }
                    sum = sum + (c as i128);
                    u += 1;
                }
                proof {
                    assert(bucket@.take(nj as int) =~= bucket@);
                    lemma_member_dim_sum_bounds(psv, bucket@, t as int, dim);
                    assert((-COORD_LIMIT) * (nj as int) <= sum <= COORD_LIMIT * (nj as int))
                        by (nonlinear_arith)
                        requires
                            -((nj as int) * COORD_LIMIT) <= sum <= (nj as int) * COORD_LIMIT,
                    ;
                    lemma_round_div_bounds(
                        sum as int,
                        nj as int,
                        -COORD_LIMIT as int,
                        COORD_LIMIT as int,
                    );
                }
                let c = round_div_i128(sum, nj as i128);
                coords.push(c as i64);
                t += 1;
            }
            proof {
                lemma_mean_center_valid(psv, bucket@, old_centers@[j as int]@, dim);
                assert(coords@ =~= mean_center(psv, bucket@, old_centers@[j as int]@));
            }
            let c = Point::new(coords);
            r.push(c);
        }
        j += 1;
    }
    r
}

/// The values of coordinate `t` across the member points.
pub open spec fn member_dim_vals(ps: Seq<Seq<i64>>, mem: Seq<usize>, t: int) -> Seq<i64> {
    mem.map_values(|i: usize| ps[i as int][t])
}

/// The median of a non-empty value list: the middle value after sorting,
/// or the rounded average of the two middle values when the count is
/// even.
pub open spec fn median_of(vals: Seq<i64>) -> int
    recommends
        vals.len() >= 1,
{
    let s = crate::sort::sorted_of(vals);
    let h = vals.len() as int / 2;
    if vals.len() % 2 == 0 {
        round_div(s[h - 1] + s[h], 2)
    } else {
        s[h] as int
    }
}

/// The median of valid coordinate values stays within the coordinate
/// range.
pub proof fn lemma_median_bounds(vals: Seq<i64>)
    requires
        vals.len() >= 1,
        forall|x: int| 0 <= x < vals.len() ==> valid_coord(#[trigger] vals[x]),
    ensures
        -COORD_LIMIT <= median_of(vals) <= COORD_LIMIT,
{
    broadcast use vstd::seq_lib::group_to_multiset_ensures;

    crate::sort::lemma_sorted_of(vals);
    let s = crate::sort::sorted_of(vals);
    assert forall|x: int| 0 <= x < s.len() implies valid_coord(#[trigger] s[x]) by {
        assert(s.contains(s[x]));
        assert(vals.to_multiset().count(s[x]) > 0);
        assert(vals.contains(s[x]));
        let w = choose|w: int| 0 <= w < vals.len() && vals[w] == s[x];
        assert(valid_coord(vals[w]));
    }
    let h = vals.len() as int / 2;
    if vals.len() % 2 == 0 {
        assert(0 <= h - 1 < s.len() && 0 <= h < s.len());
        lemma_round_div_bounds(s[h - 1] + s[h], 2, -COORD_LIMIT as int, COORD_LIMIT as int);
    }
}

/// The median-rule center for one cluster: the dimension-wise median of
/// the members; an empty cluster keeps the previous center.
pub open spec fn median_center(ps: Seq<Seq<i64>>, mem: Seq<usize>, old: Seq<i64>) -> Seq<i64> {
    if mem.len() == 0 {
        old
    } else {
        Seq::new(old.len(), |t: int| median_of(member_dim_vals(ps, mem, t)) as i64)
    }
}

/// Recomputes every center, dimension by dimension, as the median of its
/// assigned points' values in that dimension; a cluster with no assigned
/// points keeps its previous center. Coordinates of the result need not
/// correspond to any single input point.
pub fn median_update(points: &Vec<Point>, buckets: &Vec<Vec<usize>>, old_centers: &Vec<Point>)
    -> (r: Vec<Point>)
    requires
        buckets@.len() == old_centers@.len(),
        old_centers@.len() >= 1,
        all_points_valid(points@, old_centers@[0].spec_dim()),
        all_points_valid(old_centers@, old_centers@[0].spec_dim()),
        forall|j: int, u: int|
            0 <= j < buckets@.len() && 0 <= u < buckets@[j]@.len() ==> #[trigger] buckets@[j]@[u]
                < points@.len(),
    ensures
        r@.len() == old_centers@.len(),
        all_points_valid(r@, old_centers@[0].spec_dim()),
        forall|j: int|
            0 <= j < r@.len() ==> #[trigger] r@[j]@ == median_center(
                views(points@),
                buckets@[j]@,
                old_centers@[j]@,
            ),
{
    let ghost psv = views(points@);
    let ghost dim = old_centers@[0].spec_dim();
    let d = old_centers[0].dim();
    let k = old_centers.len();
    let mut r: Vec<Point> = Vec::new();
    let mut j: usize = 0;
    while j < k
        invariant
            k == old_centers@.len() == buckets@.len(),
            d == dim,
            dim == old_centers@[0].spec_dim(),
            psv == views(points@),
            all_points_valid(points@, dim),
            all_points_valid(old_centers@, dim),
            forall|jj: int, u: int|
                0 <= jj < buckets@.len() && 0 <= u < buckets@[jj]@.len() ==> #[trigger] buckets@[jj]@[u]
                    < points@.len(),
            0 <= j <= k,
            r@.len() == j,
            all_points_valid(r@, dim),
            forall|jj: int|
                0 <= jj < j ==> #[trigger] r@[jj]@ == median_center(
                    psv,
                    buckets@[jj]@,
                    old_centers@[jj]@,
                ),
        decreases k - j,
    {
        let bucket = &buckets[j];
        let nj = bucket.len();
        if nj == 0 {
            let c = copy_point(&old_centers[j]);
            r.push(c);
        } else {
            let mut coords: Vec<i64> = Vec::new();
            let mut t: usize = 0;
            while t < d
                invariant
                    k == old_centers@.len() == buckets@.len(),
                    0 <= j < k,
                    d == dim,
                    dim == old_centers@[0].spec_dim(),
                    psv == views(points@),
                    all_points_valid(points@, dim),
                    bucket == &buckets[j as int],
                    1 <= nj == bucket@.len(),
                    forall|u: int| 0 <= u < bucket@.len() ==> #[trigger] bucket@[u] < points@.len(),
                    0 <= t <= d,
                    coords@.len() == t,
                    forall|tt: int|
                        0 <= tt < t ==> #[trigger] coords@[tt] as int == median_of(
                            member_dim_vals(psv, bucket@, tt),
                        ) && valid_coord(coords@[tt]),
                decreases d - t,
            {
                let mut vals: Vec<i64> = Vec::new();
                let mut u: usize = 0;
                while u < nj
                    invariant
                        0 <= u <= nj,
                        nj == bucket@.len(),
                        psv == views(points@),
                        all_points_valid(points@, dim),
                        0 <= t < dim,
                        forall|uu: int|
                            0 <= uu < bucket@.len() ==> #[trigger] bucket@[uu] < points@.len(),
                        vals@ == member_dim_vals(psv, bucket@.take(u as int), t as int),
                        forall|x: int| 0 <= x < vals@.len() ==> valid_coord(#[trigger] vals@[x]),
                    decreases nj - u,
                {
                    let pi = bucket[u];
                    let c = points[pi].coordinates()[t];
                    proof {
                        assert(points@[pi as int].is_valid());
                        assert(valid_coord(points@[pi as int]@[t as int]));
                        assert(psv[pi as int] == points@[pi as int]@);
                    }
                    vals.push(c);
                    proof {
                        assert(vals@ =~= member_dim_vals(psv, bucket@.take(u + 1 as int), t as int));
                    }
                    u += 1;
                }
                proof {
                    assert(bucket@.take(nj as int) =~= bucket@);
                }
                let s = crate::sort::sorted_values(&vals);
                proof {
                    crate::sort::lemma_sorted_of(vals@);
                    lemma_median_bounds(vals@);
                }
                let h = nj / 2;
                let c: i128 = if nj % 2 == 0 {
                    let sum: i128 = (s[h - 1] as i128) + (s[h] as i128);
                    round_div_i128(sum, 2)
                } else {
                    s[h] as i128
                };
                coords.push(c as i64);
                t += 1;
            }
            proof {
                assert(coords@ =~= median_center(psv, bucket@, old_centers@[j as int]@));
                assert(valid_coords(coords@));
            }
            let c = Point::new(coords);
            r.push(c);
        }
        j += 1;
    }
    r
}

/// Total intra-cluster cost of input point `c` serving as the medoid of
/// the members: the sum of distances from every member to `c`.
pub open spec fn medoid_cost(m: Metric, ps: Seq<Seq<i64>>, mem: Seq<usize>, c: int) -> int
    decreases mem.len(),
{
    if mem.len() == 0 {
        0
    } else {
        medoid_cost(m, ps, mem.drop_last(), c) + crate::distance::metric_dist(
            m,
            ps[mem.last() as int],
            ps[c],
        )
    }
}

/// A medoid cost over `n` members is non-negative and at most `n` times
/// the largest possible distance.
pub proof fn lemma_medoid_cost_bounds(m: Metric, ps: Seq<Seq<i64>>, mem: Seq<usize>, c: int, d: nat)
    requires
        valid_members(ps, mem, d),
        0 <= c < ps.len(),
    ensures
        0 <= medoid_cost(m, ps, mem, c) <= mem.len() * crate::engine::max_metric_value(),
    decreases mem.len(),
{
    if mem.len() == 0 {
    } else {
        lemma_medoid_cost_bounds(m, ps, mem.drop_last(), c, d);
        crate::distance::lemma_metric_bounds(m, ps[mem.last() as int], ps[c]);
        assert(crate::distance::metric_dist(m, ps[mem.last() as int], ps[c])
            <= crate::engine::max_metric_value()) by (nonlinear_arith)
            requires
                crate::distance::metric_dist(m, ps[mem.last() as int], ps[c]) <= ps[mem.last()
                    as int].len() * 4 * COORD_LIMIT * COORD_LIMIT,
                0 <= ps[mem.last() as int].len() <= crate::point::DIM_LIMIT,
                crate::engine::max_metric_value() == crate::point::DIM_LIMIT * 4 * COORD_LIMIT
                    * COORD_LIMIT,
        ;
        assert((mem.len() - 1) * crate::engine::max_metric_value()
            + crate::engine::max_metric_value() == mem.len() * crate::engine::max_metric_value())
            by (nonlinear_arith);
    }
}

/// Position, within the member list, of the member with the least medoid
/// cost among the first `n`; the first such member wins ties.
pub open spec fn medoid_argmin(m: Metric, ps: Seq<Seq<i64>>, mem: Seq<usize>, n: int) -> int
    recommends
        1 <= n <= mem.len(),
    decreases n,
{
    if n <= 1 {
        0
    } else {
        let prev = medoid_argmin(m, ps, mem, n - 1);
        if medoid_cost(m, ps, mem, mem[n - 1] as int) < medoid_cost(m, ps, mem, mem[prev] as int) {
            n - 1
        } else {
            prev
        }
    }
}

/// `medoid_argmin` picks a position in range whose member's cost is
/// minimal, and no earlier member attains that minimum.
pub proof fn lemma_medoid_argmin(m: Metric, ps: Seq<Seq<i64>>, mem: Seq<usize>, n: int)
    requires
        1 <= n <= mem.len(),
    ensures
        0 <= medoid_argmin(m, ps, mem, n) < n,
        forall|u: int|
            0 <= u < n ==> medoid_cost(m, ps, mem, mem[medoid_argmin(m, ps, mem, n)] as int)
                <= medoid_cost(m, ps, mem, #[trigger] mem[u] as int),
        forall|u: int|
            0 <= u < medoid_argmin(m, ps, mem, n) ==> medoid_cost(m, ps, mem, #[trigger] mem[u]
                as int) > medoid_cost(m, ps, mem, mem[medoid_argmin(m, ps, mem, n)] as int),
    decreases n,
{
    if n <= 1 {
    } else {
        lemma_medoid_argmin(m, ps, mem, n - 1);
    }
}

/// The medoid-rule center for one cluster: the member whose total
/// intra-cluster cost is least replaces the incumbent only when it is
/// strictly cheaper; ties keep the incumbent, and an empty cluster keeps
/// its medoid.
pub open spec fn medoid_center(m: Metric, ps: Seq<Seq<i64>>, mem: Seq<usize>, current: usize)
    -> usize {
    if mem.len() == 0 {
        current
    } else {
        let best = mem[medoid_argmin(m, ps, mem, mem.len() as int)];
        if medoid_cost(m, ps, mem, best as int) < medoid_cost(m, ps, mem, current as int) {
            best
        } else {
            current
        }
    }
}

/// Total cost of `c` as the medoid of the bucket's members.
pub fn medoid_cost_of(m: Metric, points: &Vec<Point>, bucket: &Vec<usize>, c: usize) -> (r: i128)
    requires
        points@.len() >= 1,
        all_points_valid(points@, points@[0].spec_dim()),
        c < points@.len(),
        forall|u: int| 0 <= u < bucket@.len() ==> #[trigger] bucket@[u] < points@.len(),
    ensures
        r == medoid_cost(m, views(points@), bucket@, c as int),
        r >= 0,
{
    let ghost psv = views(points@);
    let ghost dim = points@[0].spec_dim();
    let nj = bucket.len();
    let mut sum: i128 = 0;
    let mut u: usize = 0;
    while u < nj
        invariant
            0 <= u <= nj,
            nj == bucket@.len(),
            psv == views(points@),
            points@.len() >= 1,
            dim == points@[0].spec_dim(),
            all_points_valid(points@, dim),
            c < points@.len(),
            forall|uu: int| 0 <= uu < bucket@.len() ==> #[trigger] bucket@[uu] < points@.len(),
            sum == medoid_cost(m, psv, bucket@.take(u as int), c as int),
            0 <= sum <= u * crate::engine::max_metric_value(),
        decreases nj - u,
    {
        proof {
            assert(valid_members(psv, bucket@.take(u + 1 as int), dim));
            lemma_medoid_cost_bounds(m, psv, bucket@.take(u + 1 as int), c as int, dim);
            assert(bucket@.take(u + 1 as int).drop_last() =~= bucket@.take(u as int));
            assert(bucket@.take(u + 1 as int).last() == bucket@[u as int]);
            assert((u + 1) * crate::engine::max_metric_value() <= 0x1_0000_0000_0000_0000
                * crate::engine::max_metric_value()) by (nonlinear_arith)
                requires
                    0 <= u + 1 <= 0x1_0000_0000_0000_0000,
            ;
        }
        let pi = bucket[u];
        let d = metric_distance_points(m, &points[pi], &points[c]);
        sum = sum + (d as i128);
        u += 1;
    }
    proof {
        assert(bucket@.take(nj as int) =~= bucket@);
    }
    sum
}

/// Distance between two points under the chosen metric.
fn metric_distance_points(m: Metric, a: &Point, b: &Point) -> (d: i64)
    requires
        a.is_valid(),
        b.is_valid(),
        a.spec_dim() == b.spec_dim(),
    ensures
        d == crate::distance::metric_dist(m, a@, b@),
        0 <= d,
{
    proof {
        crate::distance::lemma_metric_bounds(m, a@, b@);
    }
    crate::distance::metric_distance(m, a.coordinates(), b.coordinates())
}

/// Recomputes every medoid: within each cluster, the member with the
/// least total intra-cluster cost replaces the incumbent only if strictly
/// cheaper; ties keep the incumbent, and an empty cluster keeps its
/// medoid.
pub fn medoid_update(
    m: Metric,
    points: &Vec<Point>,
    buckets: &Vec<Vec<usize>>,
    old_medoids: &Vec<usize>,
) -> (r: Vec<usize>)
    requires
        buckets@.len() == old_medoids@.len(),
        points@.len() >= 1,
        all_points_valid(points@, points@[0].spec_dim()),
        forall|j: int| 0 <= j < old_medoids@.len() ==> #[trigger] old_medoids@[j] < points@.len(),
        forall|j: int, u: int|
            0 <= j < buckets@.len() && 0 <= u < buckets@[j]@.len() ==> #[trigger] buckets@[j]@[u]
                < points@.len(),
    ensures
        r@.len() == old_medoids@.len(),
        forall|j: int|
            0 <= j < r@.len() ==> #[trigger] r@[j] == medoid_center(
                m,
                views(points@),
                buckets@[j]@,
                old_medoids@[j],
            ),
        forall|j: int| 0 <= j < r@.len() ==> #[trigger] r@[j] < points@.len(),
{
    let ghost psv = views(points@);
    let ghost dim = points@[0].spec_dim();
    let k = old_medoids.len();
    let mut r: Vec<usize> = Vec::new();
    let mut j: usize = 0;
    while j < k
        invariant
            k == old_medoids@.len() == buckets@.len(),
            psv == views(points@),
            dim == points@[0].spec_dim(),
            points@.len() >= 1,
            all_points_valid(points@, dim),
            forall|jj: int|
                0 <= jj < old_medoids@.len() ==> #[trigger] old_medoids@[jj] < points@.len(),
            forall|jj: int, u: int|
                0 <= jj < buckets@.len() && 0 <= u < buckets@[jj]@.len() ==> #[trigger] buckets@[jj]@[u]
                    < points@.len(),
            0 <= j <= k,
            r@.len() == j,
            forall|jj: int|
                0 <= jj < j ==> #[trigger] r@[jj] == medoid_center(
                    m,
                    psv,
                    buckets@[jj]@,
                    old_medoids@[jj],
                ),
            forall|jj: int| 0 <= jj < j ==> #[trigger] r@[jj] < points@.len(),
        decreases k - j,
    {
        let bucket = &buckets[j];
        let nj = bucket.len();
        let cur = old_medoids[j];
        if nj == 0 {
            r.push(cur);
        } else {
            let cur_cost = medoid_cost_of(m, points, bucket, cur);
            let mut best_pos: usize = 0;
            let mut best_cost: i128 = medoid_cost_of(m, points, bucket, bucket[0]);
            let mut u: usize = 1;
            while u < nj
                invariant
                    1 <= u <= nj,
                    nj == bucket@.len(),
                    psv == views(points@),
                    dim == points@[0].spec_dim(),
                    points@.len() >= 1,
                    all_points_valid(points@, dim),
                    forall|uu: int|
                        0 <= uu < bucket@.len() ==> #[trigger] bucket@[uu] < points@.len(),
                    0 <= best_pos < u,
                    best_pos as int == medoid_argmin(m, psv, bucket@, u as int),
                    best_cost == medoid_cost(m, psv, bucket@, bucket@[best_pos as int] as int),
                decreases nj - u,
            {
                let cand_cost = medoid_cost_of(m, points, bucket, bucket[u]);
                if cand_cost < best_cost {
                    best_pos = u;
                    best_cost = cand_cost;
                }
                u += 1;
            }
            if best_cost < cur_cost {
                r.push(bucket[best_pos]);
            } else {
                r.push(cur);
            }
        }
        j += 1;
    }
    r
}

/// One online-mean step: the center moves toward the sampled point by the
/// rounded fraction `1 / cnt`, the exact incremental mean update.
pub open spec fn online_step(old: Seq<i64>, p: Seq<i64>, cnt: int) -> Seq<i64> {
    Seq::new(old.len(), |t: int| (old[t] + round_div(p[t] - old[t], cnt)) as i64)
}

/// An online-mean step keeps every coordinate between the old center's
/// and the sampled point's, so the center stays valid.
pub proof fn lemma_online_step_valid(old: Seq<i64>, p: Seq<i64>, cnt: int)
    requires
        valid_coords(old),
        valid_coords(p),
        old.len() == p.len(),
        cnt >= 1,
    ensures
        valid_coords(online_step(old, p, cnt)),
        online_step(old, p, cnt).len() == old.len(),
        forall|t: int|
            0 <= t < old.len() ==> #[trigger] online_step(old, p, cnt)[t] as int == old[t]
                + round_div(p[t] - old[t], cnt),
{
    assert forall|t: int|
        0 <= t < old.len() implies #[trigger] online_step(old, p, cnt)[t] as int == old[t]
        + round_div(p[t] - old[t], cnt) && valid_coord(online_step(old, p, cnt)[t]) by {
        let x = p[t] - old[t];
        if x >= 0 {
            assert(0 * cnt <= x <= x * cnt) by (nonlinear_arith)
                requires
                    x >= 0 && cnt >= 1,
            ;
            lemma_round_div_bounds(x, cnt, 0, x);
        } else {
            assert(x * cnt <= x <= 0 * cnt) by (nonlinear_arith)
                requires
                    x < 0 && cnt >= 1,
            ;
            lemma_round_div_bounds(x, cnt, x, 0);
        }
    }
}

/// Applies one online-mean update, returning the moved center.
pub fn online_update(old: &Point, p: &Point, cnt: u64) -> (r: Point)
    requires
        old.is_valid(),
        p.is_valid(),
        old.spec_dim() == p.spec_dim(),
        cnt >= 1,
    ensures
        r@ == online_step(old@, p@, cnt as int),
        r.is_valid(),
        r.spec_dim() == old.spec_dim(),
{
    proof {
        lemma_online_step_valid(old@, p@, cnt as int);
    }
    let d = old.dim();
    let oc = old.coordinates();
    let pc = p.coordinates();
    let mut coords: Vec<i64> = Vec::new();
    let mut t: usize = 0;
    while t < d
        invariant
            d == old.spec_dim() == p.spec_dim(),
            oc@ == old@,
            pc@ == p@,
            old.is_valid(),
            p.is_valid(),
            cnt >= 1,
            0 <= t <= d,
            coords@.len() == t,
            forall|tt: int| 0 <= tt < t ==> #[trigger] coords@[tt] == online_step(
                old@,
                p@,
                cnt as int,
            )[tt],
        decreases d - t,
    {
        proof {
            lemma_online_step_valid(old@, p@, cnt as int);
        }
        let x = pc[t] - oc[t];
        let delta = round_div_i128(x as i128, cnt as i128);
        proof {
            if x >= 0 {
                assert(0 * (cnt as int) <= x <= x * (cnt as int)) by (nonlinear_arith)
                    requires
                        x >= 0 && cnt >= 1,
                ;
                lemma_round_div_bounds(x as int, cnt as int, 0, x as int);
            } else {
                assert(x * (cnt as int) <= x <= 0 * (cnt as int)) by (nonlinear_arith)
                    requires
                        x < 0 && cnt >= 1,
                ;
                lemma_round_div_bounds(x as int, cnt as int, x as int, 0);
            }
        }
        let c = oc[t] + (delta as i64);
        coords.push(c);
        t += 1;
    }
    proof {
        assert(coords@ =~= online_step(old@, p@, cnt as int));
    }
    Point::new(coords)
}

} // verus!

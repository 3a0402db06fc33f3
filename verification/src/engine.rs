//! The assignment step and the run-level bookkeeping: nearest-center
//! labeling, grouping by cluster, center displacement and inertia.

use vstd::prelude::*;
use crate::point::{Point, views, valid_coords, all_points_valid, COORD_LIMIT, DIM_LIMIT};
use crate::distance::{Metric, metric_dist, metric_distance, lemma_metric_bounds};
use rayon::iter::IntoParallelRefIterator;
use rayon::iter::ParallelIterator;

verus! {

/// Index of the nearest center among the first `n`, under metric `m`.
/// The first (lowest-index) center achieving the minimum wins ties.
pub open spec fn nearest_upto(m: Metric, p: Seq<i64>, cs: Seq<Seq<i64>>, n: int) -> int
    recommends
        1 <= n <= cs.len(),
    decreases n,
{
    if n <= 1 {
        0
    } else {
        let prev = nearest_upto(m, p, cs, n - 1);
        if metric_dist(m, p, cs[n - 1]) < metric_dist(m, p, cs[prev]) {
            n - 1
        } else {
            prev
        }
    }
}

/// Index of the nearest center, lowest index winning ties.
pub open spec fn nearest(m: Metric, p: Seq<i64>, cs: Seq<Seq<i64>>) -> int {
    nearest_upto(m, p, cs, cs.len() as int)
}

/// Distance from a point to its nearest center.
pub open spec fn min_dist(m: Metric, p: Seq<i64>, cs: Seq<Seq<i64>>) -> int {
    metric_dist(m, p, cs[nearest(m, p, cs)])
}

/// `nearest_upto` picks an index in range whose distance is minimal, and
/// no earlier index attains that minimum.
pub proof fn lemma_nearest_upto(m: Metric, p: Seq<i64>, cs: Seq<Seq<i64>>, n: int)
    requires
        1 <= n <= cs.len(),
    ensures
        0 <= nearest_upto(m, p, cs, n) < n,
        forall|j: int|
            0 <= j < n ==> metric_dist(m, p, cs[nearest_upto(m, p, cs, n)]) <= metric_dist(
                m,
                p,
                #[trigger] cs[j],
            ),
        forall|j: int|
            0 <= j < nearest_upto(m, p, cs, n) ==> metric_dist(m, p, #[trigger] cs[j])
                > metric_dist(m, p, cs[nearest_upto(m, p, cs, n)]),
    decreases n,
{
    if n <= 1 {
    } else {
        lemma_nearest_upto(m, p, cs, n - 1);
    }
}

/// `nearest` picks an index in range whose distance is minimal, and no
/// earlier index attains that minimum.
pub proof fn lemma_nearest(m: Metric, p: Seq<i64>, cs: Seq<Seq<i64>>)
    requires
        cs.len() >= 1,
    ensures
        0 <= nearest(m, p, cs) < cs.len(),
        forall|j: int|
            0 <= j < cs.len() ==> min_dist(m, p, cs) <= metric_dist(m, p, #[trigger] cs[j]),
        forall|j: int|
            0 <= j < nearest(m, p, cs) ==> metric_dist(m, p, #[trigger] cs[j]) > min_dist(
                m,
                p,
                cs,
            ),
{
    lemma_nearest_upto(m, p, cs, cs.len() as int);
}

/// All centers are valid points of dimension `d` and there is at least one.
pub open spec fn valid_centers(cs: Seq<Point>, d: nat) -> bool {
    cs.len() >= 1 && all_points_valid(cs, d)
}

/// Index of the nearest center to `p`; the first center achieving the
/// minimal distance wins, so later equal distances never replace an
/// earlier candidate.
pub fn nearest_center(m: Metric, p: &Point, centers: &Vec<Point>) -> (idx: usize)
    requires
        p.is_valid(),
        valid_centers(centers@, p.spec_dim()),
    ensures
        idx as int == nearest(m, p@, views(centers@)),
        idx < centers@.len(),
{
    let cs = Ghost(views(centers@));
    let k = centers.len();
    let mut best: usize = 0;
    let mut best_d: i64 = metric_distance(m, p.coordinates(), centers[0].coordinates());
    let mut i: usize = 1;
    while i < k
        invariant
            k == centers@.len(),
            cs@ == views(centers@),
            p.is_valid(),
            valid_centers(centers@, p.spec_dim()),
            1 <= i <= k,
            best as int == nearest_upto(m, p@, cs@, i as int),
            best < i,
            best_d == metric_dist(m, p@, cs@[best as int]),
        decreases k - i,
    {
        let d = metric_distance(m, p.coordinates(), centers[i].coordinates());
        if d < best_d {
            best = i;
            best_d = d;
        }
        i += 1;
    }
    proof {
        lemma_nearest_upto(m, p@, cs@, k as int);
    }
    best
}

/// Relies on rayon's `par_iter().map(..).collect()`: one output element
/// per input point, in input order, each the closure's result for that
/// point.
#[verifier::external_body]
fn par_map_nearest(m: Metric, points: &Vec<Point>, centers: &Vec<Point>) -> (r: Vec<usize>)
    requires
        valid_centers(centers@, centers@[0].spec_dim()),
        all_points_valid(points@, centers@[0].spec_dim()),
    ensures
        r@.len() == points@.len(),
        forall|i: int|
            0 <= i < r@.len() ==> #[trigger] r@[i] as int == nearest(
                m,
                points@[i]@,
                views(centers@),
            ),
{
    points.par_iter().map(|p| nearest_center(m, p, centers)).collect()
}

/// The assignment under metric `m`: every index labels its point with the
/// nearest center.
pub open spec fn is_assignment(
    asg: Seq<usize>,
    m: Metric,
    points: Seq<Seq<i64>>,
    cs: Seq<Seq<i64>>,
) -> bool {
    &&& asg.len() == points.len()
    &&& forall|i: int| 0 <= i < asg.len() ==> #[trigger] asg[i] as int == nearest(m, points[i], cs)
}

/// The assignment as a mathematical function of points and centers.
pub open spec fn assignment_of(m: Metric, ps: Seq<Seq<i64>>, cs: Seq<Seq<i64>>) -> Seq<usize> {
    Seq::new(ps.len(), |i: int| nearest(m, ps[i], cs) as usize)
}

/// Nearest-center label for every point, computed across parallel
/// workers; the map is per-point independent, so merge order cannot
/// change the result.
pub fn assign_points(m: Metric, points: &Vec<Point>, centers: &Vec<Point>) -> (r: Vec<usize>)
    requires
        valid_centers(centers@, centers@[0].spec_dim()),
        all_points_valid(points@, centers@[0].spec_dim()),
    ensures
        is_assignment(r@, m, views(points@), views(centers@)),
        r@ == assignment_of(m, views(points@), views(centers@)),
        forall|i: int| 0 <= i < r@.len() ==> #[trigger] r@[i] < centers@.len(),
{
    let r = par_map_nearest(m, points, centers);
    proof {
        assert forall|i: int| 0 <= i < r@.len() implies #[trigger] r@[i] < centers@.len() by {
            lemma_nearest(m, points@[i]@, views(centers@));
        }
        assert(is_assignment(r@, m, views(points@), views(centers@)));
        assert forall|i: int|
            0 <= i < r@.len() implies r@[i] == assignment_of(m, views(points@), views(centers@))[i]
        by {
            lemma_nearest(m, points@[i]@, views(centers@));
        }
        assert(r@ =~= assignment_of(m, views(points@), views(centers@)));
    }
    r
}

/// The point indices assigned to cluster `j`, in ascending order.
pub open spec fn members(asg: Seq<usize>, j: int) -> Seq<usize>
    decreases asg.len(),
{
    if asg.len() == 0 {
        Seq::empty()
    } else {
        members(asg.drop_last(), j) + (if asg.last() as int == j {
            seq![(asg.len() - 1) as usize]
        } else {
            Seq::<usize>::empty()
        })
    }
}

/// Members of cluster `j` are indices into the assignment that carry
/// label `j`.
pub proof fn lemma_members(asg: Seq<usize>, j: int)
    requires
        asg.len() <= usize::MAX,
    ensures
        members(asg, j).len() <= asg.len(),
        forall|t: int|
            0 <= t < members(asg, j).len() ==> #[trigger] members(asg, j)[t] < asg.len()
                && asg[members(asg, j)[t] as int] as int == j,
    decreases asg.len(),
{
    if asg.len() == 0 {
    } else {
        lemma_members(asg.drop_last(), j);
        let prev = members(asg.drop_last(), j);
        assert forall|t: int|
            0 <= t < members(asg, j).len() implies #[trigger] members(asg, j)[t] < asg.len()
            && asg[members(asg, j)[t] as int] as int == j by {
            if t < prev.len() {
                assert(members(asg, j)[t] == prev[t]);
                assert(asg.drop_last()[prev[t] as int] == asg[prev[t] as int]);
            } else {
                assert(members(asg, j)[t] == (asg.len() - 1) as usize);
            }
        }
    }
}

/// Every index labeled `j` appears among the members of cluster `j`.
pub proof fn lemma_members_complete(asg: Seq<usize>, j: int, i: int)
    requires
        asg.len() <= usize::MAX,
        0 <= i < asg.len(),
        asg[i] as int == j,
    ensures
        members(asg, j).contains(i as usize),
    decreases asg.len(),
{
    if i == asg.len() - 1 {
        assert(members(asg, j).last() == (asg.len() - 1) as usize);
    } else {
        lemma_members_complete(asg.drop_last(), j, i);
        let t = choose|t: int|
            0 <= t < members(asg.drop_last(), j).len() && members(asg.drop_last(), j)[t] == (
            i as usize);
        assert(members(asg, j)[t] == (i as usize));
    }
}

/// Groups point indices by their assigned cluster. The grouping is a
/// deterministic, order-insensitive reduce: bucket `j` holds exactly the
/// indices labeled `j`, in ascending order.
pub fn group_by_cluster(asg: &Vec<usize>, k: usize) -> (buckets: Vec<Vec<usize>>)
    requires
        forall|i: int| 0 <= i < asg@.len() ==> #[trigger] asg@[i] < k,
    ensures
        buckets@.len() == k,
        forall|j: int| 0 <= j < k ==> #[trigger] buckets@[j]@ == members(asg@, j),
{
    let n = asg.len();
    let mut buckets: Vec<Vec<usize>> = Vec::new();
    let mut j: usize = 0;
    while j < k
        invariant
            0 <= j <= k,
            n == asg@.len(),
            forall|i: int| 0 <= i < asg@.len() ==> #[trigger] asg@[i] < k,
            buckets@.len() == j,
            forall|jj: int| 0 <= jj < j ==> #[trigger] buckets@[jj]@ == members(asg@, jj),
        decreases k - j,
    {
        let mut bucket: Vec<usize> = Vec::new();
        let mut i: usize = 0;
        while i < n
            invariant
                0 <= i <= n,
                n == asg@.len(),
                bucket@ == members(asg@.take(i as int), j as int),
            decreases n - i,
        {
            if asg[i] == j {
                bucket.push(i);
            }
            proof {
                assert(asg@.take(i + 1 as int).drop_last() =~= asg@.take(i as int));
                if asg@[i as int] as int == j as int {
                    assert(bucket@ =~= members(asg@.take(i + 1 as int), j as int));
                } else {
                    assert(bucket@ =~= members(asg@.take(i + 1 as int), j as int));
                }
            }
            i += 1;
        }
        proof {
            assert(asg@.take(n as int) =~= asg@);
        }
        buckets.push(bucket);
        j += 1;
    }
    buckets
}

/// The largest squared Euclidean displacement between corresponding
/// centers of two equally long center lists.
pub open spec fn max_sq_change(a: Seq<Seq<i64>>, b: Seq<Seq<i64>>) -> int
    recommends
        a.len() == b.len(),
    decreases a.len(),
{
    if a.len() == 0 {
        0
    } else {
        vstd::math::max(
            max_sq_change(a.drop_last(), b.drop_last()),
            crate::distance::sq_euclid(a.last(), b.last()),
        )
    }
}

/// The displacement of every center is bounded by the maximum, and the
/// maximum is non-negative.
pub proof fn lemma_max_sq_change(a: Seq<Seq<i64>>, b: Seq<Seq<i64>>)
    requires
        a.len() == b.len(),
        forall|j: int| 0 <= j < a.len() ==> #[trigger] a[j].len() == b[j].len(),
    ensures
        max_sq_change(a, b) >= 0,
        forall|j: int|
            0 <= j < a.len() ==> crate::distance::sq_euclid(#[trigger] a[j], b[j])
                <= max_sq_change(a, b),
    decreases a.len(),
{
    if a.len() == 0 {
    } else {
        lemma_max_sq_change(a.drop_last(), b.drop_last());
        crate::distance::lemma_metric_nonneg(Metric::SquaredEuclidean, a.last(), b.last());
        assert forall|j: int|
            0 <= j < a.len() implies crate::distance::sq_euclid(#[trigger] a[j], b[j])
            <= max_sq_change(a, b) by {
            if j < a.len() - 1 {
                assert(a.drop_last()[j] == a[j] && b.drop_last()[j] == b[j]);
            }
        }
    }
}

/// Total inertia of the first `n` points: the sum of each point's
/// distance to its nearest center.
pub open spec fn inertia_upto(m: Metric, ps: Seq<Seq<i64>>, cs: Seq<Seq<i64>>, n: int) -> int
    decreases n,
{
    if n <= 0 {
        0
    } else {
        inertia_upto(m, ps, cs, n - 1) + min_dist(m, ps[n - 1], cs)
    }
}

/// Total inertia: the sum over all points of the distance to the nearest
/// center.
pub open spec fn inertia(m: Metric, ps: Seq<Seq<i64>>, cs: Seq<Seq<i64>>) -> int {
    inertia_upto(m, ps, cs, ps.len() as int)
}

/// Total cost of a given assignment: the sum over all points of the
/// distance to the center the assignment names.
pub open spec fn cost_upto(
    m: Metric,
    ps: Seq<Seq<i64>>,
    asg: Seq<usize>,
    cs: Seq<Seq<i64>>,
    n: int,
) -> int
    decreases n,
{
    if n <= 0 {
        0
    } else {
        cost_upto(m, ps, asg, cs, n - 1) + metric_dist(m, ps[n - 1], cs[asg[n - 1] as int])
    }
}

/// Largest distance a valid point pair can be apart.
pub open spec fn max_metric_value() -> int {
    DIM_LIMIT * 4 * COORD_LIMIT * COORD_LIMIT
}

/// Inertia of a prefix is bounded by the prefix length times the largest
/// possible distance.
pub proof fn lemma_inertia_upto_bounds(m: Metric, ps: Seq<Seq<i64>>, cs: Seq<Seq<i64>>, n: int)
    requires
        cs.len() >= 1,
        0 <= n <= ps.len(),
        forall|i: int| 0 <= i < ps.len() ==> valid_coords(#[trigger] ps[i]),
        forall|j: int| 0 <= j < cs.len() ==> valid_coords(#[trigger] cs[j]),
        forall|i: int| 0 <= i < ps.len() ==> (#[trigger] ps[i]).len() == cs[0].len(),
        forall|j: int| 0 <= j < cs.len() ==> (#[trigger] cs[j]).len() == cs[0].len(),
    ensures
        0 <= inertia_upto(m, ps, cs, n) <= n * max_metric_value(),
    decreases n,
{
    if n <= 0 {
        assert(n * max_metric_value() >= 0) by (nonlinear_arith)
            requires
                n >= 0,
        ;
    } else {
        lemma_inertia_upto_bounds(m, ps, cs, n - 1);
        lemma_nearest(m, ps[n - 1], cs);
        let nj = nearest(m, ps[n - 1], cs);
        lemma_metric_bounds(m, ps[n - 1], cs[nj]);
        assert(min_dist(m, ps[n - 1], cs) <= max_metric_value()) by (nonlinear_arith)
            requires
                min_dist(m, ps[n - 1], cs) <= ps[n - 1].len() * 4 * COORD_LIMIT * COORD_LIMIT,
                0 <= ps[n - 1].len() <= DIM_LIMIT,
                max_metric_value() == DIM_LIMIT * 4 * COORD_LIMIT * COORD_LIMIT,
        ;
        assert((n - 1) * max_metric_value() + max_metric_value() == n * max_metric_value())
            by (nonlinear_arith);
    }
}

/// Total inertia, computed point by point.
pub fn total_inertia(m: Metric, points: &Vec<Point>, centers: &Vec<Point>) -> (r: u128)
    requires
        valid_centers(centers@, centers@[0].spec_dim()),
        all_points_valid(points@, centers@[0].spec_dim()),
        points@.len() < 0x1_0000_0000_0000_0000,
    ensures
        r == inertia(m, views(points@), views(centers@)),
{
    let ghost psv = views(points@);
    let ghost csv = views(centers@);
    let n = points.len();
    let mut sum: u128 = 0;
    let mut i: usize = 0;
    while i < n
        invariant
            n == points@.len(),
            n < 0x1_0000_0000_0000_0000,
            psv == views(points@),
            csv == views(centers@),
            valid_centers(centers@, centers@[0].spec_dim()),
            all_points_valid(points@, centers@[0].spec_dim()),
            0 <= i <= n,
            sum == inertia_upto(m, psv, csv, i as int),
            sum <= i * max_metric_value(),
        decreases n - i,
    {
        proof {
            lemma_inertia_upto_bounds(m, psv, csv, i as int);
            lemma_inertia_upto_bounds(m, psv, csv, i + 1);
            assert((i + 1) * max_metric_value() <= 0x1_0000_0000_0000_0000 * max_metric_value())
                by (nonlinear_arith)
                requires
                    0 <= i + 1 <= 0x1_0000_0000_0000_0000,
            ;
        }
        let idx = nearest_center(m, &points[i], centers);
        let d = metric_distance(m, points[i].coordinates(), centers[idx].coordinates());
        sum = sum + (d as u128);
        i += 1;
    }
    sum
}

} // verus!

//! Mini-Batch K-Means: the online-mean instance of the iterative
//! clustering engine.
//!
//! Within one iteration, `batch_size` points are sampled uniformly with
//! replacement; each sample moves only its nearest center, by the exact
//! incremental mean formula with the rounded fraction `1 / count`. The
//! batch is applied one draw at a time: every draw reads and moves shared
//! per-center state, so the updates are inherently sequential.

use vstd::prelude::*;
use crate::point::{Point, views, all_points_valid, copy_points};
use crate::config::{ConfigError, equal_dims, check_equal_dims, opt_views};
use crate::distance::Metric;
use crate::engine::{nearest, nearest_center, assign_points, is_assignment, valid_centers};
use crate::update::{online_step, online_update};
use crate::statistics::Statistics;
use crate::kmeans::KMeansInitialization;
use crate::seeding::random_indices;
use crate::random::rng_from_seed;

verus! {

/// The centers and per-center counts after applying one batch of draws in
/// order: each draw moves its nearest center toward the drawn point by
/// the rounded fraction `1 / count`.
pub open spec fn online_pass(
    ps: Seq<Seq<i64>>,
    cs: Seq<Seq<i64>>,
    counts: Seq<int>,
    draws: Seq<usize>,
) -> (Seq<Seq<i64>>, Seq<int>)
    decreases draws.len(),
{
    if draws.len() == 0 {
        (cs, counts)
    } else {
        let prev = online_pass(ps, cs, counts, draws.drop_last());
        let p = ps[draws.last() as int];
        let c = nearest(Metric::SquaredEuclidean, p, prev.0);
        let newcount = prev.1[c] + 1;
        (prev.0.update(c, online_step(prev.0[c], p, newcount)), prev.1.update(c, newcount))
    }
}

/// Applies one batch of sampled points to the centers, one draw at a
/// time.
pub fn mini_batch_pass(
    points: &Vec<Point>,
    centers: Vec<Point>,
    counts: Vec<u64>,
    draws: &Vec<usize>,
) -> (r: (Vec<Point>, Vec<u64>))
    requires
        points@.len() >= 1,
        all_points_valid(points@, points@[0].spec_dim()),
        valid_centers(centers@, points@[0].spec_dim()),
        counts@.len() == centers@.len(),
        forall|u: int| 0 <= u < draws@.len() ==> #[trigger] draws@[u] < points@.len(),
        forall|c: int|
            0 <= c < counts@.len() ==> #[trigger] counts@[c] + draws@.len()
                <= 0xffff_ffff_ffff_ffff,
    ensures
        ({
            let spec = online_pass(
                views(points@),
                views(centers@),
                counts@.map_values(|x: u64| x as int),
                draws@,
            );
            views(r.0@) == spec.0 && r.1@.map_values(|x: u64| x as int) == spec.1
        }),
        valid_centers(r.0@, points@[0].spec_dim()),
        r.0@.len() == centers@.len(),
        r.1@.len() == counts@.len(),
        forall|c: int|
            0 <= c < r.1@.len() ==> counts@[c] <= #[trigger] r.1@[c] && r.1@[c] <= counts@[c]
                + draws@.len(),
{
    let ghost psv = views(points@);
    let ghost dim = points@[0].spec_dim();
    let ghost cs0 = views(centers@);
    let ghost counts0 = counts@.map_values(|x: u64| x as int);
    let nb = draws.len();
    let mut centers = centers;
    let mut counts = counts;
    let mut u: usize = 0;
    proof {
        assert(draws@.take(0) =~= Seq::<usize>::empty());
    }
    while u < nb
        invariant
            nb == draws@.len(),
            psv == views(points@),
            dim == points@[0].spec_dim(),
            points@.len() >= 1,
            all_points_valid(points@, dim),
            valid_centers(centers@, dim),
            centers@.len() == cs0.len(),
            counts@.len() == centers@.len(),
            forall|x: int| 0 <= x < draws@.len() ==> #[trigger] draws@[x] < points@.len(),
            counts0.len() == counts@.len(),
            forall|x: int|
                0 <= x < counts0.len() ==> #[trigger] counts0[x] + nb <= 0xffff_ffff_ffff_ffff,
            forall|x: int|
                0 <= x < counts@.len() ==> counts0[x] <= #[trigger] counts@[x] && counts@[x]
                    <= counts0[x] + u,
            0 <= u <= nb,
            ({
                let spec = online_pass(psv, cs0, counts0, draws@.take(u as int));
                views(centers@) == spec.0 && counts@.map_values(|x: u64| x as int) == spec.1
            }),
        decreases nb - u,
    {
        let ghost prev_centers = centers@;
        let ghost prev_counts = counts@;
        let idx = draws[u];
        let c = nearest_center(Metric::SquaredEuclidean, &points[idx], &centers);
        let newcount = counts[c] + 1;
        counts[c] = newcount;
        let moved = online_update(&centers[c], &points[idx], newcount);
        centers[c] = moved;
        proof {
            assert(draws@.take(u + 1 as int).drop_last() =~= draws@.take(u as int));
            assert(draws@.take(u + 1 as int).last() == draws@[u as int]);
            let spec_prev = online_pass(psv, cs0, counts0, draws@.take(u as int));
            assert(spec_prev.0 == views(prev_centers));
            assert(spec_prev.1 == prev_counts.map_values(|x: u64| x as int));
            assert(views(centers@) =~= spec_prev.0.update(
                c as int,
                online_step(spec_prev.0[c as int], psv[idx as int], newcount as int),
            ));
            assert(counts@.map_values(|x: u64| x as int) =~= spec_prev.1.update(
                c as int,
                newcount as int,
            ));
            assert forall|x: int|
                0 <= x < counts@.len() implies counts0[x] <= #[trigger] counts@[x] && counts@[x]
                <= counts0[x] + (u + 1) by {
                if x != c {
                    assert(counts@[x] == prev_counts[x]);
                }
            }
        }
        u += 1;
    }
    proof {
        assert(draws@.take(nb as int) =~= draws@);
    }
    (centers, counts)
}

/// The result of a Mini-Batch K-Means run: final centers, a total
/// assignment of every point to its nearest final center, the number of
/// full iterations, and whether the run converged within the budget.
#[derive(Debug)]
pub struct MiniBatchKMeans {
    pub assignments: Vec<usize>,
    pub centroids: Vec<Point>,
    pub iterations: usize,
    pub converged: bool,
    pub max_iterations: usize,
    pub batch_size: usize,
}

/// The first configuration fault a Mini-Batch K-Means run would hit, if
/// any.
pub open spec fn mini_batch_config_error(
    points: Seq<Point>,
    no_clusters: int,
    max_iterations: int,
    tolerance: int,
    batch_size: int,
    init_method: KMeansInitialization,
    precomputed: Option<Seq<Point>>,
) -> Option<ConfigError> {
    if points.len() == 0 {
        Some(ConfigError::EmptyPointSet)
    } else if !equal_dims(points) {
        Some(ConfigError::DimensionMismatch)
    } else if no_clusters == 0 {
        Some(ConfigError::ZeroClusters)
    } else if no_clusters > points.len() {
        Some(ConfigError::TooManyClusters)
    } else if max_iterations == 0 {
        Some(ConfigError::ZeroMaxIterations)
    } else if tolerance <= 0 {
        Some(ConfigError::NonPositiveTolerance)
    } else if batch_size == 0 {
        Some(ConfigError::ZeroBatchSize)
    } else if init_method is Precomputed && (precomputed is None || precomputed.unwrap().len()
        != no_clusters) {
        Some(ConfigError::PrecomputedCountMismatch)
    } else if init_method is Precomputed && !(forall|j: int|
        0 <= j < precomputed.unwrap().len() ==> (#[trigger] precomputed.unwrap()[j]).is_valid()
            && precomputed.unwrap()[j].spec_dim() == points[0].spec_dim()) {
        Some(ConfigError::DimensionMismatch)
    } else {
        None
    }
}

impl MiniBatchKMeans {
    /// Runs Mini-Batch K-Means on the points with the given
    /// configuration. The random source is seeded from `seed`, so equal
    /// inputs and equal seeds reproduce the same result.
    pub fn run(
        points: &Vec<Point>,
        no_clusters: usize,
        max_iterations: usize,
        tolerance: i64,
        batch_size: usize,
        init_method: KMeansInitialization,
        precomputed: Option<&Vec<Point>>,
        seed: u64,
    ) -> (r: Result<MiniBatchKMeans, ConfigError>)
        requires
            forall|i: int| 0 <= i < points@.len() ==> (#[trigger] points@[i]).is_valid(),
            points@.len() < 0x1_0000_0000_0000_0000,
            (max_iterations as int) * (batch_size as int) <= 0xffff_ffff_ffff_ffff,
        ensures
            match r {
                Ok(out) => {
                    &&& mini_batch_config_error(
                        points@,
                        no_clusters as int,
                        max_iterations as int,
                        tolerance as int,
                        batch_size as int,
                        init_method,
                        opt_views(precomputed),
                    ) is None
                    &&& out.centroids@.len() == no_clusters
                    &&& all_points_valid(out.centroids@, points@[0].spec_dim())
                    &&& is_assignment(
                        out.assignments@,
                        Metric::SquaredEuclidean,
                        views(points@),
                        views(out.centroids@),
                    )
                    &&& forall|i: int|
                        0 <= i < out.assignments@.len() ==> #[trigger] out.assignments@[i]
                            < no_clusters
                    &&& out.iterations <= max_iterations
                    &&& out.max_iterations == max_iterations
                    &&& out.batch_size == batch_size
                    &&& (out.converged <==> out.iterations < max_iterations)
                },
                Err(e) => mini_batch_config_error(
                    points@,
                    no_clusters as int,
                    max_iterations as int,
                    tolerance as int,
                    batch_size as int,
                    init_method,
                    opt_views(precomputed),
                ) == Some(e),
            },
    {
        let ghost psv = views(points@);
        if points.len() == 0 {
            return Err(ConfigError::EmptyPointSet);
        }
        if !check_equal_dims(points) {
            return Err(ConfigError::DimensionMismatch);
        }
        if no_clusters == 0 {
            return Err(ConfigError::ZeroClusters);
        }
        if no_clusters > points.len() {
            return Err(ConfigError::TooManyClusters);
        }
        if max_iterations == 0 {
            return Err(ConfigError::ZeroMaxIterations);
        }
        if tolerance <= 0 {
            return Err(ConfigError::NonPositiveTolerance);
        }
        if batch_size == 0 {
            return Err(ConfigError::ZeroBatchSize);
        }
        let ghost dim = points@[0].spec_dim();
        let mut rng = rng_from_seed(seed);
        let mut centers: Vec<Point> = match crate::kmeans::KMeans::initial_centroids(
            points,
            no_clusters,
            init_method,
            precomputed,
            &mut rng,
        ) {
            Ok(cs) => cs,
            Err(e) => {
                return Err(e);
            },
        };
        proof {
            assert((tolerance as int) * (tolerance as int)
                < 0x4000_0000_0000_0000_0000_0000_0000_0000) by (nonlinear_arith)
                requires
                    1 <= tolerance <= 0x7fff_ffff_ffff_ffff,
            ;
        }
        let stop: i128 = (tolerance as i128) * (tolerance as i128);
        let mut counts: Vec<u64> = Vec::new();
        let mut c0: usize = 0;
        while c0 < no_clusters
            invariant
                0 <= c0 <= no_clusters,
                counts@.len() == c0,
                forall|x: int| 0 <= x < c0 ==> #[trigger] counts@[x] == 0,
            decreases no_clusters - c0,
        {
            counts.push(0);
            c0 += 1;
        }
        let n = points.len();
        let mut i: usize = 0;
        let mut converged = false;
        while i < max_iterations
            invariant_except_break
                psv == views(points@),
                dim == points@[0].spec_dim(),
                1 <= n == points@.len(),
                all_points_valid(points@, dim),
                valid_centers(centers@, dim),
                centers@.len() == no_clusters,
                counts@.len() == no_clusters,
                batch_size >= 1,
                (max_iterations as int) * (batch_size as int) <= 0xffff_ffff_ffff_ffff,
                forall|x: int|
                    0 <= x < counts@.len() ==> #[trigger] counts@[x] <= (i as int) * (
                    batch_size as int),
                !converged,
                0 <= i <= max_iterations,
            ensures
                psv == views(points@),
                dim == points@[0].spec_dim(),
                valid_centers(centers@, dim),
                centers@.len() == no_clusters,
                i <= max_iterations,
                converged <==> (i < max_iterations),
            decreases max_iterations - i,
        {
            let previous = copy_points(&centers);
            let draws = random_indices(&mut rng, n, batch_size);
            proof {
                assert forall|x: int|
                    0 <= x < counts@.len() implies #[trigger] counts@[x] + draws@.len()
                    <= 0xffff_ffff_ffff_ffff by {
                    assert((i as int) * (batch_size as int) + batch_size <= (
                    max_iterations as int) * (batch_size as int)) by (nonlinear_arith)
                        requires
                            0 <= i < max_iterations,
                    ;
                }
            }
            let (new_centers, new_counts) = mini_batch_pass(points, centers, counts, &draws);
            centers = new_centers;
            counts = new_counts;
            proof {
                assert forall|x: int|
                    0 <= x < counts@.len() implies #[trigger] counts@[x] <= ((i + 1) as int) * (
                batch_size as int) by {
                    assert((i as int) * (batch_size as int) + batch_size == ((i + 1) as int) * (
                    batch_size as int)) by (nonlinear_arith);
                }
            }
            let change = Statistics::max_change(&previous, &centers);
            if (change as i128) <= stop {
                converged = true;
                break;
            }
            i += 1;
        }
        let assignments = assign_points(Metric::SquaredEuclidean, points, &centers);
        Ok(
            MiniBatchKMeans {
                assignments,
                centroids: centers,
                iterations: i,
                converged,
                max_iterations,
                batch_size,
            },
        )
    }

    pub fn centroids(&self) -> (r: &Vec<Point>)
        ensures
            r@ == self.centroids@,
    {
        &self.centroids
    }
}

} // verus!

//! K-Medians: the median-rule instance of the iterative clustering
//! engine.
//!
//! Each iteration labels every point with its nearest center under the
//! squared Euclidean metric, then recomputes every center dimension-wise
//! as the median of its cluster's values, so the new center need not
//! coincide with any input point.

use vstd::prelude::*;
use crate::point::{Point, views, all_points_valid};
use crate::config::{ConfigError, equal_dims, check_equal_dims, opt_views};
use crate::distance::Metric;
use crate::engine::{
    assignment_of, assign_points, group_by_cluster, is_assignment, members, max_sq_change,
    valid_centers,
};
use crate::update::{median_center, median_update};
use crate::statistics::Statistics;
use crate::seeding::{pp_chosen, chosen_views, kmeans_pp_seed, random_indices,
    centers_from_indices};
use crate::random::{rng_from_seed, rand_index, rand_u64};

verus! {

/// How the initial centers are chosen.
#[derive(Clone, Copy, Debug, PartialEq, Eq, Structural)]
pub enum KMediansInitialization {
    Random,
    KMeansPlusPlus,
    Precomputed,
}

/// The first configuration fault a K-Medians run would hit, if any.
pub open spec fn kmedians_config_error(
    points: Seq<Point>,
    no_clusters: int,
    max_iterations: int,
    tolerance: int,
    init_method: KMediansInitialization,
    precomputed: Option<Seq<Point>>,
) -> Option<ConfigError> {
    if points.len() == 0 {
        Some(ConfigError::EmptyPointSet)
    } else if !equal_dims(points) {
        Some(ConfigError::DimensionMismatch)
    } else if no_clusters == 0 {
        Some(ConfigError::ZeroClusters)
    } else if no_clusters > points.len() {
        Some(ConfigError::TooManyClusters)
    } else if max_iterations == 0 {
        Some(ConfigError::ZeroMaxIterations)
    } else if tolerance <= 0 {
        Some(ConfigError::NonPositiveTolerance)
    } else if init_method is Precomputed && (precomputed is None || precomputed.unwrap().len()
        != no_clusters) {
        Some(ConfigError::PrecomputedCountMismatch)
    } else if init_method is Precomputed && !(forall|j: int|
        0 <= j < precomputed.unwrap().len() ==> (#[trigger] precomputed.unwrap()[j]).is_valid()
            && precomputed.unwrap()[j].spec_dim() == points[0].spec_dim()) {
        Some(ConfigError::DimensionMismatch)
    } else {
        None
    }
}

/// One engine pass under the median rule: assign every point to its
/// nearest center, then recompute each center dimension-wise as the
/// median of its cluster.
pub open spec fn kmedians_step(ps: Seq<Seq<i64>>, cs: Seq<Seq<i64>>) -> Seq<Seq<i64>> {
    let asg = assignment_of(Metric::SquaredEuclidean, ps, cs);
    Seq::new(cs.len(), |j: int| median_center(ps, members(asg, j), cs[j]))
}

/// The engine loop under the median rule, with the same convergence
/// protocol as the mean rule.
pub open spec fn kmedians_iterate(ps: Seq<Seq<i64>>, cs: Seq<Seq<i64>>, stop: int, fuel: nat) -> (
    Seq<Seq<i64>>,
    nat,
    bool,
)
    decreases fuel,
{
    if fuel == 0 {
        (cs, 0nat, false)
    } else {
        let next = kmedians_step(ps, cs);
        if max_sq_change(cs, next) <= stop {
            (next, 0nat, true)
        } else {
            let tail = kmedians_iterate(ps, next, stop, (fuel - 1) as nat);
            (tail.0, (tail.1 + 1) as nat, tail.2)
        }
    }
}

/// The outputs are exactly what the median-rule engine loop produces from
/// the given initial centers.
pub open spec fn kmedians_run_from(
    ps: Seq<Seq<i64>>,
    init: Seq<Seq<i64>>,
    stop: int,
    max_iter: nat,
    out_centers: Seq<Seq<i64>>,
    iterations: nat,
    converged: bool,
) -> bool {
    let r = kmedians_iterate(ps, init, stop, max_iter);
    out_centers == r.0 && iterations == r.1 && converged == r.2
}

/// Runs the median-rule engine loop from the given initial centers.
pub fn kmedians_core(
    points: &Vec<Point>,
    initial: Vec<Point>,
    max_iterations: usize,
    tolerance: i64,
) -> (r: (Vec<Point>, usize, bool))
    requires
        points@.len() >= 1,
        all_points_valid(points@, points@[0].spec_dim()),
        valid_centers(initial@, points@[0].spec_dim()),
        tolerance >= 1,
    ensures
        kmedians_run_from(
            views(points@),
            views(initial@),
            tolerance * tolerance,
            max_iterations as nat,
            views(r.0@),
            r.1 as nat,
            r.2,
        ),
        valid_centers(r.0@, points@[0].spec_dim()),
        r.0@.len() == initial@.len(),
        r.1 <= max_iterations,
        r.2 <==> (r.1 < max_iterations),
{
    let ghost psv = views(points@);
    let ghost dim = points@[0].spec_dim();
    let ghost stop_spec = (tolerance * tolerance) as int;
    let ghost full = kmedians_iterate(psv, views(initial@), stop_spec, max_iterations as nat);
    proof {
        assert((tolerance as int) * (tolerance as int) < 0x4000_0000_0000_0000_0000_0000_0000_0000)
            by (nonlinear_arith)
            requires
                1 <= tolerance <= 0x7fff_ffff_ffff_ffff,
        ;
    }
    let stop: i128 = (tolerance as i128) * (tolerance as i128);
    let k = initial.len();
    let mut centers = initial;
    let mut i: usize = 0;
    let mut converged = false;
    while i < max_iterations
        invariant_except_break
            psv == views(points@),
            dim == points@[0].spec_dim(),
            points@.len() >= 1,
            all_points_valid(points@, dim),
            valid_centers(centers@, dim),
            centers@.len() == k,
            stop == stop_spec,
            stop_spec == tolerance * tolerance,
            full == kmedians_iterate(psv, views(initial@), stop_spec, max_iterations as nat),
            !converged,
            0 <= i <= max_iterations,
            i <= full.1,
            kmedians_iterate(psv, views(centers@), stop_spec, (max_iterations - i) as nat) == (
                full.0,
                (full.1 - i) as nat,
                full.2,
            ),
        ensures
            psv == views(points@),
            dim == points@[0].spec_dim(),
            valid_centers(centers@, dim),
            centers@.len() == k,
            views(centers@) == full.0,
            i as nat == full.1,
            converged == full.2,
            i <= max_iterations,
            converged <==> (i < max_iterations),
        decreases max_iterations - i,
    {
        let asg = assign_points(Metric::SquaredEuclidean, points, &centers);
        let na = asg.len();
        proof {
            assert(asg@.len() == na as int);
            assert forall|j: int, u: int|
                0 <= j < k && 0 <= u < members(asg@, j).len() implies #[trigger] members(
                asg@,
                j,
            )[u] < points@.len() by {
                crate::engine::lemma_members(asg@, j);
            }
        }
        let buckets = group_by_cluster(&asg, k);
        let updated = median_update(points, &buckets, &centers);
        proof {
            assert(views(updated@) =~= kmedians_step(psv, views(centers@)));
        }
        let change = Statistics::max_change(&centers, &updated);
        let ghost prev_views = views(centers@);
        centers = updated;
        if (change as i128) <= stop {
            converged = true;
            proof {
                assert(kmedians_iterate(psv, prev_views, stop_spec, (max_iterations - i) as nat)
                    == (views(centers@), 0nat, true));
            }
            break;
        }
        proof {
            let rem = (max_iterations - i) as nat;
            assert(kmedians_iterate(psv, prev_views, stop_spec, rem) == {
                let tail = kmedians_iterate(psv, views(centers@), stop_spec, (rem - 1) as nat);
                (tail.0, (tail.1 + 1) as nat, tail.2)
            });
        }
        i += 1;
    }
    (centers, i, converged)
}

/// The result of a K-Medians run: final centers, a total assignment of
/// every point to its nearest final center, the number of full
/// iterations, and whether the run converged within the budget.
#[derive(Debug)]
pub struct KMedians {
    pub assignments: Vec<usize>,
    pub centroids: Vec<Point>,
    pub iterations: usize,
    pub converged: bool,
    pub max_iterations: usize,
}

impl KMedians {
    /// Runs K-Medians on the points with the given configuration. The
    /// random source is seeded from `seed`, so equal inputs and equal
    /// seeds reproduce the same result.
    pub fn run(
        points: &Vec<Point>,
        no_clusters: usize,
        max_iterations: usize,
        tolerance: i64,
        init_method: KMediansInitialization,
        precomputed: Option<&Vec<Point>>,
        seed: u64,
    ) -> (r: Result<KMedians, ConfigError>)
        requires
            forall|i: int| 0 <= i < points@.len() ==> (#[trigger] points@[i]).is_valid(),
            points@.len() < 0x1_0000_0000_0000_0000,
        ensures
            match r {
                Ok(out) => {
                    &&& kmedians_config_error(
                        points@,
                        no_clusters as int,
                        max_iterations as int,
                        tolerance as int,
                        init_method,
                        opt_views(precomputed),
                    ) is None
                    &&& out.centroids@.len() == no_clusters
                    &&& all_points_valid(out.centroids@, points@[0].spec_dim())
                    &&& is_assignment(
                        out.assignments@,
                        Metric::SquaredEuclidean,
                        views(points@),
                        views(out.centroids@),
                    )
                    &&& forall|i: int|
                        0 <= i < out.assignments@.len() ==> #[trigger] out.assignments@[i]
                            < no_clusters
                    &&& out.iterations <= max_iterations
                    &&& out.max_iterations == max_iterations
                    &&& (out.converged <==> out.iterations < max_iterations)
                    &&& (init_method is Precomputed ==> kmedians_run_from(
                        views(points@),
                        views(precomputed.unwrap()@),
                        tolerance * tolerance,
                        max_iterations as nat,
                        views(out.centroids@),
                        out.iterations as nat,
                        out.converged,
                    ))
                    &&& (init_method is Random ==> exists|idxs: Seq<usize>|
                        #![auto]
                        idxs.len() == no_clusters && (forall|c: int|
                            0 <= c < idxs.len() ==> idxs[c] < points@.len())
                            && kmedians_run_from(
                            views(points@),
                            chosen_views(views(points@), idxs),
                            tolerance * tolerance,
                            max_iterations as nat,
                            views(out.centroids@),
                            out.iterations as nat,
                            out.converged,
                        ))
                    &&& (init_method is KMeansPlusPlus ==> exists|first: usize, fracs: Seq<u64>|
                        #![auto]
                        first < points@.len() && fracs.len() + 1 == no_clusters
                            && kmedians_run_from(
                            views(points@),
                            chosen_views(
                                views(points@),
                                pp_chosen(
                                    Metric::SquaredEuclidean,
                                    views(points@),
                                    first,
                                    fracs,
                                ),
                            ),
                            tolerance * tolerance,
                            max_iterations as nat,
                            views(out.centroids@),
                            out.iterations as nat,
                            out.converged,
                        ))
                },
                Err(e) => kmedians_config_error(
                    points@,
                    no_clusters as int,
                    max_iterations as int,
                    tolerance as int,
                    init_method,
                    opt_views(precomputed),
                ) == Some(e),
            },
    {
        let ghost psv = views(points@);
        if points.len() == 0 {
            return Err(ConfigError::EmptyPointSet);
        }
        if !check_equal_dims(points) {
            return Err(ConfigError::DimensionMismatch);
        }
        if no_clusters == 0 {
            return Err(ConfigError::ZeroClusters);
        }
        if no_clusters > points.len() {
            return Err(ConfigError::TooManyClusters);
        }
        if max_iterations == 0 {
            return Err(ConfigError::ZeroMaxIterations);
        }
        if tolerance <= 0 {
            return Err(ConfigError::NonPositiveTolerance);
        }
        let ghost dim = points@[0].spec_dim();
        let mut rng = rng_from_seed(seed);
        let initial: Vec<Point> = match init_method {
            KMediansInitialization::Random => {
                let idxs = random_indices(&mut rng, points.len(), no_clusters);
                let cs = centers_from_indices(points, &idxs);
                proof {
                    assert(views(cs@) =~= chosen_views(psv, idxs@));
                }
                cs
            },
            KMediansInitialization::KMeansPlusPlus => {
                let first = rand_index(&mut rng, points.len());
                let mut fracs: Vec<u64> = Vec::new();
                let mut c: usize = 0;
                let steps = no_clusters - 1;
                while c < steps
                    invariant
                        0 <= c <= steps,
                        fracs@.len() == c,
                    decreases steps - c,
                {
                    let f = rand_u64(&mut rng);
                    fracs.push(f);
                    c += 1;
                }
                let idxs = kmeans_pp_seed(Metric::SquaredEuclidean, points, first, &fracs);
                let cs = centers_from_indices(points, &idxs);
                proof {
                    assert(views(cs@) =~= chosen_views(psv, idxs@));
                }
                cs
            },
            KMediansInitialization::Precomputed => {
                match precomputed {
                    Some(pc) => {
                        if pc.len() != no_clusters {
                            return Err(ConfigError::PrecomputedCountMismatch);
                        }
                        let d0 = points[0].dim();
                        let mut j: usize = 0;
                        while j < pc.len()
                            invariant
                                0 <= j <= pc@.len(),
                                d0 == points@[0].spec_dim(),
                                points@.len() >= 1,
                                no_clusters == pc@.len(),
                                equal_dims(points@),
                                no_clusters >= 1,
                                no_clusters <= points@.len(),
                                max_iterations >= 1,
                                tolerance >= 1,
                                precomputed == Some(pc),
                                init_method is Precomputed,
                                forall|x: int|
                                    0 <= x < j ==> (#[trigger] pc@[x]).is_valid()
                                        && pc@[x].spec_dim() == d0,
                            decreases pc@.len() - j,
                        {
                            let mut this_ok = pc[j].dim() == d0;
                            if this_ok {
                                this_ok = crate::point::check_point_valid(&pc[j]);
                            }
                            if !this_ok {
                                proof {
                                    let pcs = opt_views(precomputed).unwrap();
                                    assert(pcs == pc@);
                                    assert(!((pcs[j as int]).is_valid() && pcs[j as int].spec_dim()
                                        == points@[0].spec_dim()));
                                    assert(!(forall|x: int|
                                        0 <= x < pcs.len() ==> (#[trigger] pcs[x]).is_valid()
                                            && pcs[x].spec_dim() == points@[0].spec_dim()));
                                }
                                return Err(ConfigError::DimensionMismatch);
                            }
                            j += 1;
                        }
                        let mut cs: Vec<Point> = Vec::new();
                        let mut j2: usize = 0;
                        while j2 < pc.len()
                            invariant
                                0 <= j2 <= pc@.len(),
                                cs@.len() == j2,
                                points@.len() >= 1,
                                forall|x: int|
                                    0 <= x < pc@.len() ==> (#[trigger] pc@[x]).is_valid()
                                        && pc@[x].spec_dim() == points@[0].spec_dim(),
                                forall|x: int| 0 <= x < j2 ==> #[trigger] cs@[x]@ == pc@[x]@,
                                all_points_valid(cs@, points@[0].spec_dim()),
                            decreases pc@.len() - j2,
                        {
                            let p = crate::point::copy_point(&pc[j2]);
                            cs.push(p);
                            j2 += 1;
                        }
                        proof {
                            assert(views(cs@) =~= views(pc@));
                        }
                        cs
                    },
                    None => {
                        return Err(ConfigError::PrecomputedCountMismatch);
                    },
                }
            },
        };
        let ghost init_views = views(initial@);
        let (centroids, iterations, converged) = kmedians_core(
            points,
            initial,
            max_iterations,
            tolerance,
        );
        let assignments = assign_points(Metric::SquaredEuclidean, points, &centroids);
        Ok(
            KMedians {
                assignments,
                centroids,
                iterations,
                converged,
                max_iterations,
            },
        )
    }
}

} // verus!

//! K-Means: the mean-rule instance of the iterative clustering engine.
//!
//! Each iteration labels every point with its nearest center under the
//! squared Euclidean metric, recomputes every center as the rounded mean
//! of its cluster, and stops once the largest squared center displacement
//! falls within the squared tolerance, or the iteration budget runs out.

use vstd::prelude::*;
use crate::point::{Point, views, all_points_valid};
use crate::config::{ConfigError, equal_dims, check_equal_dims, opt_views};
use crate::distance::Metric;
use crate::engine::{
    assignment_of, assign_points, group_by_cluster, is_assignment, members, max_sq_change,
    valid_centers, nearest, lemma_nearest,
};
use crate::distance::metric_dist;
use crate::update::{mean_center, mean_update, member_dim_sum};
use crate::statistics::Statistics;
use crate::seeding::{pp_chosen, chosen_views, kmeans_pp_seed, random_indices,
    centers_from_indices};
use crate::random::{rng_from_seed, rand_index, rand_u64};

verus! {

/// How the initial centers are chosen.
#[derive(Clone, Copy, Debug, PartialEq, Eq, Structural)]
pub enum KMeansInitialization {
    Random,
    KMeansPlusPlus,
    Precomputed,
}

/// The first configuration fault a K-Means run would hit, if any.
pub open spec fn kmeans_config_error(
    points: Seq<Point>,
    no_clusters: int,
    max_iterations: int,
    tolerance: int,
    init_method: KMeansInitialization,
    precomputed: Option<Seq<Point>>,
) -> Option<ConfigError> {
    if points.len() == 0 {
        Some(ConfigError::EmptyPointSet)
    } else if !equal_dims(points) {
        Some(ConfigError::DimensionMismatch)
    } else if no_clusters == 0 {
        Some(ConfigError::ZeroClusters)
    } else if no_clusters > points.len() {
        Some(ConfigError::TooManyClusters)
    } else if max_iterations == 0 {
        Some(ConfigError::ZeroMaxIterations)
    } else if tolerance <= 0 {
        Some(ConfigError::NonPositiveTolerance)
    } else if init_method is Precomputed && (precomputed is None || precomputed.unwrap().len()
        != no_clusters) {
        Some(ConfigError::PrecomputedCountMismatch)
    } else if init_method is Precomputed && !(forall|j: int|
        0 <= j < precomputed.unwrap().len() ==> (#[trigger] precomputed.unwrap()[j]).is_valid()
            && precomputed.unwrap()[j].spec_dim() == points[0].spec_dim()) {
        Some(ConfigError::DimensionMismatch)
    } else {
        None
    }
}

/// One engine pass under the mean rule: assign every point to its nearest
/// center, then recompute each center as the rounded mean of its cluster.
pub open spec fn kmeans_step(ps: Seq<Seq<i64>>, cs: Seq<Seq<i64>>) -> Seq<Seq<i64>> {
    let asg = assignment_of(Metric::SquaredEuclidean, ps, cs);
    Seq::new(cs.len(), |j: int| mean_center(ps, members(asg, j), cs[j]))
}

/// The engine loop under the mean rule: repeated assignment and update
/// until the largest squared center displacement is within `stop`, or the
/// fuel is exhausted. Yields the final centers, the number of full
/// iterations completed before the converging pass, and whether the loop
/// exited through the displacement test.
pub open spec fn kmeans_iterate(ps: Seq<Seq<i64>>, cs: Seq<Seq<i64>>, stop: int, fuel: nat) -> (
    Seq<Seq<i64>>,
    nat,
    bool,
)
    decreases fuel,
{
    if fuel == 0 {
        (cs, 0nat, false)
    } else {
        let next = kmeans_step(ps, cs);
        if max_sq_change(cs, next) <= stop {
            (next, 0nat, true)
        } else {
            let tail = kmeans_iterate(ps, next, stop, (fuel - 1) as nat);
            (tail.0, (tail.1 + 1) as nat, tail.2)
        }
    }
}

/// The outputs are exactly what the mean-rule engine loop produces from
/// the given initial centers.
pub open spec fn kmeans_run_from(
    ps: Seq<Seq<i64>>,
    init: Seq<Seq<i64>>,
    stop: int,
    max_iter: nat,
    out_centers: Seq<Seq<i64>>,
    iterations: nat,
    converged: bool,
) -> bool {
    let r = kmeans_iterate(ps, init, stop, max_iter);
    out_centers == r.0 && iterations == r.1 && converged == r.2
}

/// Runs the mean-rule engine loop from the given initial centers,
/// returning the final centers, the iteration count and the convergence
/// flag.
pub fn kmeans_core(
    points: &Vec<Point>,
    initial: Vec<Point>,
    max_iterations: usize,
    tolerance: i64,
) -> (r: (Vec<Point>, usize, bool))
    requires
        points@.len() >= 1,
        all_points_valid(points@, points@[0].spec_dim()),
        valid_centers(initial@, points@[0].spec_dim()),
        tolerance >= 1,
    ensures
        kmeans_run_from(
            views(points@),
            views(initial@),
            tolerance * tolerance,
            max_iterations as nat,
            views(r.0@),
            r.1 as nat,
            r.2,
        ),
        valid_centers(r.0@, points@[0].spec_dim()),
        r.0@.len() == initial@.len(),
        r.1 <= max_iterations,
        r.2 <==> (r.1 < max_iterations),
{
    let ghost psv = views(points@);
    let ghost dim = points@[0].spec_dim();
    let ghost stop_spec = (tolerance * tolerance) as int;
    let ghost full = kmeans_iterate(psv, views(initial@), stop_spec, max_iterations as nat);
    proof {
        assert((tolerance as int) * (tolerance as int) < 0x4000_0000_0000_0000_0000_0000_0000_0000)
            by (nonlinear_arith)
            requires
                1 <= tolerance <= 0x7fff_ffff_ffff_ffff,
        ;
    }
    let stop: i128 = (tolerance as i128) * (tolerance as i128);
    let k = initial.len();
    let mut centers = initial;
    let mut i: usize = 0;
    let mut converged = false;
    while i < max_iterations
        invariant_except_break
            psv == views(points@),
            dim == points@[0].spec_dim(),
            points@.len() >= 1,
            all_points_valid(points@, dim),
            valid_centers(centers@, dim),
            centers@.len() == k,
            stop == stop_spec,
            stop_spec == tolerance * tolerance,
            full == kmeans_iterate(psv, views(initial@), stop_spec, max_iterations as nat),
            !converged,
            0 <= i <= max_iterations,
            i <= full.1,
            kmeans_iterate(psv, views(centers@), stop_spec, (max_iterations - i) as nat) == (
                full.0,
                (full.1 - i) as nat,
                full.2,
            ),
        ensures
            psv == views(points@),
            dim == points@[0].spec_dim(),
            valid_centers(centers@, dim),
            centers@.len() == k,
            views(centers@) == full.0,
            i as nat == full.1,
            converged == full.2,
            i <= max_iterations,
            converged <==> (i < max_iterations),
        decreases max_iterations - i,
    {
        let asg = assign_points(Metric::SquaredEuclidean, points, &centers);
        let na = asg.len();
        proof {
            assert(asg@.len() == na as int);
            assert forall|j: int, u: int|
                0 <= j < k && 0 <= u < members(asg@, j).len() implies #[trigger] members(
                asg@,
                j,
            )[u] < points@.len() by {
                crate::engine::lemma_members(asg@, j);
            }
        }
        let buckets = group_by_cluster(&asg, k);
        let updated = mean_update(points, &buckets, &centers);
        proof {
            assert(views(updated@) =~= kmeans_step(psv, views(centers@)));
        }
        let change = Statistics::max_change(&centers, &updated);
        let ghost prev_views = views(centers@);
        centers = updated;
        if (change as i128) <= stop {
            converged = true;
            proof {
                assert(kmeans_iterate(psv, prev_views, stop_spec, (max_iterations - i) as nat)
                    == (views(centers@), 0nat, true));
            }
            break;
        }
        proof {
            let rem = (max_iterations - i) as nat;
            assert(kmeans_iterate(psv, prev_views, stop_spec, rem) == {
                let tail = kmeans_iterate(psv, views(centers@), stop_spec, (rem - 1) as nat);
                (tail.0, (tail.1 + 1) as nat, tail.2)
            });
        }
        i += 1;
    }
    (centers, i, converged)
}

/// The result of a K-Means run: final centers, a total assignment of
/// every point to its nearest final center, the number of full
/// iterations, and whether the run converged within the budget.
#[derive(Debug)]
pub struct KMeans {
    pub assignments: Vec<usize>,
    pub centroids: Vec<Point>,
    pub iterations: usize,
    pub converged: bool,
    pub max_iterations: usize,
}

impl KMeans {
    /// Produces the initial centers for the chosen seeding strategy,
    /// drawing from the given random source. Random seeding copies `k`
    /// uniformly drawn points; k-means++ draws its first center uniformly
    /// and each further one by cumulative-weight sampling; precomputed
    /// seeding validates and copies the caller's centers.
    pub fn initial_centroids(
        points: &Vec<Point>,
        no_clusters: usize,
        init_method: KMeansInitialization,
        precomputed: Option<&Vec<Point>>,
        rng: &mut rand::rngs::StdRng,
    ) -> (r: Result<Vec<Point>, ConfigError>)
        requires
            points@.len() >= 1,
            points@.len() < 0x1_0000_0000_0000_0000,
            equal_dims(points@),
            forall|i: int| 0 <= i < points@.len() ==> (#[trigger] points@[i]).is_valid(),
            1 <= no_clusters <= points@.len(),
        ensures
            match r {
                Ok(cs) => {
                    &&& cs@.len() == no_clusters
                    &&& all_points_valid(cs@, points@[0].spec_dim())
                    &&& (init_method is Precomputed ==> precomputed is Some
                        && precomputed.unwrap()@.len() == no_clusters && views(cs@) == views(
                        precomputed.unwrap()@,
                    ) && (forall|j: int|
                        0 <= j < precomputed.unwrap()@.len() ==> (
                        #[trigger] precomputed.unwrap()@[j]).is_valid()
                            && precomputed.unwrap()@[j].spec_dim() == points@[0].spec_dim()))
                    &&& (init_method is Random ==> exists|idxs: Seq<usize>|
                        #![auto]
                        idxs.len() == no_clusters && (forall|c: int|
                            0 <= c < idxs.len() ==> idxs[c] < points@.len()) && views(cs@)
                            == chosen_views(views(points@), idxs))
                    &&& (init_method is KMeansPlusPlus ==> exists|first: usize, fracs: Seq<u64>|
                        #![auto]
                        first < points@.len() && fracs.len() + 1 == no_clusters && views(cs@)
                            == chosen_views(
                            views(points@),
                            pp_chosen(Metric::SquaredEuclidean, views(points@), first, fracs),
                        ))
                },
                Err(e) => {
                    &&& init_method is Precomputed
                    &&& if precomputed is None || precomputed.unwrap()@.len() != no_clusters {
                        e == ConfigError::PrecomputedCountMismatch
                    } else {
                        e == ConfigError::DimensionMismatch && !(forall|j: int|
                            0 <= j < precomputed.unwrap()@.len() ==> (
                            #[trigger] precomputed.unwrap()@[j]).is_valid()
                                && precomputed.unwrap()@[j].spec_dim() == points@[0].spec_dim())
                    }
                },
            },
    {
        let ghost psv = views(points@);
        match init_method {
            KMeansInitialization::Random => {
                let idxs = random_indices(rng, points.len(), no_clusters);
                let cs = centers_from_indices(points, &idxs);
                proof {
                    assert(views(cs@) =~= chosen_views(psv, idxs@));
                }
                Ok(cs)
            },
            KMeansInitialization::KMeansPlusPlus => {
                let first = rand_index(rng, points.len());
                let mut fracs: Vec<u64> = Vec::new();
                let mut c: usize = 0;
                let steps = no_clusters - 1;
                while c < steps
                    invariant
                        0 <= c <= steps,
                        fracs@.len() == c,
                    decreases steps - c,
                {
                    let f = rand_u64(rng);
                    fracs.push(f);
                    c += 1;
                }
                let idxs = kmeans_pp_seed(Metric::SquaredEuclidean, points, first, &fracs);
                let cs = centers_from_indices(points, &idxs);
                proof {
                    assert(views(cs@) =~= chosen_views(psv, idxs@));
                }
                Ok(cs)
            },
            KMeansInitialization::Precomputed => {
                match precomputed {
                    Some(pc) => {
                        if pc.len() != no_clusters {
                            return Err(ConfigError::PrecomputedCountMismatch);
                        }
                        let d0 = points[0].dim();
                        let mut j: usize = 0;
                        while j < pc.len()
                            invariant
                                0 <= j <= pc@.len(),
                                d0 == points@[0].spec_dim(),
                                points@.len() >= 1,
                                no_clusters == pc@.len(),
                                equal_dims(points@),
                                no_clusters >= 1,
                                no_clusters <= points@.len(),
                                precomputed == Some(pc),
                                init_method is Precomputed,
                                forall|x: int|
                                    0 <= x < j ==> (#[trigger] pc@[x]).is_valid()
                                        && pc@[x].spec_dim() == d0,
                            decreases pc@.len() - j,
                        {
                            let mut this_ok = pc[j].dim() == d0;
                            if this_ok {
                                this_ok = crate::point::check_point_valid(&pc[j]);
                            }
                            if !this_ok {
                                proof {
                                    let pcs = opt_views(precomputed).unwrap();
                                    assert(pcs == pc@);
                                    assert(!((pcs[j as int]).is_valid() && pcs[j as int].spec_dim()
                                        == points@[0].spec_dim()));
                                    assert(!(forall|x: int|
                                        0 <= x < pcs.len() ==> (#[trigger] pcs[x]).is_valid()
                                            && pcs[x].spec_dim() == points@[0].spec_dim()));
                                }
                                return Err(ConfigError::DimensionMismatch);
                            }
                            j += 1;
                        }
                        let mut cs: Vec<Point> = Vec::new();
                        let mut j2: usize = 0;
                        while j2 < pc.len()
                            invariant
                                0 <= j2 <= pc@.len(),
                                cs@.len() == j2,
                                forall|x: int|
                                    0 <= x < pc@.len() ==> (#[trigger] pc@[x]).is_valid()
                                        && pc@[x].spec_dim() == points@[0].spec_dim(),
                                forall|x: int| 0 <= x < j2 ==> #[trigger] cs@[x]@ == pc@[x]@,
                                all_points_valid(cs@, points@[0].spec_dim()),
                            decreases pc@.len() - j2,
                        {
                            let p = crate::point::copy_point(&pc[j2]);
                            cs.push(p);
                            j2 += 1;
                        }
                        proof {
                            assert(views(cs@) =~= views(pc@));
                        }
                        Ok(cs)
                    },
                    None => {
                        return Err(ConfigError::PrecomputedCountMismatch);
                    },
                }
            },
        }
    }

    /// Runs K-Means on the points with the given configuration. The
    /// random source is seeded from `seed`, so equal inputs and equal
    /// seeds reproduce the same result.
    pub fn run(
        points: &Vec<Point>,
        no_clusters: usize,
        max_iterations: usize,
        tolerance: i64,
        init_method: KMeansInitialization,
        precomputed: Option<&Vec<Point>>,
        seed: u64,
    ) -> (r: Result<KMeans, ConfigError>)
        requires
            forall|i: int| 0 <= i < points@.len() ==> (#[trigger] points@[i]).is_valid(),
            points@.len() < 0x1_0000_0000_0000_0000,
        ensures
            match r {
                Ok(out) => {
                    &&& kmeans_config_error(
                        points@,
                        no_clusters as int,
                        max_iterations as int,
                        tolerance as int,
                        init_method,
                        opt_views(precomputed),
                    ) is None
                    &&& out.centroids@.len() == no_clusters
                    &&& all_points_valid(out.centroids@, points@[0].spec_dim())
                    &&& is_assignment(
                        out.assignments@,
                        Metric::SquaredEuclidean,
                        views(points@),
                        views(out.centroids@),
                    )
                    &&& forall|i: int|
                        0 <= i < out.assignments@.len() ==> #[trigger] out.assignments@[i]
                            < no_clusters
                    &&& out.iterations <= max_iterations
                    &&& out.max_iterations == max_iterations
                    &&& (out.converged <==> out.iterations < max_iterations)
                    &&& (init_method is Precomputed ==> kmeans_run_from(
                        views(points@),
                        views(precomputed.unwrap()@),
                        tolerance * tolerance,
                        max_iterations as nat,
                        views(out.centroids@),
                        out.iterations as nat,
                        out.converged,
                    ))
                    &&& (init_method is Random ==> exists|idxs: Seq<usize>|
                        #![auto]
                        idxs.len() == no_clusters && (forall|c: int|
                            0 <= c < idxs.len() ==> idxs[c] < points@.len())
                            && kmeans_run_from(
                            views(points@),
                            chosen_views(views(points@), idxs),
                            tolerance * tolerance,
                            max_iterations as nat,
                            views(out.centroids@),
                            out.iterations as nat,
                            out.converged,
                        ))
                    &&& (init_method is KMeansPlusPlus ==> exists|first: usize, fracs: Seq<u64>|
                        #![auto]
                        first < points@.len() && fracs.len() + 1 == no_clusters
                            && kmeans_run_from(
                            views(points@),
                            chosen_views(
                                views(points@),
                                pp_chosen(
                                    Metric::SquaredEuclidean,
                                    views(points@),
                                    first,
                                    fracs,
                                ),
                            ),
                            tolerance * tolerance,
                            max_iterations as nat,
                            views(out.centroids@),
                            out.iterations as nat,
                            out.converged,
                        ))
                },
                Err(e) => kmeans_config_error(
                    points@,
                    no_clusters as int,
                    max_iterations as int,
                    tolerance as int,
                    init_method,
                    opt_views(precomputed),
                ) == Some(e),
            },
    {
        let ghost psv = views(points@);
        if points.len() == 0 {
            return Err(ConfigError::EmptyPointSet);
        }
        if !check_equal_dims(points) {
            return Err(ConfigError::DimensionMismatch);
        }
        if no_clusters == 0 {
            return Err(ConfigError::ZeroClusters);
        }
        if no_clusters > points.len() {
            return Err(ConfigError::TooManyClusters);
        }
        if max_iterations == 0 {
            return Err(ConfigError::ZeroMaxIterations);
        }
        if tolerance <= 0 {
            return Err(ConfigError::NonPositiveTolerance);
        }
        let ghost dim = points@[0].spec_dim();
        let mut rng = rng_from_seed(seed);
        let initial: Vec<Point> = match Self::initial_centroids(
            points,
            no_clusters,
            init_method,
            precomputed,
            &mut rng,
        ) {
            Ok(cs) => cs,
            Err(e) => {
                return Err(e);
            },
        };
        let ghost init_views = views(initial@);
        let (centroids, iterations, converged) = kmeans_core(
            points,
            initial,
            max_iterations,
            tolerance,
        );
        let assignments = assign_points(Metric::SquaredEuclidean, points, &centroids);
        proof {
            let stop = (tolerance * tolerance) as int;
            let fuel = max_iterations as nat;
            if init_method is Random {
                let idxs = choose|idxs: Seq<usize>|
                    #![auto]
                    idxs.len() == no_clusters && (forall|c: int|
                        0 <= c < idxs.len() ==> idxs[c] < points@.len()) && init_views
                        == chosen_views(psv, idxs);
                assert(kmeans_run_from(
                    psv,
                    chosen_views(psv, idxs),
                    stop,
                    fuel,
                    views(centroids@),
                    iterations as nat,
                    converged,
                ));
            }
            if init_method is KMeansPlusPlus {
                let (first, fracs) = choose|first: usize, fracs: Seq<u64>|
                    #![auto]
                    first < points@.len() && fracs.len() + 1 == no_clusters && init_views
                        == chosen_views(
                        psv,
                        pp_chosen(Metric::SquaredEuclidean, psv, first, fracs),
                    );
                assert(kmeans_run_from(
                    psv,
                    chosen_views(psv, pp_chosen(Metric::SquaredEuclidean, psv, first, fracs)),
                    stop,
                    fuel,
                    views(centroids@),
                    iterations as nat,
                    converged,
                ));
            }
        }
        Ok(
            KMeans {
                assignments,
                centroids,
                iterations,
                converged,
                max_iterations,
            },
        )
    }

    pub fn assignments(&self) -> (r: &Vec<usize>)
        ensures
            r@ == self.assignments@,
    {
        &self.assignments
    }

    pub fn centroids(&self) -> (r: &Vec<Point>)
        ensures
            r@ == self.centroids@,
    {
        &self.centroids
    }

    pub fn converged(&self) -> (r: bool)
        ensures
            r == self.converged,
    {
        self.converged
    }

    pub fn iterations(&self) -> (r: usize)
        ensures
            r == self.iterations,
    {
        self.iterations
    }

    pub fn max_iterations(&self) -> (r: usize)
        ensures
            r == self.max_iterations,
    {
        self.max_iterations
    }
}

} // verus!

verus! {

/// A center list is displaced by zero from itself.
pub proof fn lemma_max_sq_change_self(cs: Seq<Seq<i64>>)
    ensures
        max_sq_change(cs, cs) == 0,
    decreases cs.len(),
{
    if cs.len() == 0 {
    } else {
        lemma_max_sq_change_self(cs.drop_last());
        crate::distance::lemma_metric_zero_iff_eq(
            Metric::SquaredEuclidean,
            cs.last(),
            cs.last(),
        );
    }
}

/// Fixed point: on centers that one more assignment-and-update pass
/// reproduces exactly, the engine loop stops at once, converged, with
/// those very centers and zero completed iterations — no drift. Centers
/// that merely met a positive tolerance need not be exact fixed points;
/// this law speaks of centers the update no longer moves.
pub proof fn lemma_kmeans_fixed_point(ps: Seq<Seq<i64>>, cs: Seq<Seq<i64>>, stop: int, fuel: nat)
    requires
        kmeans_step(ps, cs) == cs,
        stop >= 0,
        fuel >= 1,
    ensures
        kmeans_iterate(ps, cs, stop, fuel) == (cs, 0nat, true),
{
    lemma_max_sq_change_self(cs);
}

/// The identity assignment arises when every point is its own center:
/// each distinct point is nearest to itself.
pub proof fn lemma_self_assignment(ps: Seq<Seq<i64>>, d: nat)
    requires
        forall|i: int| 0 <= i < ps.len() ==> (#[trigger] ps[i]).len() == d,
        forall|i: int, j: int| 0 <= i < j < ps.len() ==> #[trigger] ps[i] != #[trigger] ps[j],
    ensures
        forall|i: int|
            0 <= i < ps.len() ==> #[trigger] nearest(Metric::SquaredEuclidean, ps[i], ps) == i,
{
    let m = Metric::SquaredEuclidean;
    assert forall|i: int| 0 <= i < ps.len() implies #[trigger] nearest(m, ps[i], ps) == i by {
        lemma_nearest(m, ps[i], ps);
        let nu = nearest(m, ps[i], ps);
        crate::distance::lemma_metric_zero_iff_eq(m, ps[i], ps[i]);
        crate::distance::lemma_metric_nonneg(m, ps[i], ps[nu]);
        assert(metric_dist(m, ps[i], ps[nu]) <= metric_dist(m, ps[i], ps[i]));
        crate::distance::lemma_metric_zero_iff_eq(m, ps[i], ps[nu]);
        assert(ps[i] == ps[nu]);
        if nu < i {
            assert(ps[nu] != ps[i]);
        } else if nu > i {
            assert(ps[i] != ps[nu]);
        }
    }
}

/// With the identity assignment, cluster `j` holds exactly point `j`.
pub proof fn lemma_identity_members(asg: Seq<usize>, j: int, n: int)
    requires
        0 <= n <= asg.len(),
        asg.len() <= usize::MAX,
        forall|i: int| 0 <= i < asg.len() ==> #[trigger] asg[i] as int == i,
    ensures
        members(asg.take(n), j) == if 0 <= j < n {
            seq![j as usize]
        } else {
            Seq::<usize>::empty()
        },
    decreases n,
{
    if n <= 0 {
        assert(asg.take(n) =~= Seq::<usize>::empty());
        if 0 <= j < n {
        } else {
            assert(members(asg.take(n), j) =~= Seq::<usize>::empty());
        }
    } else {
        lemma_identity_members(asg, j, n - 1);
        assert(asg.take(n).drop_last() =~= asg.take(n - 1));
        assert(asg.take(n).last() == asg[n - 1]);
        if j == n - 1 {
            assert(members(asg.take(n), j) =~= Seq::<usize>::empty() + seq![j as usize]);
            assert(members(asg.take(n), j) =~= seq![j as usize]);
        } else if 0 <= j < n - 1 {
            assert(members(asg.take(n), j) =~= seq![j as usize]);
        } else {
            assert(members(asg.take(n), j) =~= Seq::<usize>::empty());
        }
    }
}

/// A singleton cluster's mean is its one member.
pub proof fn lemma_singleton_mean(ps: Seq<Seq<i64>>, j: int, old: Seq<i64>, d: nat)
    requires
        0 <= j < ps.len(),
        j <= usize::MAX,
        ps[j].len() == d,
        old.len() == d,
    ensures
        mean_center(ps, seq![j as usize], old) == ps[j],
{
    let mem = seq![j as usize];
    assert(mem.drop_last() =~= Seq::<usize>::empty());
    assert forall|t: int| 0 <= t < d implies mean_center(ps, mem, old)[t] == ps[j][t] by {
        assert(mem.len() == 1);
        assert(mem.last() == j as usize);
        assert((j as usize) as int == j);
        assert(mem.drop_last() =~= Seq::<usize>::empty());
        assert(member_dim_sum(ps, mem.drop_last(), t) == 0);
        assert(member_dim_sum(ps, mem, t) == ps[j][t]);
        let v = ps[j][t] as int;
        vstd::arithmetic::div_mod::lemma_fundamental_div_mod_converse(2 * v + 1, 2, v, 1);
        assert(crate::arith::round_div(v, 1) == v);
    }
    assert(mean_center(ps, mem, old) =~= ps[j]);
}

/// Boundary: with as many clusters as points and every distinct point its
/// own initial center, the mean rule converges in zero completed
/// iterations, every point is its own singleton cluster, and the total
/// inertia is zero.
pub proof fn lemma_kmeans_boundary(ps: Seq<Seq<i64>>, d: nat, stop: int, fuel: nat)
    requires
        1 <= ps.len() <= usize::MAX,
        forall|i: int| 0 <= i < ps.len() ==> (#[trigger] ps[i]).len() == d,
        forall|i: int, j: int| 0 <= i < j < ps.len() ==> #[trigger] ps[i] != #[trigger] ps[j],
        stop >= 0,
        fuel >= 1,
    ensures
        kmeans_iterate(ps, ps, stop, fuel) == (ps, 0nat, true),
        forall|i: int|
            0 <= i < ps.len() ==> #[trigger] assignment_of(
                Metric::SquaredEuclidean,
                ps,
                ps,
            )[i] as int == i,
        crate::engine::inertia(Metric::SquaredEuclidean, ps, ps) == 0,
{
    let m = Metric::SquaredEuclidean;
    let asg = assignment_of(m, ps, ps);
    lemma_self_assignment(ps, d);
    assert forall|i: int| 0 <= i < ps.len() implies #[trigger] asg[i] as int == i by {
        lemma_nearest(m, ps[i], ps);
    }
    assert forall|j: int| 0 <= j < ps.len() implies #[trigger] kmeans_step(ps, ps)[j] == ps[j] by {
        lemma_identity_members(asg, j, asg.len() as int);
        assert(asg.take(asg.len() as int) =~= asg);
        assert(members(asg, j) == seq![j as usize]);
        lemma_singleton_mean(ps, j, ps[j], d);
    }
    assert(kmeans_step(ps, ps) =~= ps);
    lemma_kmeans_fixed_point(ps, ps, stop, fuel);
    lemma_inertia_zero_when_self(ps, ps.len() as int);
}

/// Every point at distance zero from its nearest center contributes
/// nothing: with the points as centers, the inertia vanishes.
pub proof fn lemma_inertia_zero_when_self(ps: Seq<Seq<i64>>, n: int)
    requires
        0 <= n <= ps.len(),
        ps.len() >= 1,
        forall|i: int, j: int|
            0 <= i < ps.len() && 0 <= j < ps.len() ==> (#[trigger] ps[i]).len() == (
            #[trigger] ps[j]).len(),
    ensures
        crate::engine::inertia_upto(Metric::SquaredEuclidean, ps, ps, n) == 0,
    decreases n,
{
    let m = Metric::SquaredEuclidean;
    if n <= 0 {
    } else {
        lemma_inertia_zero_when_self(ps, n - 1);
        lemma_nearest(m, ps[n - 1], ps);
        let nu = nearest(m, ps[n - 1], ps);
        crate::distance::lemma_metric_zero_iff_eq(m, ps[n - 1], ps[n - 1]);
        crate::distance::lemma_metric_nonneg(m, ps[n - 1], ps[nu]);
        assert(metric_dist(m, ps[n - 1], ps[nu]) <= metric_dist(m, ps[n - 1], ps[n - 1]));
    }
}

} // verus!

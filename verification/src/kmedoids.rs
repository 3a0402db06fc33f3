//! K-Medoids: the medoid-rule instance of the iterative clustering
//! engine.
//!
//! A center is always the index of an existing input point, never a
//! synthetic value. Each iteration labels every point with its nearest
//! medoid under the Manhattan metric; the run has converged when the
//! assignment repeats the previous round's exactly. Otherwise each
//! cluster's medoid is replaced by the member with the least total
//! intra-cluster cost, if that member is strictly cheaper.

use vstd::prelude::*;
use crate::point::{Point, views, all_points_valid};
use crate::config::{ConfigError, equal_dims, check_equal_dims};
use crate::distance::Metric;
use crate::engine::{assignment_of, assign_points, group_by_cluster, members};
use crate::update::{medoid_center, medoid_update};
use crate::seeding::{chosen_views, kmeans_pp_seed, random_indices, centers_from_indices};
use crate::random::{rng_from_seed, rand_index, rand_u64};

verus! {

/// How the initial medoids are chosen.
#[derive(Clone, Copy, Debug, PartialEq, Eq, Structural)]
pub enum KMedoidsInitialization {
    Random,
    KMeansPlusPlus,
    Precomputed,
}

/// The first configuration fault a K-Medoids run would hit, if any.
/// This run form takes no precomputed centers, so precomputed seeding
/// always lacks its `k` centers.
pub open spec fn kmedoids_config_error(
    points: Seq<Point>,
    no_clusters: int,
    max_iterations: int,
    init_method: KMedoidsInitialization,
) -> Option<ConfigError> {
    if points.len() == 0 {
        Some(ConfigError::EmptyPointSet)
    } else if !equal_dims(points) {
        Some(ConfigError::DimensionMismatch)
    } else if no_clusters == 0 {
        Some(ConfigError::ZeroClusters)
    } else if no_clusters > points.len() {
        Some(ConfigError::TooManyClusters)
    } else if max_iterations == 0 {
        Some(ConfigError::ZeroMaxIterations)
    } else if init_method is Precomputed {
        Some(ConfigError::PrecomputedCountMismatch)
    } else {
        None
    }
}

/// The assignment of every point to its nearest medoid, under Manhattan
/// distance.
pub open spec fn kmedoids_assignment(ps: Seq<Seq<i64>>, meds: Seq<usize>) -> Seq<usize> {
    assignment_of(Metric::Manhattan, ps, chosen_views(ps, meds))
}

/// One medoid update pass over all clusters.
pub open spec fn kmedoids_step(ps: Seq<Seq<i64>>, meds: Seq<usize>, asg: Seq<usize>) -> Seq<
    usize,
> {
    Seq::new(meds.len(), |j: int| medoid_center(Metric::Manhattan, ps, members(asg, j), meds[j]))
}

/// The medoid engine loop: assign, stop once the assignment repeats the
/// previous round's, otherwise update the medoids and continue. Yields
/// the final medoids, the last computed assignment, the number of full
/// iterations, and whether the loop exited through the repeat test.
pub open spec fn kmedoids_iterate(
    ps: Seq<Seq<i64>>,
    meds: Seq<usize>,
    prev: Seq<usize>,
    fuel: nat,
) -> (Seq<usize>, Seq<usize>, nat, bool)
    decreases fuel,
{
    if fuel == 0 {
        (meds, prev, 0nat, false)
    } else {
        let asg = kmedoids_assignment(ps, meds);
        if asg == prev {
            (meds, asg, 0nat, true)
        } else {
            let next = kmedoids_step(ps, meds, asg);
            let tail = kmedoids_iterate(ps, next, asg, (fuel - 1) as nat);
            (tail.0, tail.1, (tail.2 + 1) as nat, tail.3)
        }
    }
}

/// A converged medoid run's assignment is exactly the nearest-medoid
/// assignment of its final medoids.
pub proof fn lemma_kmedoids_iterate_converged(
    ps: Seq<Seq<i64>>,
    meds: Seq<usize>,
    prev: Seq<usize>,
    fuel: nat,
)
    ensures
        ({
            let r = kmedoids_iterate(ps, meds, prev, fuel);
            r.3 ==> r.1 == kmedoids_assignment(ps, r.0)
        }),
    decreases fuel,
{
    if fuel == 0 {
    } else {
        let asg = kmedoids_assignment(ps, meds);
        if asg == prev {
        } else {
            lemma_kmedoids_iterate_converged(ps, kmedoids_step(ps, meds, asg), asg, (fuel
                - 1) as nat);
        }
    }
}

/// Compares two index vectors.
pub fn vecs_equal(a: &Vec<usize>, b: &Vec<usize>) -> (r: bool)
    ensures
        r == (a@ == b@),
{
    let n = a.len();
    if n != b.len() {
        return false;
    }
    let mut i: usize = 0;
    while i < n
        invariant
            n == a@.len() == b@.len(),
            0 <= i <= n,
            forall|j: int| 0 <= j < i ==> a@[j] == b@[j],
        decreases n - i,
    {
        if a[i] != b[i] {
            return false;
        }
        i += 1;
    }
    proof {
        assert(a@ =~= b@);
    }
    true
}

/// The result of a K-Medoids run: the final medoids (as input points and
/// as indices), the last computed assignment, the number of full
/// iterations, and whether the run converged within the budget.
#[derive(Debug)]
pub struct KMedoids {
    pub assignments: Vec<usize>,
    pub centroids: Vec<Point>,
    pub medoids: Vec<usize>,
    pub iterations: usize,
    pub converged: bool,
    pub max_iterations: usize,
}

/// Runs the medoid engine loop from the given initial medoid indices,
/// returning the final medoids, the last computed assignment, the
/// iteration count and the convergence flag.
pub fn kmedoids_core(points: &Vec<Point>, initial: Vec<usize>, max_iterations: usize) -> (r: (
    Vec<usize>,
    Vec<usize>,
    usize,
    bool,
))
    requires
        points@.len() >= 1,
        points@.len() < 0x1_0000_0000_0000_0000,
        all_points_valid(points@, points@[0].spec_dim()),
        initial@.len() >= 1,
        forall|j: int| 0 <= j < initial@.len() ==> #[trigger] initial@[j] < points@.len(),
        max_iterations >= 1,
    ensures
        ({
            let full = kmedoids_iterate(
                views(points@),
                initial@,
                Seq::<usize>::empty(),
                max_iterations as nat,
            );
            &&& r.0@ == full.0
            &&& r.1@ == full.1
            &&& r.2 as nat == full.2
            &&& r.3 == full.3
        }),
        r.0@.len() == initial@.len(),
        forall|j: int| 0 <= j < r.0@.len() ==> #[trigger] r.0@[j] < points@.len(),
        r.1@.len() == points@.len(),
        forall|i: int| 0 <= i < r.1@.len() ==> #[trigger] r.1@[i] < initial@.len(),
        r.2 <= max_iterations,
        r.3 <==> (r.2 < max_iterations),
{
    let ghost psv = views(points@);
    let ghost dim = points@[0].spec_dim();
    let ghost full = kmedoids_iterate(psv, initial@, Seq::<usize>::empty(), max_iterations as nat);
    let k = initial.len();
    let n = points.len();
    let mut medoids = initial;
    let mut prev: Vec<usize> = Vec::new();
    let mut i: usize = 0;
    let mut converged = false;
    proof {
        assert(prev@ =~= Seq::<usize>::empty());
    }
    while i < max_iterations
        invariant_except_break
            psv == views(points@),
            dim == points@[0].spec_dim(),
            1 <= n == points@.len() < 0x1_0000_0000_0000_0000,
            all_points_valid(points@, dim),
            medoids@.len() == k,
            k >= 1,
            forall|j: int| 0 <= j < medoids@.len() ==> #[trigger] medoids@[j] < points@.len(),
            kmedoids_iterate(psv, medoids@, prev@, (max_iterations - i) as nat) == (
                full.0,
                full.1,
                (full.2 - i) as nat,
                full.3,
            ),
            !converged,
            max_iterations >= 1,
            0 <= i <= max_iterations,
            i <= full.2,
            i == 0 ==> prev@ == Seq::<usize>::empty(),
            i > 0 ==> prev@.len() == points@.len() && (forall|x: int|
                0 <= x < prev@.len() ==> #[trigger] prev@[x] < k),
        ensures
            psv == views(points@),
            medoids@.len() == k,
            forall|j: int| 0 <= j < medoids@.len() ==> #[trigger] medoids@[j] < points@.len(),
            medoids@ == full.0,
            prev@ == full.1,
            i as nat == full.2,
            converged == full.3,
            i <= max_iterations,
            converged <==> (i < max_iterations),
            prev@.len() == points@.len(),
            forall|x: int| 0 <= x < prev@.len() ==> #[trigger] prev@[x] < k,
        decreases max_iterations - i,
    {
        let ghost old_prev = prev@;
        let ghost old_meds = medoids@;
        let centers = centers_from_indices(points, &medoids);
        proof {
            assert(views(centers@) =~= chosen_views(psv, medoids@));
        }
        let asg = assign_points(Metric::Manhattan, points, &centers);
        let na = asg.len();
        proof {
            assert(asg@.len() == na as int);
            assert(asg@ == kmedoids_assignment(psv, medoids@));
        }
        let equal = vecs_equal(&asg, &prev);
        prev = asg;
        if equal {
            converged = true;
            proof {
                assert(kmedoids_iterate(psv, medoids@, old_prev, (max_iterations - i) as nat)
                    == (medoids@, prev@, 0nat, true));
            }
            break;
        }
        let buckets = group_by_cluster(&prev, k);
        proof {
            assert forall|j: int, u: int|
                0 <= j < k && 0 <= u < members(prev@, j).len() implies #[trigger] members(
                prev@,
                j,
            )[u] < points@.len() by {
                crate::engine::lemma_members(prev@, j);
            }
        }
        let updated = medoid_update(Metric::Manhattan, points, &buckets, &medoids);
        medoids = updated;
        proof {
            assert(medoids@ =~= kmedoids_step(psv, old_meds, prev@));
            let rem = (max_iterations - i) as nat;
            assert(kmedoids_iterate(psv, old_meds, old_prev, rem) == {
                let tail = kmedoids_iterate(psv, medoids@, prev@, (rem - 1) as nat);
                (tail.0, tail.1, (tail.2 + 1) as nat, tail.3)
            });
        }
        i += 1;
    }
    (medoids, prev, i, converged)
}

impl KMedoids {
    /// Runs K-Medoids on the points with the given configuration. The
    /// random source is seeded from `seed`, so equal inputs and equal
    /// seeds reproduce the same result.
    pub fn run(
        points: &Vec<Point>,
        no_clusters: usize,
        max_iterations: usize,
        init_method: KMedoidsInitialization,
        seed: u64,
    ) -> (r: Result<KMedoids, ConfigError>)
        requires
            forall|i: int| 0 <= i < points@.len() ==> (#[trigger] points@[i]).is_valid(),
            points@.len() < 0x1_0000_0000_0000_0000,
        ensures
            match r {
                Ok(out) => {
                    &&& kmedoids_config_error(
                        points@,
                        no_clusters as int,
                        max_iterations as int,
                        init_method,
                    ) is None
                    &&& out.medoids@.len() == no_clusters
                    &&& out.centroids@.len() == no_clusters
                    &&& forall|j: int|
                        0 <= j < out.medoids@.len() ==> #[trigger] out.medoids@[j]
                            < points@.len()
                    &&& forall|j: int|
                        0 <= j < out.centroids@.len() ==> #[trigger] out.centroids@[j]@
                            == views(points@)[out.medoids@[j] as int]
                    &&& out.assignments@.len() == points@.len()
                    &&& forall|i: int|
                        0 <= i < out.assignments@.len() ==> #[trigger] out.assignments@[i]
                            < no_clusters
                    &&& out.iterations <= max_iterations
                    &&& out.max_iterations == max_iterations
                    &&& (out.converged <==> out.iterations < max_iterations)
                    &&& (out.converged ==> out.assignments@ == kmedoids_assignment(
                        views(points@),
                        out.medoids@,
                    ))
                    &&& exists|init: Seq<usize>|
                        #![auto]
                        init.len() == no_clusters && (forall|c: int|
                            0 <= c < init.len() ==> init[c] < points@.len()) && ({
                            let full = kmedoids_iterate(
                                views(points@),
                                init,
                                Seq::<usize>::empty(),
                                max_iterations as nat,
                            );
                            out.medoids@ == full.0 && out.assignments@ == full.1
                                && out.iterations as nat == full.2 && out.converged == full.3
                        })
                },
                Err(e) => kmedoids_config_error(
                    points@,
                    no_clusters as int,
                    max_iterations as int,
                    init_method,
                ) == Some(e),
            },
    {
        let ghost psv = views(points@);
        if points.len() == 0 {
            return Err(ConfigError::EmptyPointSet);
        }
        if !check_equal_dims(points) {
            return Err(ConfigError::DimensionMismatch);
        }
        if no_clusters == 0 {
            return Err(ConfigError::ZeroClusters);
        }
        if no_clusters > points.len() {
            return Err(ConfigError::TooManyClusters);
        }
        if max_iterations == 0 {
            return Err(ConfigError::ZeroMaxIterations);
        }
        let mut rng = rng_from_seed(seed);
        let initial: Vec<usize> = match init_method {
            KMedoidsInitialization::Random => random_indices(&mut rng, points.len(), no_clusters),
            KMedoidsInitialization::KMeansPlusPlus => {
                let first = rand_index(&mut rng, points.len());
                let mut fracs: Vec<u64> = Vec::new();
                let mut c: usize = 0;
                let steps = no_clusters - 1;
                while c < steps
                    invariant
                        0 <= c <= steps,
                        fracs@.len() == c,
                    decreases steps - c,
                {
                    let f = rand_u64(&mut rng);
                    fracs.push(f);
                    c += 1;
                }
                kmeans_pp_seed(Metric::Manhattan, points, first, &fracs)
            },
            KMedoidsInitialization::Precomputed => {
                return Err(ConfigError::PrecomputedCountMismatch);
            },
        };
        let ghost init0 = initial@;
        let (medoids, assignments, iterations, converged) = kmedoids_core(
            points,
            initial,
            max_iterations,
        );
        let centroids = centers_from_indices(points, &medoids);
        proof {
            lemma_kmedoids_iterate_converged(
                psv,
                init0,
                Seq::<usize>::empty(),
                max_iterations as nat,
            );
        }
        Ok(
            KMedoids {
                assignments,
                centroids,
                medoids,
                iterations,
                converged,
                max_iterations,
            },
        )
    }
}

} // verus!

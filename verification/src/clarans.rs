//! CLARANS: randomized medoid search.
//!
//! Each of `num_local` restarts draws a distinct random medoid set and
//! then walks the neighborhood graph: a random medoid slot and a random
//! non-medoid candidate form a trial swap, which is accepted only when it
//! lowers the total cost by more than one unit. After `max_neighbor`
//! consecutive rejected swaps the restart stops; the cheapest restart
//! wins.

use vstd::prelude::*;
use crate::point::{Point, views, all_points_valid};
use crate::config::{ConfigError, equal_dims, check_equal_dims};
use crate::distance::Metric;
use crate::engine::{assign_points, is_assignment, inertia, total_inertia};
use crate::seeding::{chosen_views, centers_from_indices};
use crate::random::{rng_from_seed, rand_index};

verus! {

/// No two medoid slots name the same input point.
pub open spec fn distinct_indices(meds: Seq<usize>) -> bool {
    forall|a: int, b: int| 0 <= a < b < meds.len() ==> #[trigger] meds[a] != #[trigger] meds[b]
}

/// How many entries of the mask are set.
pub open spec fn count_true(s: Seq<bool>) -> int
    decreases s.len(),
{
    if s.len() == 0 {
        0
    } else {
        count_true(s.drop_last()) + if s.last() {
            1int
        } else {
            0int
        }
    }
}

/// Setting one mask entry raises the count by at most one.
pub proof fn lemma_count_true_update(s: Seq<bool>, i: int)
    requires
        0 <= i < s.len(),
    ensures
        count_true(s.update(i, true)) <= count_true(s) + 1,
    decreases s.len(),
{
    if s.len() == 0 {
    } else if i == s.len() - 1 {
        assert(s.update(i, true).drop_last() =~= s.drop_last());
    } else {
        assert(s.update(i, true).drop_last() =~= s.drop_last().update(i, true));
        lemma_count_true_update(s.drop_last(), i);
    }
}

/// A mask whose entries are all set has full count.
pub proof fn lemma_count_true_full(s: Seq<bool>)
    requires
        forall|x: int| 0 <= x < s.len() ==> #[trigger] s[x],
    ensures
        count_true(s) == s.len(),
    decreases s.len(),
{
    if s.len() == 0 {
    } else {
        lemma_count_true_full(s.drop_last());
    }
}

/// Whether the index list contains `x`.
pub fn contains_index(v: &Vec<usize>, x: usize) -> (r: bool)
    ensures
        r == v@.contains(x),
{
    let n = v.len();
    let mut i: usize = 0;
    while i < n
        invariant
            n == v@.len(),
            0 <= i <= n,
            forall|j: int| 0 <= j < i ==> v@[j] != x,
        decreases n - i,
    {
        if v[i] == x {
            return true;
        }
        i += 1;
    }
    proof {
        assert(!v@.contains(x));
    }
    false
}

/// The smallest input index that is not a current medoid. Fewer medoids
/// than points guarantees one exists.
pub fn first_unused(meds: &Vec<usize>, n: usize) -> (r: usize)
    requires
        meds@.len() < n,
        forall|j: int| 0 <= j < meds@.len() ==> #[trigger] meds@[j] < n,
    ensures
        r < n,
        !meds@.contains(r),
{
    let k = meds.len();
    let mut seen: Vec<bool> = Vec::new();
    let mut i: usize = 0;
    while i < n
        invariant
            0 <= i <= n,
            seen@.len() == i,
            forall|x: int| 0 <= x < i ==> !(#[trigger] seen@[x]),
            count_true(seen@) == 0,
        decreases n - i,
    {
        let ghost olds = seen@;
        seen.push(false);
        proof {
            assert(seen@.drop_last() =~= olds);
        }
        i += 1;
    }
    let mut j: usize = 0;
    while j < k
        invariant
            k == meds@.len(),
            k < n,
            forall|x: int| 0 <= x < meds@.len() ==> #[trigger] meds@[x] < n,
            seen@.len() == n,
            0 <= j <= k,
            count_true(seen@) <= j,
            forall|x: int|
                0 <= x < n && !(#[trigger] seen@[x]) ==> !meds@.take(j as int).contains(
                    x as usize,
                ),
        decreases k - j,
    {
        let ghost old_seen = seen@;
        let m = meds[j];
        seen[m] = true;
        proof {
            lemma_count_true_update(old_seen, m as int);
            assert forall|x: int|
                0 <= x < n && !(#[trigger] seen@[x]) implies !meds@.take(j + 1).contains(
                x as usize,
            ) by {
                assert(old_seen[x] == false);
                assert(!meds@.take(j as int).contains(x as usize));
                assert(x != m as int);
                assert forall|w: int|
                    0 <= w < j + 1 implies #[trigger] meds@.take(j + 1)[w] != x as usize by {
                    if w < j {
                        assert(meds@.take(j as int)[w] == meds@.take(j + 1)[w]);
                        assert(!(meds@.take(j as int)[w] == x as usize));
                    } else {
                        assert(meds@.take(j + 1)[w] == meds@[j as int]);
                    }
                }
            }
        }
        j += 1;
    }
    proof {
        assert(meds@.take(k as int) =~= meds@);
    }
    let mut r: usize = 0;
    while r < n
        invariant
            seen@.len() == n,
            k == meds@.len(),
            k < n,
            count_true(seen@) <= k,
            forall|x: int|
                0 <= x < n && !(#[trigger] seen@[x]) ==> !meds@.contains(x as usize),
            0 <= r <= n,
            forall|x: int| 0 <= x < r ==> #[trigger] seen@[x],
        decreases n - r,
    {
        if !seen[r] {
            return r;
        }
        r += 1;
    }
    proof {
        lemma_count_true_full(seen@);
        assert(false);
    }
    0
}

/// Draws `k` distinct point indices: uniform draws, with a deterministic
/// fall-back to the smallest unused index when a draw repeats.
pub fn distinct_random_indices(rng: &mut rand::rngs::StdRng, n: usize, k: usize) -> (idxs: Vec<
    usize,
>)
    requires
        1 <= k <= n,
    ensures
        idxs@.len() == k,
        forall|c: int| 0 <= c < idxs@.len() ==> #[trigger] idxs@[c] < n,
        distinct_indices(idxs@),
{
    let mut idxs: Vec<usize> = Vec::new();
    let mut c: usize = 0;
    while c < k
        invariant
            1 <= k <= n,
            0 <= c <= k,
            idxs@.len() == c,
            forall|x: int| 0 <= x < idxs@.len() ==> #[trigger] idxs@[x] < n,
            distinct_indices(idxs@),
        decreases k - c,
    {
        let mut cand = rand_index(rng, n);
        if contains_index(&idxs, cand) {
            cand = first_unused(&idxs, n);
        }
        proof {
            assert(!idxs@.contains(cand));
        }
        idxs.push(cand);
        proof {
            assert forall|a: int, b: int|
                0 <= a < b < idxs@.len() implies #[trigger] idxs@[a] != #[trigger] idxs@[b] by {
                if b == idxs@.len() - 1 {
                    assert(idxs@.drop_last()[a] == idxs@[a]);
                    assert(idxs@.drop_last().contains(idxs@[a]));
                }
            }
        }
        c += 1;
    }
    idxs
}

/// The result of a CLARANS run: the cheapest medoid set any restart
/// reached, its point coordinates, and the assignment of every point to
/// its nearest medoid.
#[derive(Debug)]
pub struct Clarans {
    pub assignments: Vec<usize>,
    pub centroids: Vec<Point>,
    pub medoids: Vec<usize>,
    pub iterations: usize,
    pub converged: bool,
}

/// The first configuration fault a CLARANS run would hit, if any.
pub open spec fn clarans_config_error(
    points: Seq<Point>,
    no_clusters: int,
    num_local: int,
) -> Option<ConfigError> {
    if points.len() == 0 {
        Some(ConfigError::EmptyPointSet)
    } else if !equal_dims(points) {
        Some(ConfigError::DimensionMismatch)
    } else if no_clusters == 0 {
        Some(ConfigError::ZeroClusters)
    } else if no_clusters > points.len() {
        Some(ConfigError::TooManyClusters)
    } else if num_local == 0 {
        Some(ConfigError::ZeroLocalSearches)
    } else {
        None
    }
}

/// One CLARANS restart: a random distinct medoid set improved by random
/// neighbor swaps until `max_neighbor` consecutive candidates fail to
/// beat the current cost by more than one unit. Returns the medoids and
/// their total cost.
fn clarans_search(
    rng: &mut rand::rngs::StdRng,
    points: &Vec<Point>,
    no_clusters: usize,
    max_neighbor: usize,
) -> (r: (Vec<usize>, u128))
    requires
        points@.len() >= 1,
        points@.len() < 0x1_0000_0000_0000_0000,
        all_points_valid(points@, points@[0].spec_dim()),
        1 <= no_clusters <= points@.len(),
    ensures
        r.0@.len() == no_clusters,
        forall|c: int| 0 <= c < r.0@.len() ==> #[trigger] r.0@[c] < points@.len(),
        distinct_indices(r.0@),
        r.1 == inertia(
            Metric::SquaredEuclidean,
            views(points@),
            chosen_views(views(points@), r.0@),
        ),
{
    let ghost psv = views(points@);
    let ghost dim = points@[0].spec_dim();
    let n = points.len();
    let k = no_clusters;
    let mut medoids = distinct_random_indices(rng, n, k);
    let centers = centers_from_indices(points, &medoids);
    proof {
        assert(views(centers@) =~= chosen_views(psv, medoids@));
    }
    let mut current_cost = total_inertia(Metric::SquaredEuclidean, points, &centers);
    if k == n {
        return (medoids, current_cost);
    }
    let mut neighbor: usize = 0;
    while neighbor < max_neighbor
        invariant
            psv == views(points@),
            dim == points@[0].spec_dim(),
            1 <= n == points@.len() < 0x1_0000_0000_0000_0000,
            all_points_valid(points@, dim),
            1 <= k < n,
            medoids@.len() == k,
            forall|c: int| 0 <= c < medoids@.len() ==> #[trigger] medoids@[c] < n,
            distinct_indices(medoids@),
            current_cost == inertia(
                Metric::SquaredEuclidean,
                psv,
                chosen_views(psv, medoids@),
            ),
            0 <= neighbor <= max_neighbor,
        decreases current_cost, max_neighbor - neighbor,
    {
        let slot = rand_index(rng, k);
        let mut cand = rand_index(rng, n);
        if contains_index(&medoids, cand) {
            cand = first_unused(&medoids, n);
        }
        proof {
            assert(!medoids@.contains(cand));
        }
        let mut trial = crate::point::copy_indices(&medoids);
        trial[slot] = cand;
        proof {
            assert forall|a: int, b: int|
                0 <= a < b < trial@.len() implies #[trigger] trial@[a] != #[trigger] trial@[b] by {
                if a != slot as int && b != slot as int {
                    assert(trial@[a] == medoids@[a] && trial@[b] == medoids@[b]);
                } else if a == slot as int {
                    assert(trial@[b] == medoids@[b]);
                    assert(medoids@.contains(medoids@[b]));
                } else {
                    assert(trial@[a] == medoids@[a]);
                    assert(medoids@.contains(medoids@[a]));
                }
            }
        }
        let trial_centers = centers_from_indices(points, &trial);
        proof {
            assert(views(trial_centers@) =~= chosen_views(psv, trial@));
        }
        let trial_cost = total_inertia(Metric::SquaredEuclidean, points, &trial_centers);
        if trial_cost < current_cost && current_cost - trial_cost > 1 {
            medoids = trial;
            current_cost = trial_cost;
            neighbor = 0;
        } else {
            neighbor += 1;
        }
    }
    (medoids, current_cost)
}

impl Clarans {
    /// Runs CLARANS on the points: `num_local` random restarts, each
    /// improved by at most `max_neighbor` consecutive failed swaps, with
    /// the cheapest final medoid set kept. The random source is seeded
    /// from `seed`, so equal inputs and equal seeds reproduce the same
    /// result.
    pub fn run(
        points: &Vec<Point>,
        no_clusters: usize,
        num_local: usize,
        max_neighbor: usize,
        seed: u64,
    ) -> (r: Result<Clarans, ConfigError>)
        requires
            forall|i: int| 0 <= i < points@.len() ==> (#[trigger] points@[i]).is_valid(),
            points@.len() < 0x1_0000_0000_0000_0000,
        ensures
            match r {
                Ok(out) => {
                    &&& clarans_config_error(
                        points@,
                        no_clusters as int,
                        num_local as int,
                    ) is None
                    &&& out.medoids@.len() == no_clusters
                    &&& out.centroids@.len() == no_clusters
                    &&& distinct_indices(out.medoids@)
                    &&& forall|j: int|
                        0 <= j < out.medoids@.len() ==> #[trigger] out.medoids@[j]
                            < points@.len()
                    &&& forall|j: int|
                        0 <= j < out.centroids@.len() ==> #[trigger] out.centroids@[j]@
                            == views(points@)[out.medoids@[j] as int]
                    &&& is_assignment(
                        out.assignments@,
                        Metric::SquaredEuclidean,
                        views(points@),
                        views(out.centroids@),
                    )
                    &&& forall|i: int|
                        0 <= i < out.assignments@.len() ==> #[trigger] out.assignments@[i]
                            < no_clusters
                    &&& out.iterations == 0
                    &&& out.converged
                },
                Err(e) => clarans_config_error(
                    points@,
                    no_clusters as int,
                    num_local as int,
                ) == Some(e),
            },
    {
        let ghost psv = views(points@);
        if points.len() == 0 {
            return Err(ConfigError::EmptyPointSet);
        }
        if !check_equal_dims(points) {
            return Err(ConfigError::DimensionMismatch);
        }
        if no_clusters == 0 {
            return Err(ConfigError::ZeroClusters);
        }
        if no_clusters > points.len() {
            return Err(ConfigError::TooManyClusters);
        }
        if num_local == 0 {
            return Err(ConfigError::ZeroLocalSearches);
        }
        let ghost dim = points@[0].spec_dim();
        let mut rng = rng_from_seed(seed);
        let (mut best, mut best_cost) = clarans_search(&mut rng, points, no_clusters, max_neighbor);
        let mut restart: usize = 1;
        while restart < num_local
            invariant
                psv == views(points@),
                dim == points@[0].spec_dim(),
                1 <= points@.len() < 0x1_0000_0000_0000_0000,
                all_points_valid(points@, dim),
                1 <= no_clusters <= points@.len(),
                1 <= restart <= num_local,
                best@.len() == no_clusters,
                forall|c: int| 0 <= c < best@.len() ==> #[trigger] best@[c] < points@.len(),
                distinct_indices(best@),
            decreases num_local - restart,
        {
            let (meds, cost) = clarans_search(&mut rng, points, no_clusters, max_neighbor);
            if cost < best_cost {
                best = meds;
                best_cost = cost;
            }
            restart += 1;
        }
        let centroids = centers_from_indices(points, &best);
        let assignments = assign_points(Metric::SquaredEuclidean, points, &centroids);
        Ok(
            Clarans {
                assignments,
                centroids,
                medoids: best,
                iterations: 0,
                converged: true,
            },
        )
    }
}

} // verus!

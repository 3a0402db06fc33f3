//! Seeding: the initial centers drawn before the iterative loop begins.
//!
//! Random seeding draws `k` point indices uniformly with replacement.
//! K-means++ draws the first center uniformly, then repeatedly samples a
//! point with probability proportional to its squared distance to the
//! nearest already-chosen center, via cumulative-weight selection. Given
//! the same draws, both strategies are deterministic functions of the
//! input, which is what makes seeded runs reproducible.

use vstd::prelude::*;
use crate::point::{Point, views, all_points_valid, copy_point};
use crate::distance::{Metric, metric_dist, metric_distance};
use crate::engine::{nearest_upto, nearest, min_dist, lemma_nearest_upto, max_metric_value};
use crate::arith::mul_frac;
use crate::random::rand_index;

verus! {

/// Cumulative sum of the first `n` weights.
pub open spec fn cum_weight(ws: Seq<i64>, n: int) -> int
    decreases n,
{
    if n <= 0 {
        0
    } else {
        cum_weight(ws, n - 1) + ws[n - 1]
    }
}

/// A cumulative sum of `n` bounded weights is bounded by `n` times the
/// largest weight.
pub proof fn lemma_cum_weight_bounds(ws: Seq<i64>, n: int)
    requires
        0 <= n <= ws.len(),
        forall|i: int| 0 <= i < ws.len() ==> 0 <= #[trigger] ws[i] <= max_metric_value(),
    ensures
        0 <= cum_weight(ws, n) <= n * max_metric_value(),
    decreases n,
{
    if n <= 0 {
        assert(n * max_metric_value() >= 0) by (nonlinear_arith)
            requires
                n >= 0,
        ;
    } else {
        lemma_cum_weight_bounds(ws, n - 1);
        assert((n - 1) * max_metric_value() + max_metric_value() == n * max_metric_value())
            by (nonlinear_arith);
    }
}

/// The index the cumulative-weight selection picks for threshold `t`:
/// weights are subtracted from the threshold in point order and the first
/// index at which the running value is exhausted is selected; if the
/// weights never exhaust it, the last index is selected.
pub open spec fn weight_pick(ws: Seq<i64>, t: int) -> int
    recommends
        ws.len() >= 1,
    decreases ws.len(),
{
    if ws.len() <= 1 {
        0
    } else if ws[0] >= t {
        0
    } else {
        1 + weight_pick(ws.drop_first(), t - ws[0])
    }
}

/// The selection always lands on an index in range.
pub proof fn lemma_weight_pick_in_range(ws: Seq<i64>, t: int)
    requires
        ws.len() >= 1,
    ensures
        0 <= weight_pick(ws, t) < ws.len(),
    decreases ws.len(),
{
    if ws.len() <= 1 {
    } else if ws[0] >= t {
    } else {
        lemma_weight_pick_in_range(ws.drop_first(), t - ws[0]);
    }
}

/// Cumulative-weight selection: subtracts weights from the threshold in
/// point order and returns the first index at which the running value
/// goes non-positive, or the last index if it never does.
pub fn pick_by_weight(ws: &Vec<i64>, t0: u128) -> (idx: usize)
    requires
        ws@.len() >= 1,
        forall|i: int| 0 <= i < ws@.len() ==> 0 <= #[trigger] ws@[i] <= max_metric_value(),
        t0 <= 0x400_0000_0000_0000_0000_0000_0000_0000,
    ensures
        idx as int == weight_pick(ws@, t0 as int),
        idx < ws@.len(),
{
    let n = ws.len();
    let mut rem: i128 = t0 as i128;
    let mut i: usize = 0;
    proof {
        assert(ws@.skip(0) =~= ws@);
    }
    loop
        invariant
            n == ws@.len(),
            n >= 1,
            forall|x: int| 0 <= x < ws@.len() ==> 0 <= #[trigger] ws@[x] <= max_metric_value(),
            0 <= i < n,
            rem == t0 - cum_weight(ws@, i as int),
            t0 <= 0x400_0000_0000_0000_0000_0000_0000_0000,
            weight_pick(ws@, t0 as int) == i + weight_pick(ws@.skip(i as int), rem as int),
        ensures
            0 <= i < n,
            i as int == weight_pick(ws@, t0 as int),
        decreases n - i,
    {
        proof {
            lemma_cum_weight_bounds(ws@, i as int);
            lemma_cum_weight_bounds(ws@, i + 1);
            assert(ws@.skip(i as int)[0] == ws@[i as int]);
            assert((i + 1) * max_metric_value() <= 0x1_0000_0000_0000_0000 * max_metric_value())
                by (nonlinear_arith)
                requires
                    0 <= i + 1 <= 0x1_0000_0000_0000_0000,
            ;
        }
        if i + 1 >= n {
            proof {
                assert(ws@.skip(i as int).len() <= 1);
            }
            return i;
        }
        if (ws[i] as i128) >= rem {
            proof {
                assert(weight_pick(ws@.skip(i as int), rem as int) == 0);
            }
            return i;
        }
        proof {
            assert(ws@.skip(i as int).drop_first() =~= ws@.skip(i + 1));
            assert(weight_pick(ws@.skip(i as int), rem as int) == 1 + weight_pick(
                ws@.skip(i + 1),
                rem - ws@[i as int],
            ));
        }
        rem = rem - (ws[i] as i128);
        i += 1;
    }
}

/// The chosen centers, as coordinate sequences.
pub open spec fn chosen_views(ps: Seq<Seq<i64>>, chosen: Seq<usize>) -> Seq<Seq<i64>> {
    chosen.map_values(|c: usize| ps[c as int])
}

/// The k-means++ sampling weights: each point's distance to the nearest
/// already-chosen center.
pub open spec fn pp_weights(m: Metric, ps: Seq<Seq<i64>>, chosen: Seq<usize>) -> Seq<i64> {
    Seq::new(ps.len(), |i: int| min_dist(m, ps[i], chosen_views(ps, chosen)) as i64)
}

/// The scaled threshold a uniform draw turns into.
pub open spec fn frac_of(total: int, frac: u64) -> int {
    (total * frac) / 0x1_0000_0000_0000_0000
}

/// The point k-means++ selects next, given the chosen centers and one
/// uniform draw.
pub open spec fn pp_next(m: Metric, ps: Seq<Seq<i64>>, chosen: Seq<usize>, frac: u64) -> usize {
    let ws = pp_weights(m, ps, chosen);
    weight_pick(ws, frac_of(cum_weight(ws, ws.len() as int), frac)) as usize
}

/// The indices k-means++ chooses: the first uniformly drawn, each later
/// one by weighted sampling against the centers chosen so far.
pub open spec fn pp_chosen(m: Metric, ps: Seq<Seq<i64>>, first: usize, fracs: Seq<u64>) -> Seq<
    usize,
>
    decreases fracs.len(),
{
    if fracs.len() == 0 {
        seq![first]
    } else {
        let prev = pp_chosen(m, ps, first, fracs.drop_last());
        prev.push(pp_next(m, ps, prev, fracs.last()))
    }
}

/// Distance from point `i` to the nearest chosen center.
fn dist_to_chosen(m: Metric, points: &Vec<Point>, chosen: &Vec<usize>, i: usize) -> (w: i64)
    requires
        points@.len() >= 1,
        all_points_valid(points@, points@[0].spec_dim()),
        chosen@.len() >= 1,
        forall|j: int| 0 <= j < chosen@.len() ==> #[trigger] chosen@[j] < points@.len(),
        i < points@.len(),
    ensures
        w as int == min_dist(m, views(points@)[i as int], chosen_views(views(points@), chosen@)),
        0 <= w <= max_metric_value(),
{
    let ghost psv = views(points@);
    let ghost cs = chosen_views(psv, chosen@);
    let ghost pv = psv[i as int];
    let ghost dim = points@[0].spec_dim();
    let nc = chosen.len();
    let mut best_d: i64 = metric_distance(
        m,
        points[i].coordinates(),
        points[chosen[0]].coordinates(),
    );
    let mut j: usize = 1;
    while j < nc
        invariant
            nc == chosen@.len(),
            psv == views(points@),
            cs == chosen_views(psv, chosen@),
            pv == psv[i as int],
            dim == points@[0].spec_dim(),
            points@.len() >= 1,
            all_points_valid(points@, dim),
            forall|x: int| 0 <= x < chosen@.len() ==> #[trigger] chosen@[x] < points@.len(),
            i < points@.len(),
            1 <= j <= nc,
            best_d == metric_dist(m, pv, cs[nearest_upto(m, pv, cs, j as int)]),
            0 <= best_d <= max_metric_value(),
        decreases nc - j,
    {
        proof {
            lemma_nearest_upto(m, pv, cs, j as int);
            lemma_nearest_upto(m, pv, cs, j + 1);
            assert(cs[j as int] == psv[chosen@[j as int] as int]);
        }
        let d = metric_distance(m, points[i].coordinates(), points[chosen[j]].coordinates());
        proof {
            crate::distance::lemma_metric_bounds(m, pv, cs[j as int]);
            assert(d <= max_metric_value()) by (nonlinear_arith)
                requires
                    d <= pv.len() * 4 * crate::point::COORD_LIMIT * crate::point::COORD_LIMIT,
                    0 <= pv.len() <= crate::point::DIM_LIMIT,
                    max_metric_value() == crate::point::DIM_LIMIT * 4 * crate::point::COORD_LIMIT
                        * crate::point::COORD_LIMIT,
            ;
        }
        if d < best_d {
            best_d = d;
        }
        j += 1;
    }
    best_d
}

/// K-means++ seeding made deterministic: the first chosen index and the
/// uniform draws are taken as arguments, so the same draws always select
/// the same centers.
pub fn kmeans_pp_seed(m: Metric, points: &Vec<Point>, first: usize, fracs: &Vec<u64>) -> (idxs:
    Vec<usize>)
    requires
        points@.len() >= 1,
        points@.len() < 0x1_0000_0000_0000_0000,
        all_points_valid(points@, points@[0].spec_dim()),
        first < points@.len(),
    ensures
        idxs@ == pp_chosen(m, views(points@), first, fracs@),
        idxs@.len() == fracs@.len() + 1,
        forall|c: int| 0 <= c < idxs@.len() ==> #[trigger] idxs@[c] < points@.len(),
{
    let ghost psv = views(points@);
    let ghost dim = points@[0].spec_dim();
    let n = points.len();
    let steps = fracs.len();
    let mut chosen: Vec<usize> = Vec::new();
    chosen.push(first);
    proof {
        assert(chosen@ =~= pp_chosen(m, psv, first, fracs@.take(0)));
    }
    let mut s: usize = 0;
    while s < steps
        invariant
            n == points@.len(),
            1 <= n < 0x1_0000_0000_0000_0000,
            steps == fracs@.len(),
            psv == views(points@),
            dim == points@[0].spec_dim(),
            all_points_valid(points@, dim),
            0 <= s <= steps,
            chosen@.len() == s + 1,
            chosen@ == pp_chosen(m, psv, first, fracs@.take(s as int)),
            forall|c: int| 0 <= c < chosen@.len() ==> #[trigger] chosen@[c] < points@.len(),
        decreases steps - s,
    {
        let ghost ws_spec = pp_weights(m, psv, chosen@);
        let mut ws: Vec<i64> = Vec::new();
        let mut i: usize = 0;
        while i < n
            invariant
                n == points@.len(),
                n >= 1,
                psv == views(points@),
                dim == points@[0].spec_dim(),
                all_points_valid(points@, dim),
                chosen@.len() >= 1,
                forall|c: int| 0 <= c < chosen@.len() ==> #[trigger] chosen@[c] < points@.len(),
                ws_spec == pp_weights(m, psv, chosen@),
                0 <= i <= n,
                ws@.len() == i,
                forall|x: int| 0 <= x < i ==> #[trigger] ws@[x] == ws_spec[x],
                forall|x: int| 0 <= x < i ==> 0 <= #[trigger] ws@[x] <= max_metric_value(),
            decreases n - i,
        {
            let w = dist_to_chosen(m, points, &chosen, i);
            ws.push(w);
            i += 1;
        }
        proof {
            assert(ws@ =~= ws_spec);
        }
        let mut total: u128 = 0;
        let mut i2: usize = 0;
        while i2 < n
            invariant
                n == ws@.len(),
                n < 0x1_0000_0000_0000_0000,
                forall|x: int| 0 <= x < ws@.len() ==> 0 <= #[trigger] ws@[x] <= max_metric_value(),
                0 <= i2 <= n,
                total == cum_weight(ws@, i2 as int),
                total <= i2 * max_metric_value(),
            decreases n - i2,
        {
            proof {
                lemma_cum_weight_bounds(ws@, i2 + 1);
                assert((i2 + 1) * max_metric_value() <= 0x1_0000_0000_0000_0000
                    * max_metric_value()) by (nonlinear_arith)
                    requires
                        0 <= i2 + 1 <= 0x1_0000_0000_0000_0000,
                ;
            }
            total = total + (ws[i2] as u128);
            i2 += 1;
        }
        proof {
            assert(total <= 0x1_0000_0000_0000_0000 * max_metric_value()) by (nonlinear_arith)
                requires
                    total <= (n as int) * max_metric_value() && 0 <= n
                        <= 0x1_0000_0000_0000_0000,
            ;
        }
        let t = mul_frac(total, fracs[s]);
        let idx = pick_by_weight(&ws, t);
        chosen.push(idx);
        proof {
            assert(fracs@.take(s + 1).drop_last() =~= fracs@.take(s as int));
            assert(fracs@.take(s + 1).last() == fracs@[s as int]);
            assert(idx as int == weight_pick(ws_spec, frac_of(
                cum_weight(ws_spec, ws_spec.len() as int),
                fracs@[s as int],
            )));
            assert(chosen@ =~= pp_chosen(m, psv, first, fracs@.take(s + 1)));
        }
        s += 1;
    }
    proof {
        assert(fracs@.take(steps as int) =~= fracs@);
    }
    chosen
}

/// Draws `k` point indices independently and uniformly, with replacement.
pub fn random_indices(rng: &mut rand::rngs::StdRng, n: usize, k: usize) -> (idxs: Vec<usize>)
    requires
        n >= 1,
    ensures
        idxs@.len() == k,
        forall|c: int| 0 <= c < idxs@.len() ==> #[trigger] idxs@[c] < n,
{
    let mut idxs: Vec<usize> = Vec::new();
    let mut c: usize = 0;
    while c < k
        invariant
            n >= 1,
            0 <= c <= k,
            idxs@.len() == c,
            forall|x: int| 0 <= x < idxs@.len() ==> #[trigger] idxs@[x] < n,
        decreases k - c,
    {
        let i = rand_index(rng, n);
        idxs.push(i);
        c += 1;
    }
    idxs
}

/// Materializes chosen indices as centers: copies of the chosen points'
/// coordinates.
pub fn centers_from_indices(points: &Vec<Point>, idxs: &Vec<usize>) -> (cs: Vec<Point>)
    requires
        points@.len() >= 1,
        all_points_valid(points@, points@[0].spec_dim()),
        forall|c: int| 0 <= c < idxs@.len() ==> #[trigger] idxs@[c] < points@.len(),
    ensures
        cs@.len() == idxs@.len(),
        forall|c: int|
            0 <= c < cs@.len() ==> #[trigger] cs@[c]@ == views(points@)[idxs@[c] as int],
        all_points_valid(cs@, points@[0].spec_dim()),
{
    let ghost psv = views(points@);
    let ghost dim = points@[0].spec_dim();
    let k = idxs.len();
    let mut cs: Vec<Point> = Vec::new();
    let mut c: usize = 0;
    while c < k
        invariant
            k == idxs@.len(),
            psv == views(points@),
            dim == points@[0].spec_dim(),
            points@.len() >= 1,
            all_points_valid(points@, dim),
            forall|x: int| 0 <= x < idxs@.len() ==> #[trigger] idxs@[x] < points@.len(),
            0 <= c <= k,
            cs@.len() == c,
            forall|x: int| 0 <= x < c ==> #[trigger] cs@[x]@ == psv[idxs@[x] as int],
            all_points_valid(cs@, dim),
        decreases k - c,
    {
        let p = copy_point(&points[idxs[c]]);
        cs.push(p);
        c += 1;
    }
    cs
}

} // verus!

verus! {

/// Determinism: seeding is a pure function of the input points and the
/// random draws. Equal points, an equal first draw and equal uniform
/// fractions make k-means++ choose identical centers; random seeding is
/// the identity on its index draws. A fixed seed reproduces the draws, so
/// it reproduces the initial centers.
pub proof fn lemma_seeding_deterministic(
    m: Metric,
    ps1: Seq<Seq<i64>>,
    ps2: Seq<Seq<i64>>,
    first1: usize,
    first2: usize,
    fracs1: Seq<u64>,
    fracs2: Seq<u64>,
)
    requires
        ps1 == ps2,
        first1 == first2,
        fracs1 == fracs2,
    ensures
        pp_chosen(m, ps1, first1, fracs1) == pp_chosen(m, ps2, first2, fracs2),
        chosen_views(ps1, pp_chosen(m, ps1, first1, fracs1)) == chosen_views(
            ps2,
            pp_chosen(m, ps2, first2, fracs2),
        ),
{
}

} // verus!

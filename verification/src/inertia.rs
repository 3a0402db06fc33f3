//! The inertia law for the mean rule: one assignment-and-update pass
//! never increases the total intra-cluster squared distance.
//!
//! The proof follows the classic two-step argument, carried out over the
//! fixed-point grid: reassigning each point to its nearest center cannot
//! raise its cost, and the rounded per-dimension mean is the grid point
//! minimizing each cluster's squared-distance sum, so it beats the old
//! center in particular.

use vstd::prelude::*;
use crate::point::valid_coords;
use crate::distance::{Metric, sq_euclid};
use crate::engine::{
    nearest, lemma_nearest, assignment_of, members, inertia, inertia_upto, cost_upto,
};
use crate::arith::{round_div, lemma_round_div_near};
use crate::update::{mean_center, member_dim_sum, valid_members, lemma_mean_center_valid};
use crate::kmeans::kmeans_step;

verus! {

/// Sum of squared differences between the first `t` coordinates of two
/// vectors.
pub open spec fn sqdiff_sum(a: Seq<i64>, b: Seq<i64>, t: int) -> int
    decreases t,
{
    if t <= 0 {
        0
    } else {
        sqdiff_sum(a, b, t - 1) + (a[t - 1] - b[t - 1]) * (a[t - 1] - b[t - 1])
    }
}

/// The squared Euclidean distance is the coordinate-indexed sum of
/// squared differences.
pub proof fn lemma_sq_euclid_as_sum(a: Seq<i64>, b: Seq<i64>, t: int)
    requires
        a.len() == b.len(),
        0 <= t <= a.len(),
    ensures
        sqdiff_sum(a, b, t) == sq_euclid(a.take(t), b.take(t)),
    decreases t,
{
    if t <= 0 {
        assert(a.take(0) =~= Seq::<i64>::empty());
        assert(b.take(0) =~= Seq::<i64>::empty());
    } else {
        lemma_sq_euclid_as_sum(a, b, t - 1);
        assert(a.take(t).drop_last() =~= a.take(t - 1));
        assert(b.take(t).drop_last() =~= b.take(t - 1));
        assert(a.take(t).last() == a[t - 1]);
        assert(b.take(t).last() == b[t - 1]);
    }
}

/// Squared-distance cost of one cluster in a single dimension, as a
/// function of the center's coordinate `x`.
pub open spec fn dim_cost(ps: Seq<Seq<i64>>, mem: Seq<usize>, t: int, x: int) -> int
    decreases mem.len(),
{
    if mem.len() == 0 {
        0
    } else {
        dim_cost(ps, mem.drop_last(), t, x) + (ps[mem.last() as int][t] - x) * (ps[mem.last()
            as int][t] - x)
    }
}

/// Sum of squared coordinate values of the members in one dimension.
pub open spec fn dim_sq_sum(ps: Seq<Seq<i64>>, mem: Seq<usize>, t: int) -> int
    decreases mem.len(),
{
    if mem.len() == 0 {
        0
    } else {
        dim_sq_sum(ps, mem.drop_last(), t) + ps[mem.last() as int][t] * ps[mem.last() as int][t]
    }
}

/// The one-dimensional cluster cost expands into its quadratic form in
/// the center coordinate.
pub proof fn lemma_dim_cost_expand(ps: Seq<Seq<i64>>, mem: Seq<usize>, t: int, x: int)
    ensures
        dim_cost(ps, mem, t, x) == dim_sq_sum(ps, mem, t) - 2 * x * member_dim_sum(ps, mem, t)
            + mem.len() * x * x,
    decreases mem.len(),
{
    if mem.len() == 0 {
    } else {
        lemma_dim_cost_expand(ps, mem.drop_last(), t, x);
        let v = ps[mem.last() as int][t];
        assert((v - x) * (v - x) == v * v - 2 * x * v + x * x) by (nonlinear_arith);
        assert((mem.len() - 1) * x * x + x * x == mem.len() * x * x) by (nonlinear_arith);
        assert(2 * x * member_dim_sum(ps, mem, t) == 2 * x * member_dim_sum(
            ps,
            mem.drop_last(),
            t,
        ) + 2 * x * v) by (nonlinear_arith)
            requires
                member_dim_sum(ps, mem, t) == member_dim_sum(ps, mem.drop_last(), t) + v,
        ;
    }
}

/// Among all integer coordinates, the rounded mean minimizes the
/// one-dimensional cluster cost.
pub proof fn lemma_round_mean_minimizes(ps: Seq<Seq<i64>>, mem: Seq<usize>, t: int, x: int)
    requires
        mem.len() >= 1,
    ensures
        dim_cost(ps, mem, t, round_div(member_dim_sum(ps, mem, t), mem.len() as int)) <= dim_cost(
            ps,
            mem,
            t,
            x,
        ),
{
    let n = mem.len() as int;
    let s = member_dim_sum(ps, mem, t);
    let r = round_div(s, n);
    lemma_round_div_near(s, n);
    let e = 2 * (n * r - s);
    lemma_dim_cost_expand(ps, mem, t, r);
    lemma_dim_cost_expand(ps, mem, t, x);
    let w = x - r;
    assert(dim_cost(ps, mem, t, x) - dim_cost(ps, mem, t, r) == n * x * x - n * r * r - 2 * x
        * s + 2 * r * s);
    assert(n * w * w == n * x * x - 2 * (n * x * r) + n * r * r) by (nonlinear_arith)
        requires
            w == x - r,
    ;
    assert(e * w == 2 * (n * x * r) - 2 * (n * r * r) - 2 * (x * s) + 2 * (r * s))
        by (nonlinear_arith)
        requires
            e == 2 * (n * r - s),
            w == x - r,
    ;
    assert(2 * (x * s) == 2 * x * s) by (nonlinear_arith);
    assert(2 * (r * s) == 2 * r * s) by (nonlinear_arith);
    assert(n * x * x - n * r * r - 2 * x * s + 2 * r * s == n * w * w + e * w);
    assert(n * w * w + e * w >= 0) by (nonlinear_arith)
        requires
            n >= 1,
            -n < e <= n,
    ;
}

/// Squared-distance cost of one cluster against a full center vector.
pub open spec fn members_cost(ps: Seq<Seq<i64>>, mem: Seq<usize>, c: Seq<i64>) -> int
    decreases mem.len(),
{
    if mem.len() == 0 {
        0
    } else {
        members_cost(ps, mem.drop_last(), c) + sq_euclid(ps[mem.last() as int], c)
    }
}

/// Cluster cost summed coordinate by coordinate, over the first `t`
/// dimensions.
pub open spec fn dims_cost(ps: Seq<Seq<i64>>, mem: Seq<usize>, c: Seq<i64>, t: int) -> int
    decreases t,
{
    if t <= 0 {
        0
    } else {
        dims_cost(ps, mem, c, t - 1) + dim_cost(ps, mem, t - 1, c[t - 1] as int)
    }
}

/// Appending a member adds its coordinate-indexed distance to every
/// dimension-summed cost prefix.
pub proof fn lemma_dims_cost_push(ps: Seq<Seq<i64>>, mem: Seq<usize>, i: usize, c: Seq<i64>, t: int)
    requires
        t >= 0,
    ensures
        dims_cost(ps, mem.push(i), c, t) == dims_cost(ps, mem, c, t) + sqdiff_sum(
            ps[i as int],
            c,
            t,
        ),
    decreases t,
{
    if t <= 0 {
    } else {
        lemma_dims_cost_push(ps, mem, i, c, t - 1);
        assert(mem.push(i).drop_last() =~= mem);
        assert(mem.push(i).last() == i);
    }
}

/// The cluster cost equals its dimension-by-dimension sum when all
/// members and the center share dimension `d`.
pub proof fn lemma_members_cost_dims(ps: Seq<Seq<i64>>, mem: Seq<usize>, c: Seq<i64>, d: nat)
    requires
        valid_members(ps, mem, d),
        c.len() == d,
    ensures
        members_cost(ps, mem, c) == dims_cost(ps, mem, c, d as int),
    decreases mem.len(),
{
    if mem.len() == 0 {
        assert(dims_cost_zero(ps, mem, c, d as int)) by {
            lemma_dims_cost_empty(ps, mem, c, d as int);
        }
    } else {
        let pre = mem.drop_last();
        assert(valid_members(ps, pre, d));
        lemma_members_cost_dims(ps, pre, c, d);
        assert(pre.push(mem.last()) =~= mem);
        lemma_dims_cost_push(ps, pre, mem.last(), c, d as int);
        let p = ps[mem.last() as int];
        lemma_sq_euclid_as_sum(p, c, d as int);
        assert(p.take(d as int) =~= p);
        assert(c.take(d as int) =~= c);
    }
}

/// A cost over no members is zero in every dimension sum.
pub open spec fn dims_cost_zero(ps: Seq<Seq<i64>>, mem: Seq<usize>, c: Seq<i64>, t: int) -> bool {
    dims_cost(ps, mem, c, t) == 0
}

/// The dimension-summed cost of an empty cluster is zero.
pub proof fn lemma_dims_cost_empty(ps: Seq<Seq<i64>>, mem: Seq<usize>, c: Seq<i64>, t: int)
    requires
        mem.len() == 0,
    ensures
        dims_cost(ps, mem, c, t) == 0,
    decreases t,
{
    if t <= 0 {
    } else {
        lemma_dims_cost_empty(ps, mem, c, t - 1);
    }
}

/// If one center's coordinate is at least as good in every dimension, its
/// dimension-summed cost is at least as good.
pub proof fn lemma_dims_cost_le(
    ps: Seq<Seq<i64>>,
    mem: Seq<usize>,
    c1: Seq<i64>,
    c2: Seq<i64>,
    t: int,
)
    requires
        forall|tt: int|
            0 <= tt < t ==> dim_cost(ps, mem, tt, #[trigger] c1[tt] as int) <= dim_cost(
                ps,
                mem,
                tt,
                c2[tt] as int,
            ),
    ensures
        dims_cost(ps, mem, c1, t) <= dims_cost(ps, mem, c2, t),
    decreases t,
{
    if t <= 0 {
    } else {
        lemma_dims_cost_le(ps, mem, c1, c2, t - 1);
    }
}

/// The mean-rule center of a cluster costs no more than the cluster's
/// previous center.
pub proof fn lemma_mean_center_cheaper(ps: Seq<Seq<i64>>, mem: Seq<usize>, old: Seq<i64>, d: nat)
    requires
        valid_members(ps, mem, d),
        valid_coords(old),
        old.len() == d,
    ensures
        members_cost(ps, mem, mean_center(ps, mem, old)) <= members_cost(ps, mem, old),
{
    if mem.len() == 0 {
    } else {
        let new = mean_center(ps, mem, old);
        lemma_mean_center_valid(ps, mem, old, d);
        assert forall|tt: int|
            0 <= tt < d as int implies dim_cost(ps, mem, tt, #[trigger] new[tt] as int)
            <= dim_cost(ps, mem, tt, old[tt] as int) by {
            assert(new[tt] as int == round_div(member_dim_sum(ps, mem, tt), mem.len() as int));
            lemma_round_mean_minimizes(ps, mem, tt, old[tt] as int);
        }
        lemma_dims_cost_le(ps, mem, new, old, d as int);
        lemma_members_cost_dims(ps, mem, new, d);
        lemma_members_cost_dims(ps, mem, old, d);
    }
}

} // verus!

verus! {

/// Total cost summed cluster by cluster, over the first `j` clusters.
pub open spec fn clusters_cost(ps: Seq<Seq<i64>>, asg: Seq<usize>, v: Seq<Seq<i64>>, j: int) -> int
    decreases j,
{
    if j <= 0 {
        0
    } else {
        clusters_cost(ps, asg, v, j - 1) + members_cost(ps, members(asg, j - 1), v[j - 1])
    }
}

/// With no points assigned, every cluster is empty and the total is zero.
pub proof fn lemma_clusters_cost_empty(ps: Seq<Seq<i64>>, asg: Seq<usize>, v: Seq<Seq<i64>>, j: int)
    requires
        asg.len() == 0,
    ensures
        clusters_cost(ps, asg, v, j) == 0,
    decreases j,
{
    if j <= 0 {
    } else {
        lemma_clusters_cost_empty(ps, asg, v, j - 1);
    }
}

/// Changing the membership of exactly one cluster changes the total by
/// exactly that cluster's cost change.
pub proof fn lemma_clusters_cost_one_diff(
    ps: Seq<Seq<i64>>,
    asg1: Seq<usize>,
    asg2: Seq<usize>,
    v: Seq<Seq<i64>>,
    j: int,
    jstar: int,
    delta: int,
)
    requires
        0 <= jstar,
        forall|jj: int|
            0 <= jj < j && jj != jstar ==> #[trigger] members(asg2, jj) == members(asg1, jj),
        jstar < j ==> members_cost(ps, members(asg2, jstar), v[jstar]) == members_cost(
            ps,
            members(asg1, jstar),
            v[jstar],
        ) + delta,
    ensures
        clusters_cost(ps, asg2, v, j) == clusters_cost(ps, asg1, v, j) + if jstar < j {
            delta
        } else {
            0
        },
    decreases j,
{
    if j <= 0 {
    } else {
        lemma_clusters_cost_one_diff(ps, asg1, asg2, v, j - 1, jstar, delta);
    }
}

/// The total cost of an assignment, summed point by point, equals the
/// same cost summed cluster by cluster.
pub proof fn lemma_cost_swap(ps: Seq<Seq<i64>>, asg: Seq<usize>, v: Seq<Seq<i64>>, n: int)
    requires
        asg.len() <= usize::MAX,
        0 <= n <= asg.len(),
        asg.len() == ps.len(),
        forall|i: int| 0 <= i < asg.len() ==> #[trigger] asg[i] < v.len(),
    ensures
        cost_upto(Metric::SquaredEuclidean, ps, asg, v, n) == clusters_cost(
            ps,
            asg.take(n),
            v,
            v.len() as int,
        ),
    decreases n,
{
    if n <= 0 {
        assert(asg.take(0) =~= Seq::<usize>::empty());
        lemma_clusters_cost_empty(ps, asg.take(0), v, v.len() as int);
    } else {
        lemma_cost_swap(ps, asg, v, n - 1);
        let pre = asg.take(n - 1);
        let cur = asg.take(n);
        let jstar = asg[n - 1] as int;
        assert(cur.drop_last() =~= pre);
        assert(cur.last() == asg[n - 1]);
        assert forall|jj: int| 0 <= jj < v.len() && jj != jstar implies #[trigger] members(
            cur,
            jj,
        ) == members(pre, jj) by {
            assert(members(cur, jj) =~= members(pre, jj));
        }
        assert(members(cur, jstar) =~= members(pre, jstar).push((n - 1) as usize));
        assert(members(cur, jstar).drop_last() =~= members(pre, jstar));
        assert(members_cost(ps, members(cur, jstar), v[jstar]) == members_cost(
            ps,
            members(pre, jstar),
            v[jstar],
        ) + sq_euclid(ps[n - 1], v[jstar]));
        lemma_clusters_cost_one_diff(
            ps,
            pre,
            cur,
            v,
            v.len() as int,
            jstar,
            sq_euclid(ps[n - 1], v[jstar]),
        );
    }
}

/// If every cluster's new center costs no more than its old one, the
/// cluster-summed total cost does not grow.
pub proof fn lemma_clusters_cost_le(
    ps: Seq<Seq<i64>>,
    asg: Seq<usize>,
    v1: Seq<Seq<i64>>,
    v2: Seq<Seq<i64>>,
    j: int,
)
    requires
        forall|jj: int|
            0 <= jj < j ==> members_cost(ps, members(asg, jj), #[trigger] v1[jj]) <= members_cost(
                ps,
                members(asg, jj),
                v2[jj],
            ),
    ensures
        clusters_cost(ps, asg, v1, j) <= clusters_cost(ps, asg, v2, j),
    decreases j,
{
    if j <= 0 {
    } else {
        lemma_clusters_cost_le(ps, asg, v1, v2, j - 1);
    }
}

/// The nearest-center assignment costs no more than any other assignment
/// against the same centers.
pub proof fn lemma_inertia_le_cost(
    m: Metric,
    ps: Seq<Seq<i64>>,
    asg: Seq<usize>,
    v: Seq<Seq<i64>>,
    n: int,
)
    requires
        v.len() >= 1,
        0 <= n <= ps.len(),
        asg.len() == ps.len(),
        forall|i: int| 0 <= i < asg.len() ==> #[trigger] asg[i] < v.len(),
    ensures
        inertia_upto(m, ps, v, n) <= cost_upto(m, ps, asg, v, n),
    decreases n,
{
    if n <= 0 {
    } else {
        lemma_inertia_le_cost(m, ps, asg, v, n - 1);
        lemma_nearest(m, ps[n - 1], v);
    }
}

/// The cost of the nearest-center assignment is the inertia itself.
pub proof fn lemma_cost_of_nearest(m: Metric, ps: Seq<Seq<i64>>, v: Seq<Seq<i64>>, n: int)
    requires
        v.len() >= 1,
        v.len() <= usize::MAX,
        0 <= n <= ps.len(),
    ensures
        cost_upto(m, ps, assignment_of(m, ps, v), v, n) == inertia_upto(m, ps, v, n),
    decreases n,
{
    if n <= 0 {
    } else {
        lemma_cost_of_nearest(m, ps, v, n - 1);
        lemma_nearest(m, ps[n - 1], v);
    }
}

/// All points are valid coordinate vectors of dimension `d`.
pub open spec fn valid_views(ps: Seq<Seq<i64>>, d: nat) -> bool {
    forall|i: int| 0 <= i < ps.len() ==> valid_coords(#[trigger] ps[i]) && ps[i].len() == d
}

/// Monotonic inertia under the mean rule: one assignment-and-update pass
/// never increases the total intra-cluster squared distance. Every point
/// moves to its nearest center, and within each cluster the rounded
/// dimension-wise mean is the best center on the fixed-point grid, so in
/// particular no worse than the previous one.
pub proof fn lemma_mean_pass_inertia(ps: Seq<Seq<i64>>, cs: Seq<Seq<i64>>, d: nat)
    requires
        cs.len() >= 1,
        cs.len() <= usize::MAX,
        ps.len() <= usize::MAX,
        valid_views(ps, d),
        valid_views(cs, d),
    ensures
        inertia(Metric::SquaredEuclidean, ps, kmeans_step(ps, cs)) <= inertia(
            Metric::SquaredEuclidean,
            ps,
            cs,
        ),
{
    let m = Metric::SquaredEuclidean;
    let asg = assignment_of(m, ps, cs);
    let next = kmeans_step(ps, cs);
    let k = cs.len() as int;
    let n = ps.len() as int;
    assert forall|i: int| 0 <= i < asg.len() implies #[trigger] asg[i] < cs.len() by {
        lemma_nearest(m, ps[i], cs);
    }
    assert forall|j: int, u: int|
        0 <= j < k && 0 <= u < members(asg, j).len() implies #[trigger] members(asg, j)[u]
        < ps.len() && asg[members(asg, j)[u] as int] as int == j by {
        crate::engine::lemma_members(asg, j);
    }
    assert forall|j: int|
        0 <= j < k implies members_cost(ps, members(asg, j), #[trigger] next[j]) <= members_cost(
        ps,
        members(asg, j),
        cs[j],
    ) by {
        assert(valid_members(ps, members(asg, j), d));
        assert(next[j] == mean_center(ps, members(asg, j), cs[j]));
        lemma_mean_center_cheaper(ps, members(asg, j), cs[j], d);
    }
    lemma_inertia_le_cost(m, ps, asg, next, n);
    lemma_cost_swap(ps, asg, next, n);
    lemma_cost_swap(ps, asg, cs, n);
    assert(asg.take(n) =~= asg);
    lemma_clusters_cost_le(ps, asg, next, cs, k);
    lemma_cost_of_nearest(m, ps, cs, n);
}

} // verus!

verus! {

/// A mean-rule step of valid centers yields valid centers of the same
/// dimension and count.
pub proof fn lemma_kmeans_step_valid(ps: Seq<Seq<i64>>, cs: Seq<Seq<i64>>, d: nat)
    requires
        cs.len() >= 1,
        ps.len() <= usize::MAX,
        valid_views(ps, d),
        valid_views(cs, d),
    ensures
        kmeans_step(ps, cs).len() == cs.len(),
        valid_views(kmeans_step(ps, cs), d),
{
    let m = Metric::SquaredEuclidean;
    let asg = assignment_of(m, ps, cs);
    let next = kmeans_step(ps, cs);
    assert forall|i: int| 0 <= i < asg.len() implies #[trigger] asg[i] < cs.len() by {
        lemma_nearest(m, ps[i], cs);
    }
    assert forall|j: int|
        0 <= j < next.len() implies valid_coords(#[trigger] next[j]) && next[j].len() == d by {
        crate::engine::lemma_members(asg, j);
        assert(valid_members(ps, members(asg, j), d));
        lemma_mean_center_valid(ps, members(asg, j), cs[j], d);
        assert(next[j] == mean_center(ps, members(asg, j), cs[j]));
    }
}

/// Monotonic inertia across the whole run: the centers the mean-rule
/// engine loop ends with have no more inertia than the centers it started
/// from, however many iterations it took.
pub proof fn lemma_kmeans_run_inertia(ps: Seq<Seq<i64>>, cs: Seq<Seq<i64>>, d: nat, stop: int, fuel: nat)
    requires
        cs.len() >= 1,
        cs.len() <= usize::MAX,
        ps.len() <= usize::MAX,
        valid_views(ps, d),
        valid_views(cs, d),
    ensures
        inertia(
            Metric::SquaredEuclidean,
            ps,
            crate::kmeans::kmeans_iterate(ps, cs, stop, fuel).0,
        ) <= inertia(Metric::SquaredEuclidean, ps, cs),
    decreases fuel,
{
    if fuel == 0 {
    } else {
        let next = kmeans_step(ps, cs);
        lemma_mean_pass_inertia(ps, cs, d);
        lemma_kmeans_step_valid(ps, cs, d);
        if crate::engine::max_sq_change(cs, next) <= stop {
        } else {
            lemma_kmeans_run_inertia(ps, next, d, stop, (fuel - 1) as nat);
        }
    }
}

} // verus!

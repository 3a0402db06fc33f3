//! Verified sorting of coordinate values, used by the median update rule.
//!
//! The executable sort is proved to return exactly `Seq::sort_by` of its
//! input under the total order on `i64`, so specifications elsewhere can
//! speak of "the sorted values" as a mathematical function.

use vstd::prelude::*;
use vstd::relations::{sorted_by, total_ordering};
use vstd::seq_lib::group_to_multiset_ensures;
use vstd::multiset::Multiset;

verus! {

/// The total order on machine integers.
pub open spec fn i64_le() -> spec_fn(i64, i64) -> bool {
    |x: i64, y: i64| x <= y
}

/// `i64_le` is a total ordering.
pub proof fn lemma_i64_le_total_ordering()
    ensures
        total_ordering(i64_le()),
{
    let leq = i64_le();
    assert forall|x: i64| #[trigger] leq(x, x) by {}
    assert forall|x: i64, y: i64| #[trigger] leq(x, y) && #[trigger] leq(y, x) implies x == y by {}
    assert forall|x: i64, y: i64, z: i64|
        #[trigger] leq(x, y) && #[trigger] leq(y, z) implies leq(x, z) by {}
    assert forall|x: i64, y: i64| #[trigger] leq(x, y) || #[trigger] leq(y, x) by {}
}

/// The values of `s` in ascending order.
pub open spec fn sorted_of(s: Seq<i64>) -> Seq<i64> {
    s.sort_by(i64_le())
}

/// Two sorted sequences holding the same values in the same multiplicity
/// are equal.
pub proof fn lemma_sorted_unique(s1: Seq<i64>, s2: Seq<i64>)
    requires
        sorted_by(s1, i64_le()),
        sorted_by(s2, i64_le()),
        s1.to_multiset() == s2.to_multiset(),
    ensures
        s1 == s2,
    decreases s1.len(),
{
    broadcast use group_to_multiset_ensures;

    assert(s1.len() == s1.to_multiset().len());
    assert(s2.len() == s2.to_multiset().len());
    if s1.len() == 0 {
        assert(s1 =~= s2);
    } else {
        assert(s1.contains(s1[0]));
        assert(s2.to_multiset().count(s1[0]) > 0);
        assert(s2.contains(s1[0]));
        let i2 = choose|i: int| 0 <= i < s2.len() && s2[i] == s1[0];
        assert(i2 > 0 ==> i64_le()(s2[0], s2[i2]));
        assert(s2[0] <= s1[0]);
        assert(s2.contains(s2[0]));
        assert(s1.to_multiset().count(s2[0]) > 0);
        assert(s1.contains(s2[0]));
        let i1 = choose|i: int| 0 <= i < s1.len() && s1[i] == s2[0];
        assert(i1 > 0 ==> i64_le()(s1[0], s1[i1]));
        assert(s1[0] == s2[0]);
        let t1 = s1.remove(0);
        let t2 = s2.remove(0);
        assert(t1.to_multiset() =~= s1.to_multiset().remove(s1[0]));
        assert(t2.to_multiset() =~= s2.to_multiset().remove(s2[0]));
        assert(t1.to_multiset() == t2.to_multiset());
        assert forall|i: int, j: int| 0 <= i < j < t1.len() implies #[trigger] i64_le()(
            t1[i],
            t1[j],
        ) by {
            assert(t1[i] == s1[i + 1] && t1[j] == s1[j + 1]);
            assert(i64_le()(s1[i + 1], s1[j + 1]));
        }
        assert forall|i: int, j: int| 0 <= i < j < t2.len() implies #[trigger] i64_le()(
            t2[i],
            t2[j],
        ) by {
            assert(t2[i] == s2[i + 1] && t2[j] == s2[j + 1]);
            assert(i64_le()(s2[i + 1], s2[j + 1]));
        }
        lemma_sorted_unique(t1, t2);
        assert forall|i: int| 0 <= i < s1.len() implies s1[i] == s2[i] by {
            if i > 0 {
                assert(t1[i - 1] == s1[i] && t2[i - 1] == s2[i]);
            }
        }
        assert(s1 =~= s2);
    }
}

/// The sorted version of a sequence holds the same values with the same
/// multiplicity, in ascending order.
pub proof fn lemma_sorted_of(s: Seq<i64>)
    ensures
        sorted_by(sorted_of(s), i64_le()),
        sorted_of(s).to_multiset() == s.to_multiset(),
        sorted_of(s).len() == s.len(),
{
    broadcast use group_to_multiset_ensures;

    lemma_i64_le_total_ordering();
    s.lemma_sort_by_ensures(i64_le());
    assert(sorted_of(s).len() == sorted_of(s).to_multiset().len());
}

/// Sorts the values into a fresh vector, by repeated selection of the
/// least remaining value.
pub fn sorted_values(v: &Vec<i64>) -> (out: Vec<i64>)
    ensures
        out@ == sorted_of(v@),
{
    broadcast use group_to_multiset_ensures;

    let mut work = crate::point::copy_coords(v);
    let mut out: Vec<i64> = Vec::new();
    proof {
        assert(out@.to_multiset().add(work@.to_multiset()) =~= v@.to_multiset());
    }
    while work.len() > 0
        invariant
            out@.to_multiset().add(work@.to_multiset()) == v@.to_multiset(),
            sorted_by(out@, i64_le()),
            forall|i: int, j: int|
                0 <= i < out@.len() && 0 <= j < work@.len() ==> #[trigger] out@[i]
                    <= #[trigger] work@[j],
        decreases work@.len(),
    {
        let n = work.len();
        let mut min_at: usize = 0;
        let mut u: usize = 1;
        while u < n
            invariant
                n == work@.len(),
                0 <= min_at < n,
                1 <= u <= n,
                forall|j: int| 0 <= j < u ==> work@[min_at as int] <= #[trigger] work@[j],
            decreases n - u,
        {
            if work[u] < work[min_at] {
                min_at = u;
            }
            u += 1;
        }
        let ghost old_out = out@;
        let ghost old_work = work@;
        let m = work.remove(min_at);
        out.push(m);
        proof {
            broadcast use group_to_multiset_ensures;

            assert(out@.to_multiset() =~= old_out.to_multiset().insert(m));
            assert(work@.to_multiset() =~= old_work.to_multiset().remove(m));
            assert(old_work.to_multiset().count(m) > 0);
            assert(out@.to_multiset().add(work@.to_multiset()) =~= old_out.to_multiset().add(
                old_work.to_multiset(),
            ));
            assert forall|i: int, j: int|
                0 <= i < out@.len() && 0 <= j < work@.len() implies #[trigger] out@[i]
                <= #[trigger] work@[j] by {
                assert(work@[j] == old_work[if j < min_at {
                    j
                } else {
                    j + 1
                }]);
                if i < old_out.len() {
                    assert(out@[i] == old_out[i]);
                } else {
                    assert(out@[i] == m);
                }
            }
            assert forall|i: int, j: int| 0 <= i < j < out@.len() implies #[trigger] i64_le()(
                out@[i],
                out@[j],
            ) by {
                if j < old_out.len() {
                    assert(i64_le()(old_out[i], old_out[j]));
                } else {
                    assert(out@[j] == m);
                    assert(old_work[min_at as int] == m);
                    assert(old_out[i] <= m);
                }
            }
        }
    }
    proof {
        assert(work@.to_multiset() =~= Multiset::<i64>::empty());
        assert(out@.to_multiset() =~= v@.to_multiset());
        lemma_sorted_of(v@);
        lemma_sorted_unique(out@, sorted_of(v@));
    }
    out
}

} // verus!

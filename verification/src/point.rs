//! Points: immutable fixed-dimension coordinate vectors.

use vstd::prelude::*;

verus! {

/// Largest magnitude a single fixed-point coordinate may take.
pub const COORD_LIMIT: i64 = 1_000_000;

/// Largest number of dimensions a point may have.
pub const DIM_LIMIT: usize = 65536;

/// A single coordinate lies within the fixed-point range.
pub open spec fn valid_coord(c: i64) -> bool {
    -COORD_LIMIT <= c <= COORD_LIMIT
}

/// A coordinate vector has at least one dimension, no more than
/// `DIM_LIMIT`, and every coordinate within the fixed-point range.
pub open spec fn valid_coords(s: Seq<i64>) -> bool {
    &&& 1 <= s.len() <= DIM_LIMIT
    &&& forall|i: int| 0 <= i < s.len() ==> valid_coord(#[trigger] s[i])
}

/// An immutable point: an ordered vector of fixed-point coordinates.
/// Equality is element-wise.
#[derive(Debug)]
pub struct Point {
    coordinates: Vec<i64>,
}

impl View for Point {
    type V = Seq<i64>;

    closed spec fn view(&self) -> Seq<i64> {
        self.coordinates@
    }
}

impl Point {
    /// The point's coordinates satisfy the fixed-point range limits.
    pub open spec fn is_valid(self) -> bool {
        valid_coords(self@)
    }

    /// Number of dimensions, as seen in specifications.
    pub open spec fn spec_dim(self) -> nat {
        self@.len()
    }

    pub fn new(coordinates: Vec<i64>) -> (p: Point)
        requires
            valid_coords(coordinates@),
        ensures
            p@ == coordinates@,
            p.is_valid(),
    {
        Point { coordinates }
    }

    pub fn coordinates(&self) -> (r: &[i64])
        ensures
            r@ == self@,
    {
        self.coordinates.as_slice()
    }

    /// Number of dimensions.
    pub fn dim(&self) -> (d: usize)
        ensures
            d == self.spec_dim(),
    {
        self.coordinates.len()
    }
}

impl PartialEq for Point {
    fn eq(&self, other: &Point) -> (r: bool) {
        let n = self.coordinates.len();
        if n != other.coordinates.len() {
            return false;
        }
        let mut i: usize = 0;
        while i < n
            invariant
                n == self@.len(),
                n == other@.len(),
                0 <= i <= n,
                forall|j: int| 0 <= j < i ==> self@[j] == other@[j],
            decreases n - i,
        {
            if self.coordinates[i] != other.coordinates[i] {
                return false;
            }
            i += 1;
        }
        proof {
            assert(self@ =~= other@);
        }
        true
    }
}

impl Eq for Point {}

impl vstd::std_specs::cmp::PartialEqSpecImpl for Point {
    open spec fn obeys_eq_spec() -> bool {
        true
    }

    open spec fn eq_spec(&self, other: &Point) -> bool {
        self@ == other@
    }
}

/// The coordinate sequences of a sequence of points.
pub open spec fn views(ps: Seq<Point>) -> Seq<Seq<i64>> {
    ps.map_values(|p: Point| p@)
}

/// Every point in the sequence is valid and has dimension `d`.
pub open spec fn all_points_valid(ps: Seq<Point>, d: nat) -> bool {
    forall|i: int| 0 <= i < ps.len() ==> (#[trigger] ps[i]).is_valid() && ps[i].spec_dim() == d
}

/// Copies a coordinate vector.
pub fn copy_coords(v: &Vec<i64>) -> (r: Vec<i64>)
    ensures
        r@ == v@,
{
    let mut r: Vec<i64> = Vec::new();
    let n = v.len();
    let mut i: usize = 0;
    while i < n
        invariant
            n == v@.len(),
            0 <= i <= n,
            r@ == v@.take(i as int),
        decreases n - i,
    {
        r.push(v[i]);
        proof {
            assert(r@ =~= v@.take(i + 1 as int));
        }
        i += 1;
    }
    proof {
        assert(v@.take(n as int) =~= v@);
    }
    r
}

/// Checks that a point's coordinates lie within the fixed-point range.
pub fn check_point_valid(p: &Point) -> (r: bool)
    ensures
        r == p.is_valid(),
{
    let n = p.coordinates.len();
    if n == 0 || n > DIM_LIMIT {
        return false;
    }
    let mut i: usize = 0;
    while i < n
        invariant
            n == p@.len(),
            1 <= n <= DIM_LIMIT,
            0 <= i <= n,
            forall|j: int| 0 <= j < i ==> valid_coord(#[trigger] p@[j]),
        decreases n - i,
    {
        let c = p.coordinates[i];
        if c < -COORD_LIMIT || c > COORD_LIMIT {
            return false;
        }
        i += 1;
    }
    true
}

/// Copies a point.
pub fn copy_point(p: &Point) -> (r: Point)
    ensures
        r@ == p@,
{
    Point { coordinates: copy_coords(&p.coordinates) }
}

/// Copies an index list.
pub fn copy_indices(v: &Vec<usize>) -> (r: Vec<usize>)
    ensures
        r@ == v@,
{
    let mut r: Vec<usize> = Vec::new();
    let n = v.len();
    let mut i: usize = 0;
    while i < n
        invariant
            n == v@.len(),
            0 <= i <= n,
            r@ == v@.take(i as int),
        decreases n - i,
    {
        r.push(v[i]);
        proof {
            assert(r@ =~= v@.take(i + 1 as int));
        }
        i += 1;
    }
    proof {
        assert(v@.take(n as int) =~= v@);
    }
    r
}

/// Copies a list of points.
pub fn copy_points(ps: &Vec<Point>) -> (r: Vec<Point>)
    ensures
        r@.len() == ps@.len(),
        forall|i: int| 0 <= i < r@.len() ==> #[trigger] r@[i]@ == ps@[i]@,
        views(r@) == views(ps@),
{
    let n = ps.len();
    let mut r: Vec<Point> = Vec::new();
    let mut i: usize = 0;
    while i < n
        invariant
            n == ps@.len(),
            0 <= i <= n,
            r@.len() == i,
            forall|j: int| 0 <= j < i ==> #[trigger] r@[j]@ == ps@[j]@,
        decreases n - i,
    {
        let p = copy_point(&ps[i]);
        r.push(p);
        i += 1;
    }
    proof {
        assert(views(r@) =~= views(ps@));
    }
    r
}

} // verus!

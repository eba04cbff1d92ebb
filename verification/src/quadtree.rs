//! A region-bounded point quadtree over endpoint records.
//!
//! Each node covers a rectangular region `[lo, hi]`. A leaf holds at most
//! two points; asked to hold a third it splits its region at the midpoint
//! into four quadrants and pushes its points down, unless the region is
//! already so small that splitting would chase coincident points forever.

use vstd::prelude::*;
use vstd::multiset::Multiset;
use vstd::seq_lib::group_to_multiset_ensures;
use crate::geom::Point2;
use crate::SliceError;

verus! {

/// Subdividing stops once a region's squared diagonal is below this
/// threshold: a hundredth of a squared mesh unit, in squared fixed-point
/// steps. A leaf that small holds any number of points rather than
/// splitting, which keeps coincident points from forcing unbounded
/// subdivision.
pub const MIN_QUAD_DIM_SQUARED: u128 = 10000;

/// One endpoint of a cut segment: its plane coordinates, its id in the
/// point registry, and the id of the other endpoint of the same segment.
#[derive(Clone, Copy, Debug, PartialEq, Eq, Structural)]
pub struct PairedPoints {
    pub coords: Point2,
    pub id: usize,
    pub partner_index: Option<usize>,
}

impl PairedPoints {
    /// A fresh record at `coord`, not yet registered: id and partner are
    /// filled in by the registry.
    pub fn new(coord: Point2) -> (r: Self)
        ensures
            r == (PairedPoints { coords: coord, id: 0, partner_index: None::<usize> }),
    {
        PairedPoints { coords: coord, id: 0, partner_index: None }
    }
}

/// The four subquadrants of a split region. Quadrant 0 is lower-x/lower-y,
/// 1 is lower-x/upper-y, 2 is upper-x/upper-y, 3 is upper-x/lower-y.
pub struct SubQuads {
    pub q0: QuadTree,
    pub q1: QuadTree,
    pub q2: QuadTree,
    pub q3: QuadTree,
}

/// A quadtree node: a region, the points it holds directly (empty once the
/// node has split), and optionally its four subquadrants.
pub struct QuadTree {
    /// Lower corner of the region, inclusive.
    pub lo: Point2,
    /// Upper corner of the region, inclusive.
    pub hi: Point2,
    /// The four subquadrants of an internal node.
    pub subquads: Option<Box<SubQuads>>,
    /// The points held directly; only leaves hold any.
    pub points: Vec<PairedPoints>,
}

/// The point lies within the closed rectangle `[lo, hi]`.
pub open spec fn in_region(lo: Point2, hi: Point2, p: Point2) -> bool {
    &&& lo.x <= p.x <= hi.x
    &&& lo.y <= p.y <= hi.y
}

/// Squared length of the region's diagonal.
pub open spec fn diag_sq(lo: Point2, hi: Point2) -> int {
    (hi.x - lo.x) * (hi.x - lo.x) + (hi.y - lo.y) * (hi.y - lo.y)
}

/// Midpoint of one axis, rounded toward the lower bound.
pub open spec fn mid_coord(lo: int, hi: int) -> int {
    lo + (hi - lo) / 2
}

/// Midpoint of the region, the corner shared by all four subquadrants.
pub open spec fn mid_point(lo: Point2, hi: Point2) -> Point2 {
    Point2 { x: mid_coord(lo.x as int, hi.x as int) as i32, y: mid_coord(lo.y as int, hi.y as int) as i32 }
}

/// Which subquadrant of `[lo, hi]` the point belongs to: 0 is
/// lower-x/lower-y, 1 is lower-x/upper-y, 2 is upper-x/upper-y, 3 is
/// upper-x/lower-y, with the midpoint itself counting as upper.
pub open spec fn quadrant_of(lo: Point2, hi: Point2, p: Point2) -> int {
    if p.x < mid_point(lo, hi).x {
        if p.y < mid_point(lo, hi).y {
            0
        } else {
            1
        }
    } else {
        if p.y < mid_point(lo, hi).y {
            3
        } else {
            2
        }
    }
}

/// Squared Euclidean distance between two plane points.
pub open spec fn dist_sq(a: Point2, b: Point2) -> int {
    (a.x - b.x) * (a.x - b.x) + (a.y - b.y) * (a.y - b.y)
}

/// The point may be handed out by a neighbour query: it is not the excluded
/// id and has not been visited.
pub open spec fn eligible(p: PairedPoints, exclude_id: usize, visited: Seq<bool>) -> bool {
    &&& p.id != exclude_id
    &&& p.id < visited.len()
    &&& !visited[p.id as int]
}

/// Index of the nearest eligible point among the first `n` entries of a
/// leaf, scanning front to back and replacing the best candidate only on a
/// strictly smaller squared distance: ties keep the lowest index.
pub open spec fn best_upto(
    points: Seq<PairedPoints>,
    query: Point2,
    exclude_id: usize,
    visited: Seq<bool>,
    n: int,
) -> Option<int>
    decreases n,
{
    if n <= 0 {
        None
    } else {
        let prev = best_upto(points, query, exclude_id, visited, n - 1);
        if !eligible(points[n - 1], exclude_id, visited) {
            prev
        } else {
            match prev {
                None => Some(n - 1),
                Some(b) => if dist_sq(query, points[n - 1].coords) < dist_sq(
                    query,
                    points[b].coords,
                ) {
                    Some(n - 1)
                } else {
                    Some(b)
                },
            }
        }
    }
}

/// The id a leaf hands out for a query, or `None` when it has no eligible
/// point: a clean two-point leaf offers the first of its pair that is
/// eligible; any other leaf offers the nearest eligible point, lowest
/// index on distance ties.
pub open spec fn leaf_choice(
    points: Seq<PairedPoints>,
    query: Point2,
    exclude_id: usize,
    visited: Seq<bool>,
) -> Option<usize> {
    if points.len() == 2 {
        if eligible(points[0], exclude_id, visited) {
            Some(points[0].id)
        } else if eligible(points[1], exclude_id, visited) {
            Some(points[1].id)
        } else {
            None
        }
    } else {
        match best_upto(points, query, exclude_id, visited, points.len() as int) {
            Some(i) => Some(points[i].id),
            None => None,
        }
    }
}

/// The leaf that quadrant descent reaches for a query point.
pub open spec fn descend_leaf(t: QuadTree, q: Point2) -> QuadTree
    decreases t,
{
    match t.subquads {
        None => t,
        Some(sq) => {
            let k = quadrant_of(t.lo, t.hi, q);
            if k == 0 {
                descend_leaf(sq.q0, q)
            } else if k == 1 {
                descend_leaf(sq.q1, q)
            } else if k == 2 {
                descend_leaf(sq.q2, q)
            } else {
                descend_leaf(sq.q3, q)
            }
        },
    }
}

/// A winning scan index is in range and eligible.
pub proof fn lemma_best_upto_eligible(
    points: Seq<PairedPoints>,
    query: Point2,
    exclude_id: usize,
    visited: Seq<bool>,
    n: int,
)
    requires
        n <= points.len(),
        best_upto(points, query, exclude_id, visited, n).is_some(),
    ensures
        0 <= best_upto(points, query, exclude_id, visited, n).unwrap() < n,
        eligible(
            points[best_upto(points, query, exclude_id, visited, n).unwrap()],
            exclude_id,
            visited,
        ),
    decreases n,
{
    if n > 0 && best_upto(points, query, exclude_id, visited, n - 1).is_some() {
        lemma_best_upto_eligible(points, query, exclude_id, visited, n - 1);
    }
}

/// Whatever a leaf chooses is eligible: never the excluded id, never a
/// visited point.
pub proof fn lemma_leaf_choice_eligible(
    points: Seq<PairedPoints>,
    query: Point2,
    exclude_id: usize,
    visited: Seq<bool>,
)
    requires
        leaf_choice(points, query, exclude_id, visited).is_some(),
    ensures
        exists|i: int|
            0 <= i < points.len() && (#[trigger] points[i]).id == leaf_choice(
                points,
                query,
                exclude_id,
                visited,
            ).unwrap() && eligible(points[i], exclude_id, visited),
{
    if points.len() == 2 {
        if eligible(points[0], exclude_id, visited) {
            assert(points[0].id == leaf_choice(points, query, exclude_id, visited).unwrap()
                && eligible(points[0], exclude_id, visited));
        } else {
            assert(points[1].id == leaf_choice(points, query, exclude_id, visited).unwrap()
                && eligible(points[1], exclude_id, visited));
        }
    } else {
        lemma_best_upto_eligible(points, query, exclude_id, visited, points.len() as int);
        let b = best_upto(points, query, exclude_id, visited, points.len() as int).unwrap();
        assert(points[b].id == leaf_choice(points, query, exclude_id, visited).unwrap()
            && eligible(points[b], exclude_id, visited));
    }
}

impl QuadTree {
    /// The region is a non-empty closed rectangle.
    pub open spec fn region_wf(self) -> bool {
        self.lo.x <= self.hi.x && self.lo.y <= self.hi.y
    }

    /// Structural invariant: every held point lies within the holder's
    /// region; a leaf holds at most two points unless its region's squared
    /// diagonal is below [`MIN_QUAD_DIM_SQUARED`]; an internal node holds no
    /// points of its own, has split only while at or above that threshold,
    /// and its four children cover exactly the four subquadrants of its
    /// region.
    pub open spec fn wf(self) -> bool
        decreases self,
    {
        &&& self.region_wf()
        &&& forall|i: int|
            0 <= i < self.points@.len() ==> in_region(
                self.lo,
                self.hi,
                (#[trigger] self.points@[i]).coords,
            )
        &&& match self.subquads {
            None => self.points@.len() <= 2 || diag_sq(self.lo, self.hi) < MIN_QUAD_DIM_SQUARED,
            Some(sq) => {
                let m = mid_point(self.lo, self.hi);
                &&& self.points@.len() == 0
                &&& diag_sq(self.lo, self.hi) >= MIN_QUAD_DIM_SQUARED
                &&& self.points_ms().len() >= 3
                &&& forall|p: PairedPoints|
                    #[trigger] sq.q0.points_ms().contains(p) ==> quadrant_of(
                        self.lo,
                        self.hi,
                        p.coords,
                    ) == 0
                &&& forall|p: PairedPoints|
                    #[trigger] sq.q1.points_ms().contains(p) ==> quadrant_of(
                        self.lo,
                        self.hi,
                        p.coords,
                    ) == 1
                &&& forall|p: PairedPoints|
                    #[trigger] sq.q2.points_ms().contains(p) ==> quadrant_of(
                        self.lo,
                        self.hi,
                        p.coords,
                    ) == 2
                &&& forall|p: PairedPoints|
                    #[trigger] sq.q3.points_ms().contains(p) ==> quadrant_of(
                        self.lo,
                        self.hi,
                        p.coords,
                    ) == 3
                &&& sq.q0.lo == self.lo
                &&& sq.q0.hi == m
                &&& sq.q1.lo == (Point2 { x: self.lo.x, y: m.y })
                &&& sq.q1.hi == (Point2 { x: m.x, y: self.hi.y })
                &&& sq.q2.lo == m
                &&& sq.q2.hi == self.hi
                &&& sq.q3.lo == (Point2 { x: m.x, y: self.lo.y })
                &&& sq.q3.hi == (Point2 { x: self.hi.x, y: m.y })
                &&& sq.q0.wf()
                &&& sq.q1.wf()
                &&& sq.q2.wf()
                &&& sq.q3.wf()
            },
        }
    }

    /// Everything the tree holds, over all its leaves.
    pub open spec fn points_ms(self) -> Multiset<PairedPoints>
        decreases self,
    {
        match self.subquads {
            None => self.points@.to_multiset(),
            Some(sq) => self.points@.to_multiset().add(sq.q0.points_ms()).add(
                sq.q1.points_ms(),
            ).add(sq.q2.points_ms()).add(sq.q3.points_ms()),
        }
    }

    /// An empty leaf covering the region `[dim[0], dim[1]]`.
    pub fn new(dim: [Point2; 2]) -> (t: Self)
        requires
            dim[0].x <= dim[1].x,
            dim[0].y <= dim[1].y,
        ensures
            t.wf(),
            t.lo == dim[0],
            t.hi == dim[1],
            t.subquads.is_none(),
            t.points@.len() == 0,
            t.points_ms() == Multiset::<PairedPoints>::empty(),
    {
        let t = QuadTree { lo: dim[0], hi: dim[1], subquads: None, points: Vec::new() };
        proof {
            broadcast use group_to_multiset_ensures;

            assert(t.points@.to_multiset() =~= Multiset::<PairedPoints>::empty());
        }
        t
    }

    /// Return which subquadrant the point belongs to, by the documented
    /// quadrant convention.
    pub fn calc_quadrant(&self, data: &Point2) -> (q: usize)
        requires
            self.region_wf(),
        ensures
            q == quadrant_of(self.lo, self.hi, *data),
            q < 4,
    {
        let mx = mid_exec(self.lo.x, self.hi.x);
        let my = mid_exec(self.lo.y, self.hi.y);
        if data.x < mx {
            if data.y < my {
                0
            } else {
                1
            }
        } else {
            if data.y < my {
                3
            } else {
                2
            }
        }
    }
}

/// The midpoint of a region lies within it, and splitting there loses no
/// coordinate to rounding.
pub proof fn lemma_mid_in_region(lo: Point2, hi: Point2)
    requires
        lo.x <= hi.x,
        lo.y <= hi.y,
    ensures
        lo.x <= mid_point(lo, hi).x <= hi.x,
        lo.y <= mid_point(lo, hi).y <= hi.y,
        mid_point(lo, hi).x == mid_coord(lo.x as int, hi.x as int),
        mid_point(lo, hi).y == mid_coord(lo.y as int, hi.y as int),
{
    assert(0 <= (hi.x - lo.x) / 2 <= hi.x - lo.x);
    assert(0 <= (hi.y - lo.y) / 2 <= hi.y - lo.y);
}

/// A point of the region lies within the subquadrant that [`quadrant_of`]
/// assigns to it.
pub proof fn lemma_quadrant_containment(lo: Point2, hi: Point2, p: Point2)
    requires
        lo.x <= hi.x,
        lo.y <= hi.y,
        in_region(lo, hi, p),
    ensures
        quadrant_of(lo, hi, p) == 0 ==> in_region(lo, mid_point(lo, hi), p),
        quadrant_of(lo, hi, p) == 1 ==> in_region(
            Point2 { x: lo.x, y: mid_point(lo, hi).y },
            Point2 { x: mid_point(lo, hi).x, y: hi.y },
            p,
        ),
        quadrant_of(lo, hi, p) == 2 ==> in_region(mid_point(lo, hi), hi, p),
        quadrant_of(lo, hi, p) == 3 ==> in_region(
            Point2 { x: mid_point(lo, hi).x, y: lo.y },
            Point2 { x: hi.x, y: mid_point(lo, hi).y },
            p,
        ),
{
    lemma_mid_in_region(lo, hi);
}

/// Once a region is large enough to split, every subquadrant has a strictly
/// smaller extent sum than the whole: subdivision terminates.
pub proof fn lemma_split_decreases(lo: Point2, hi: Point2)
    requires
        lo.x <= hi.x,
        lo.y <= hi.y,
        diag_sq(lo, hi) >= MIN_QUAD_DIM_SQUARED,
    ensures
        (mid_point(lo, hi).x - lo.x) + (mid_point(lo, hi).y - lo.y) < (hi.x - lo.x) + (hi.y
            - lo.y),
        (mid_point(lo, hi).x - lo.x) + (hi.y - mid_point(lo, hi).y) < (hi.x - lo.x) + (hi.y
            - lo.y),
        (hi.x - mid_point(lo, hi).x) + (hi.y - mid_point(lo, hi).y) < (hi.x - lo.x) + (hi.y
            - lo.y),
        (hi.x - mid_point(lo, hi).x) + (mid_point(lo, hi).y - lo.y) < (hi.x - lo.x) + (hi.y
            - lo.y),
{
    lemma_mid_in_region(lo, hi);
    let ex = hi.x - lo.x;
    let ey = hi.y - lo.y;
    assert(ex <= 1 && ey <= 1 ==> ex * ex + ey * ey <= 2) by (nonlinear_arith)
        requires
            0 <= ex,
            0 <= ey;
    assert(ex >= 2 ==> 1 <= ex / 2 <= ex - 1);
    assert(ey >= 2 ==> 1 <= ey / 2 <= ey - 1);
}

impl QuadTree {
    /// Place a point into the tree. A leaf takes up to two points directly;
    /// a third forces the leaf to split into four subquadrants and push
    /// every point down, unless the region's squared diagonal is already
    /// below [`MIN_QUAD_DIM_SQUARED`], where the leaf simply grows.
    #[verifier::loop_isolation(false)]
    pub fn insert(&mut self, data: PairedPoints)
        requires
            old(self).wf(),
            in_region(old(self).lo, old(self).hi, data.coords),
        ensures
            final(self).wf(),
            final(self).lo == old(self).lo,
            final(self).hi == old(self).hi,
            final(self).points_ms() == old(self).points_ms().insert(data),
        decreases (old(self).hi.x - old(self).lo.x) + (old(self).hi.y - old(self).lo.y),
    {
        broadcast use group_to_multiset_ensures;

        let small = diag_sq_exec(self.lo, self.hi) < MIN_QUAD_DIM_SQUARED;
        if (self.subquads.is_none() && self.points.len() < 2) || small {
            proof {
                assert(self.subquads.is_none());
            }
            self.points.push(data);
            proof {
                assert(self.points_ms() =~= old(self).points_ms().insert(data));
            }
        } else {
            proof {
                lemma_mid_in_region(self.lo, self.hi);
                lemma_split_decreases(self.lo, self.hi);
            }
            let mut sq: Box<SubQuads>;
            if self.subquads.is_none() {
                let m_x = mid_exec(self.lo.x, self.hi.x);
                let m_y = mid_exec(self.lo.y, self.hi.y);
                sq = Box::new(
                    SubQuads {
                        q0: QuadTree::new([self.lo, Point2 { x: m_x, y: m_y }]),
                        q1: QuadTree::new(
                            [Point2 { x: self.lo.x, y: m_y }, Point2 { x: m_x, y: self.hi.y }],
                        ),
                        q2: QuadTree::new([Point2 { x: m_x, y: m_y }, self.hi]),
                        q3: QuadTree::new(
                            [Point2 { x: m_x, y: self.lo.y }, Point2 { x: self.hi.x, y: m_y }],
                        ),
                    },
                );
                let ghost orig_points = self.points@;
                proof {
                    assert(sq.q0.points_ms().add(sq.q1.points_ms()).add(sq.q2.points_ms()).add(
                        sq.q3.points_ms(),
                    ).add(self.points@.to_multiset()) =~= orig_points.to_multiset());
                }
                while self.points.len() > 0
                    invariant
                        self.lo == old(self).lo,
                        self.hi == old(self).hi,
                        self.subquads.is_none(),
                        sq.q0.lo == self.lo,
                        sq.q0.hi == mid_point(self.lo, self.hi),
                        sq.q1.lo == (Point2 { x: self.lo.x, y: mid_point(self.lo, self.hi).y }),
                        sq.q1.hi == (Point2 { x: mid_point(self.lo, self.hi).x, y: self.hi.y }),
                        sq.q2.lo == mid_point(self.lo, self.hi),
                        sq.q2.hi == self.hi,
                        sq.q3.lo == (Point2 { x: mid_point(self.lo, self.hi).x, y: self.lo.y }),
                        sq.q3.hi == (Point2 { x: self.hi.x, y: mid_point(self.lo, self.hi).y }),
                        sq.q0.wf(),
                        sq.q1.wf(),
                        sq.q2.wf(),
                        sq.q3.wf(),
                        forall|x: PairedPoints|
                            #[trigger] sq.q0.points_ms().contains(x) ==> quadrant_of(
                                self.lo,
                                self.hi,
                                x.coords,
                            ) == 0,
                        forall|x: PairedPoints|
                            #[trigger] sq.q1.points_ms().contains(x) ==> quadrant_of(
                                self.lo,
                                self.hi,
                                x.coords,
                            ) == 1,
                        forall|x: PairedPoints|
                            #[trigger] sq.q2.points_ms().contains(x) ==> quadrant_of(
                                self.lo,
                                self.hi,
                                x.coords,
                            ) == 2,
                        forall|x: PairedPoints|
                            #[trigger] sq.q3.points_ms().contains(x) ==> quadrant_of(
                                self.lo,
                                self.hi,
                                x.coords,
                            ) == 3,
                        forall|i: int|
                            0 <= i < self.points@.len() ==> in_region(
                                self.lo,
                                self.hi,
                                (#[trigger] self.points@[i]).coords,
                            ),
                        sq.q0.points_ms().add(sq.q1.points_ms()).add(sq.q2.points_ms()).add(
                            sq.q3.points_ms(),
                        ).add(self.points@.to_multiset()) == orig_points.to_multiset(),
                    decreases self.points.len(),
                {
                    let ghost points_before = self.points@;
                    let p = self.points.pop().unwrap();
                    proof {
                        assert(points_before.remove(points_before.len() - 1)
                            =~= points_before.subrange(0, points_before.len() - 1));
                        assert(self.points@.to_multiset() =~= points_before.to_multiset().remove(
                            p,
                        ));
                        assert(points_before.to_multiset().count(p) > 0);
                        lemma_quadrant_containment(self.lo, self.hi, p.coords);
                    }
                    let ghost ms_before = sq.q0.points_ms().add(sq.q1.points_ms()).add(
                        sq.q2.points_ms(),
                    ).add(sq.q3.points_ms());
                    let ghost prev0 = sq.q0.points_ms();
                    let ghost prev1 = sq.q1.points_ms();
                    let ghost prev2 = sq.q2.points_ms();
                    let ghost prev3 = sq.q3.points_ms();
                    let q = self.calc_quadrant(&p.coords);
                    if q == 0 {
                        sq.q0.insert(p);
                        proof {
                            assert forall|x: PairedPoints| #[trigger]
                                sq.q0.points_ms().contains(x) implies quadrant_of(
                                self.lo,
                                self.hi,
                                x.coords,
                            ) == 0 by {
                                if x != p {
                                    assert(prev0.contains(x));
                                }
                            }
                        }
                    } else if q == 1 {
                        sq.q1.insert(p);
                        proof {
                            assert forall|x: PairedPoints| #[trigger]
                                sq.q1.points_ms().contains(x) implies quadrant_of(
                                self.lo,
                                self.hi,
                                x.coords,
                            ) == 1 by {
                                if x != p {
                                    assert(prev1.contains(x));
                                }
                            }
                        }
                    } else if q == 2 {
                        sq.q2.insert(p);
                        proof {
                            assert forall|x: PairedPoints| #[trigger]
                                sq.q2.points_ms().contains(x) implies quadrant_of(
                                self.lo,
                                self.hi,
                                x.coords,
                            ) == 2 by {
                                if x != p {
                                    assert(prev2.contains(x));
                                }
                            }
                        }
                    } else {
                        sq.q3.insert(p);
                        proof {
                            assert forall|x: PairedPoints| #[trigger]
                                sq.q3.points_ms().contains(x) implies quadrant_of(
                                self.lo,
                                self.hi,
                                x.coords,
                            ) == 3 by {
                                if x != p {
                                    assert(prev3.contains(x));
                                }
                            }
                        }
                    }
                    proof {
                        assert(sq.q0.points_ms().add(sq.q1.points_ms()).add(
                            sq.q2.points_ms(),
                        ).add(sq.q3.points_ms()) =~= ms_before.insert(p));
                        assert(ms_before.insert(p).add(self.points@.to_multiset())
                            =~= ms_before.add(points_before.to_multiset()));
                    }
                }
                proof {
                    assert(self.points@.to_multiset() =~= Multiset::<PairedPoints>::empty());
                    assert(sq.q0.points_ms().add(sq.q1.points_ms()).add(sq.q2.points_ms()).add(
                        sq.q3.points_ms(),
                    ) =~= orig_points.to_multiset());
                }
            } else {
                sq = self.subquads.take().unwrap();
            }
            let ghost ms_children = sq.q0.points_ms().add(sq.q1.points_ms()).add(
                sq.q2.points_ms(),
            ).add(sq.q3.points_ms());
            proof {
                assert(ms_children =~= old(self).points_ms());
                lemma_quadrant_containment(self.lo, self.hi, data.coords);
            }
            let ghost prev0 = sq.q0.points_ms();
            let ghost prev1 = sq.q1.points_ms();
            let ghost prev2 = sq.q2.points_ms();
            let ghost prev3 = sq.q3.points_ms();
            let qd = self.calc_quadrant(&data.coords);
            if qd == 0 {
                sq.q0.insert(data);
                proof {
                    assert forall|x: PairedPoints| #[trigger]
                        sq.q0.points_ms().contains(x) implies quadrant_of(
                        self.lo,
                        self.hi,
                        x.coords,
                    ) == 0 by {
                        if x != data {
                            assert(prev0.contains(x));
                        }
                    }
                }
            } else if qd == 1 {
                sq.q1.insert(data);
                proof {
                    assert forall|x: PairedPoints| #[trigger]
                        sq.q1.points_ms().contains(x) implies quadrant_of(
                        self.lo,
                        self.hi,
                        x.coords,
                    ) == 1 by {
                        if x != data {
                            assert(prev1.contains(x));
                        }
                    }
                }
            } else if qd == 2 {
                sq.q2.insert(data);
                proof {
                    assert forall|x: PairedPoints| #[trigger]
                        sq.q2.points_ms().contains(x) implies quadrant_of(
                        self.lo,
                        self.hi,
                        x.coords,
                    ) == 2 by {
                        if x != data {
                            assert(prev2.contains(x));
                        }
                    }
                }
            } else {
                sq.q3.insert(data);
                proof {
                    assert forall|x: PairedPoints| #[trigger]
                        sq.q3.points_ms().contains(x) implies quadrant_of(
                        self.lo,
                        self.hi,
                        x.coords,
                    ) == 3 by {
                        if x != data {
                            assert(prev3.contains(x));
                        }
                    }
                }
            }
            self.subquads = Some(sq);
            proof {
                assert(self.points_ms() =~= old(self).points_ms().insert(data));
                assert(self.points_ms().len() == old(self).points_ms().len() + 1);
                if old(self).subquads.is_none() {
                    assert(old(self).points@.len() >= 2);
                    assert(old(self).points_ms().len() >= 2);
                }
            }
        }
    }
}

/// Midpoint of one axis, rounded down, without overflow.
fn mid_exec(lo: i32, hi: i32) -> (m: i32)
    requires
        lo <= hi,
    ensures
        m as int == mid_coord(lo as int, hi as int),
        lo <= m <= hi,
{
    let ext: u64 = (hi as i64 - lo as i64) as u64;
    let half: u64 = ext / 2;
    (lo as i64 + half as i64) as i32
}

/// Squared diagonal of the region `[lo, hi]`, without overflow.
fn diag_sq_exec(lo: Point2, hi: Point2) -> (d: u128)
    requires
        lo.x <= hi.x,
        lo.y <= hi.y,
    ensures
        d as int == diag_sq(lo, hi),
{
    let dx: u64 = (hi.x as i64 - lo.x as i64) as u64;
    let dy: u64 = (hi.y as i64 - lo.y as i64) as u64;
    proof {
        assert((dx as int) * (dx as int) + (dy as int) * (dy as int)
            < 0x1_0000_0000_0000_0000_0000_0000_0000_0000int) by (nonlinear_arith)
            requires
                0 <= dx < 0x1_0000_0000,
                0 <= dy < 0x1_0000_0000;
    }
    (dx as u128) * (dx as u128) + (dy as u128) * (dy as u128)
}

/// Squared distance between two plane points, without overflow.
fn dist_sq_exec(a: Point2, b: Point2) -> (d: u128)
    ensures
        d as int == dist_sq(a, b),
{
    let mx: u64 = if a.x >= b.x {
        (a.x as i64 - b.x as i64) as u64
    } else {
        (b.x as i64 - a.x as i64) as u64
    };
    let my: u64 = if a.y >= b.y {
        (a.y as i64 - b.y as i64) as u64
    } else {
        (b.y as i64 - a.y as i64) as u64
    };
    proof {
        assert((mx as int) * (mx as int) + (my as int) * (my as int)
            < 0x1_0000_0000_0000_0000_0000_0000_0000_0000int) by (nonlinear_arith)
            requires
                0 <= mx < 0x1_0000_0000,
                0 <= my < 0x1_0000_0000;
        assert((mx as int) * (mx as int) == (a.x - b.x) * (a.x - b.x)) by (nonlinear_arith)
            requires
                mx == (if a.x >= b.x {
                    a.x - b.x
                } else {
                    b.x - a.x
                });
        assert((my as int) * (my as int) == (a.y - b.y) * (a.y - b.y)) by (nonlinear_arith)
            requires
                my == (if a.y >= b.y {
                    a.y - b.y
                } else {
                    b.y - a.y
                });
    }
    (mx as u128) * (mx as u128) + (my as u128) * (my as u128)
}

/// Scan a degenerate leaf for the eligible point nearest to `query`:
/// never the excluded id, never a visited point, smallest squared distance,
/// and among equal distances the lowest index. `None` exactly when the leaf
/// has no eligible point.
#[verifier::loop_isolation(false)]
pub fn nearest_in_leaf(
    points: &Vec<PairedPoints>,
    query: Point2,
    exclude_id: usize,
    visited: &Vec<bool>,
) -> (r: Option<usize>)
    requires
        forall|i: int| 0 <= i < points@.len() ==> (#[trigger] points@[i]).id < visited@.len(),
    ensures
        r == (match best_upto(points@, query, exclude_id, visited@, points@.len() as int) {
            Some(i) => Some(points@[i].id),
            None => None::<usize>,
        }),
        match r {
            Some(id) => exists|i: int|
                {
                    &&& 0 <= i < points@.len()
                    &&& (#[trigger] points@[i]).id == id
                    &&& eligible(points@[i], exclude_id, visited@)
                    &&& forall|j: int|
                        0 <= j < points@.len() && eligible(
                            #[trigger] points@[j],
                            exclude_id,
                            visited@,
                        ) ==> dist_sq(query, points@[i].coords) <= dist_sq(query, points@[j].coords)
                    &&& forall|j: int|
                        0 <= j < i && eligible(#[trigger] points@[j], exclude_id, visited@)
                            ==> dist_sq(query, points@[i].coords) < dist_sq(query, points@[j].coords)
                },
            None => forall|j: int|
                0 <= j < points@.len() ==> !eligible(#[trigger] points@[j], exclude_id, visited@),
        },
{
    let mut best: Option<usize> = None;
    let mut best_dist: u128 = 0;
    let mut i: usize = 0;
    while i < points.len()
        invariant
            i <= points@.len(),
            match best {
                None => {
                    &&& best_upto(points@, query, exclude_id, visited@, i as int) == None::<int>
                    &&& forall|j: int|
                        0 <= j < i ==> !eligible(#[trigger] points@[j], exclude_id, visited@)
                },
                Some(bi) => {
                    &&& best_upto(points@, query, exclude_id, visited@, i as int) == Some(bi as int)
                    &&& bi < i
                    &&& eligible(points@[bi as int], exclude_id, visited@)
                    &&& best_dist as int == dist_sq(query, points@[bi as int].coords)
                    &&& forall|j: int|
                        0 <= j < i && eligible(#[trigger] points@[j], exclude_id, visited@)
                            ==> (best_dist as int) <= dist_sq(query, points@[j].coords)
                    &&& forall|j: int|
                        0 <= j < bi && eligible(#[trigger] points@[j], exclude_id, visited@)
                            ==> (best_dist as int) < dist_sq(query, points@[j].coords)
                },
            },
        decreases points@.len() - i,
    {
        let p = points[i];
        if p.id != exclude_id && !visited[p.id] {
            let d = dist_sq_exec(query, p.coords);
            match best {
                None => {
                    best = Some(i);
                    best_dist = d;
                },
                Some(_) => {
                    if d < best_dist {
                        best = Some(i);
                        best_dist = d;
                    }
                },
            }
        }
        i += 1;
    }
    match best {
        Some(bi) => Some(points[bi].id),
        None => None,
    }
}

impl QuadTree {
    /// Find the point the walk should step to next, given the partner
    /// record `data` of the point just consumed: descend into the
    /// subquadrant holding `data`'s coordinates down to a leaf, and hand
    /// out that leaf's choice — in a clean two-point leaf the first of the
    /// pair that is neither `data` itself nor visited, in any other leaf
    /// the nearest unvisited point, lowest index on distance ties. Fails
    /// exactly when the reached leaf has no eligible point.
    pub fn get_neighboring_point(&self, data: &PairedPoints, tracked_points: &Vec<bool>) -> (r:
        Result<usize, SliceError>)
        requires
            self.wf(),
            forall|p: PairedPoints|
                #[trigger] self.points_ms().contains(p) ==> p.id < tracked_points@.len(),
        ensures
            r == (match leaf_choice(
                descend_leaf(*self, data.coords).points@,
                data.coords,
                data.id,
                tracked_points@,
            ) {
                Some(id) => Ok::<usize, SliceError>(id),
                None => Err::<usize, SliceError>(SliceError::NoEligibleNeighbor),
            }),
            r matches Ok(id) ==> id != data.id && id < tracked_points@.len()
                && !tracked_points@[id as int] && exists|p: PairedPoints|
                #[trigger] self.points_ms().contains(p) && p.id == id,
        decreases self,
    {
        broadcast use group_to_multiset_ensures;

        match &self.subquads {
            Some(sq) => {
                proof {
                    assert forall|p: PairedPoints| #[trigger]
                        sq.q0.points_ms().contains(p) implies self.points_ms().contains(p) by {
                        assert(self.points_ms().count(p) >= sq.q0.points_ms().count(p));
                    }
                    assert forall|p: PairedPoints| #[trigger]
                        sq.q1.points_ms().contains(p) implies self.points_ms().contains(p) by {
                        assert(self.points_ms().count(p) >= sq.q1.points_ms().count(p));
                    }
                    assert forall|p: PairedPoints| #[trigger]
                        sq.q2.points_ms().contains(p) implies self.points_ms().contains(p) by {
                        assert(self.points_ms().count(p) >= sq.q2.points_ms().count(p));
                    }
                    assert forall|p: PairedPoints| #[trigger]
                        sq.q3.points_ms().contains(p) implies self.points_ms().contains(p) by {
                        assert(self.points_ms().count(p) >= sq.q3.points_ms().count(p));
                    }
                }
                let q = self.calc_quadrant(&data.coords);
                let r = if q == 0 {
                    proof {
                        assert(descend_leaf(*self, data.coords) == descend_leaf(
                            sq.q0,
                            data.coords,
                        ));
                    }
                    sq.q0.get_neighboring_point(data, tracked_points)
                } else if q == 1 {
                    proof {
                        assert(descend_leaf(*self, data.coords) == descend_leaf(
                            sq.q1,
                            data.coords,
                        ));
                    }
                    sq.q1.get_neighboring_point(data, tracked_points)
                } else if q == 2 {
                    proof {
                        assert(descend_leaf(*self, data.coords) == descend_leaf(
                            sq.q2,
                            data.coords,
                        ));
                    }
                    sq.q2.get_neighboring_point(data, tracked_points)
                } else {
                    proof {
                        assert(descend_leaf(*self, data.coords) == descend_leaf(
                            sq.q3,
                            data.coords,
                        ));
                    }
                    sq.q3.get_neighboring_point(data, tracked_points)
                };
                proof {
                    if let Ok(id) = r {
                        if q == 0 {
                            let p = choose|p: PairedPoints| #[trigger]
                                sq.q0.points_ms().contains(p) && p.id == id;
                            assert(self.points_ms().contains(p));
                        } else if q == 1 {
                            let p = choose|p: PairedPoints| #[trigger]
                                sq.q1.points_ms().contains(p) && p.id == id;
                            assert(self.points_ms().contains(p));
                        } else if q == 2 {
                            let p = choose|p: PairedPoints| #[trigger]
                                sq.q2.points_ms().contains(p) && p.id == id;
                            assert(self.points_ms().contains(p));
                        } else {
                            let p = choose|p: PairedPoints| #[trigger]
                                sq.q3.points_ms().contains(p) && p.id == id;
                            assert(self.points_ms().contains(p));
                        }
                    }
                }
                r
            },
            None => {
                if self.points.len() == 2 {
                    let p0 = self.points[0];
                    let p1 = self.points[1];
                    proof {
                        assert(self.points@.contains(self.points@[0]));
                        assert(self.points@.contains(self.points@[1]));
                        assert(self.points_ms().contains(self.points@[0]));
                        assert(self.points_ms().contains(self.points@[1]));
                        assert(descend_leaf(*self, data.coords) == *self);
                    }
                    if p0.id != data.id && !tracked_points[p0.id] {
                        Ok(p0.id)
                    } else if p1.id != data.id && !tracked_points[p1.id] {
                        Ok(p1.id)
                    } else {
                        Err(SliceError::NoEligibleNeighbor)
                    }
                } else {
                    proof {
                        assert forall|i: int| 0 <= i < self.points@.len() implies (
                        #[trigger] self.points@[i]).id < tracked_points@.len() by {
                            assert(self.points@.contains(self.points@[i]));
                            assert(self.points_ms().contains(self.points@[i]));
                        }
                    }
                    proof {
                        assert(descend_leaf(*self, data.coords) == *self);
                    }
                    match nearest_in_leaf(&self.points, data.coords, data.id, tracked_points) {
                        Some(id) => {
                            proof {
                                let i = choose|i: int|
                                    {
                                        &&& 0 <= i < self.points@.len()
                                        &&& (#[trigger] self.points@[i]).id == id
                                        &&& eligible(self.points@[i], data.id, tracked_points@)
                                    };
                                assert(self.points@.contains(self.points@[i]));
                                assert(self.points_ms().contains(self.points@[i]));
                            }
                            Ok(id)
                        },
                        None => Err(SliceError::NoEligibleNeighbor),
                    }
                }
            },
        }
    }
}

/// Law: whatever a well-formed tree holds lies within the tree's root
/// region — every point sits inside the region of the leaf holding it, and
/// every leaf's region nests inside its ancestors'.
pub proof fn lemma_held_points_in_region(t: QuadTree)
    requires
        t.wf(),
    ensures
        forall|p: PairedPoints|
            #[trigger] t.points_ms().contains(p) ==> in_region(t.lo, t.hi, p.coords),
    decreases t,
{
    broadcast use group_to_multiset_ensures;

    match t.subquads {
        None => {
            assert forall|p: PairedPoints| #[trigger]
                t.points_ms().contains(p) implies in_region(t.lo, t.hi, p.coords) by {
                assert(t.points@.contains(p));
                let i = choose|i: int| 0 <= i < t.points@.len() && t.points@[i] == p;
                assert(in_region(t.lo, t.hi, t.points@[i].coords));
            }
        },
        Some(sq) => {
            lemma_mid_in_region(t.lo, t.hi);
            lemma_held_points_in_region(sq.q0);
            lemma_held_points_in_region(sq.q1);
            lemma_held_points_in_region(sq.q2);
            lemma_held_points_in_region(sq.q3);
            assert forall|p: PairedPoints| #[trigger]
                t.points_ms().contains(p) implies in_region(t.lo, t.hi, p.coords) by {
                assert(t.points_ms().count(p) == t.points@.to_multiset().count(p)
                    + sq.q0.points_ms().count(p) + sq.q1.points_ms().count(p)
                    + sq.q2.points_ms().count(p) + sq.q3.points_ms().count(p));
                assert(t.points@.to_multiset().count(p) == 0);
                assert(sq.q0.points_ms().contains(p) || sq.q1.points_ms().contains(p)
                    || sq.q2.points_ms().contains(p) || sq.q3.points_ms().contains(p));
            }
        },
    }
}

/// Two trees have the same structure: equal regions, the same held
/// multiset at every node, and identically structured children — only the
/// order of a leaf's point list may differ.
pub open spec fn same_shape(a: QuadTree, b: QuadTree) -> bool
    decreases a,
{
    &&& a.lo == b.lo
    &&& a.hi == b.hi
    &&& a.points@.to_multiset() == b.points@.to_multiset()
    &&& match (a.subquads, b.subquads) {
        (None, None) => true,
        (Some(x), Some(y)) => {
            &&& same_shape(x.q0, y.q0)
            &&& same_shape(x.q1, y.q1)
            &&& same_shape(x.q2, y.q2)
            &&& same_shape(x.q3, y.q3)
        },
        _ => false,
    }
}

/// Law: a tree's structure is a function of its region and of the multiset
/// of points it holds. Two well-formed trees over the same region holding
/// the same points — built by inserting them in any two orders — are
/// node-for-node identical; only leaf-internal order may differ.
pub proof fn lemma_structure_canonical(a: QuadTree, b: QuadTree)
    requires
        a.wf(),
        b.wf(),
        a.lo == b.lo,
        a.hi == b.hi,
        a.points_ms() == b.points_ms(),
    ensures
        same_shape(a, b),
    decreases a,
{
    broadcast use group_to_multiset_ensures;

    match (a.subquads, b.subquads) {
        (None, None) => {
        },
        (Some(x), Some(y)) => {
            assert(a.points@.to_multiset() =~= b.points@.to_multiset());
            assert forall|p: PairedPoints|
                true implies #[trigger] x.q0.points_ms().count(p) == y.q0.points_ms().count(
                p,
            ) by {
                assert(a.points_ms().count(p) == a.points@.to_multiset().count(p)
                    + x.q0.points_ms().count(p) + x.q1.points_ms().count(p)
                    + x.q2.points_ms().count(p) + x.q3.points_ms().count(p));
                assert(b.points_ms().count(p) == b.points@.to_multiset().count(p)
                    + y.q0.points_ms().count(p) + y.q1.points_ms().count(p)
                    + y.q2.points_ms().count(p) + y.q3.points_ms().count(p));
                assert(!a.points@.contains(p) && !b.points@.contains(p));
                assert(a.points@.to_multiset().count(p) == 0);
                assert(b.points@.to_multiset().count(p) == 0);
                let k = quadrant_of(a.lo, a.hi, p.coords);
                if k != 0 {
                    assert(!x.q0.points_ms().contains(p) && !y.q0.points_ms().contains(p));
                    assert(x.q0.points_ms().count(p) == 0 && y.q0.points_ms().count(p) == 0);
                }
                if k != 1 {
                    assert(!x.q1.points_ms().contains(p) && !y.q1.points_ms().contains(p));
                    assert(x.q1.points_ms().count(p) == 0 && y.q1.points_ms().count(p) == 0);
                }
                if k != 2 {
                    assert(!x.q2.points_ms().contains(p) && !y.q2.points_ms().contains(p));
                    assert(x.q2.points_ms().count(p) == 0 && y.q2.points_ms().count(p) == 0);
                }
                if k != 3 {
                    assert(!x.q3.points_ms().contains(p) && !y.q3.points_ms().contains(p));
                    assert(x.q3.points_ms().count(p) == 0 && y.q3.points_ms().count(p) == 0);
                }
                assert(a.points_ms().count(p) == b.points_ms().count(p));
            }
            assert forall|p: PairedPoints|
                true implies #[trigger] x.q1.points_ms().count(p) == y.q1.points_ms().count(
                p,
            ) by {
                assert(a.points_ms().count(p) == a.points@.to_multiset().count(p)
                    + x.q0.points_ms().count(p) + x.q1.points_ms().count(p)
                    + x.q2.points_ms().count(p) + x.q3.points_ms().count(p));
                assert(b.points_ms().count(p) == b.points@.to_multiset().count(p)
                    + y.q0.points_ms().count(p) + y.q1.points_ms().count(p)
                    + y.q2.points_ms().count(p) + y.q3.points_ms().count(p));
                assert(!a.points@.contains(p) && !b.points@.contains(p));
                assert(a.points@.to_multiset().count(p) == 0);
                assert(b.points@.to_multiset().count(p) == 0);
                let k = quadrant_of(a.lo, a.hi, p.coords);
                if k != 0 {
                    assert(!x.q0.points_ms().contains(p) && !y.q0.points_ms().contains(p));
                    assert(x.q0.points_ms().count(p) == 0 && y.q0.points_ms().count(p) == 0);
                }
                if k != 1 {
                    assert(!x.q1.points_ms().contains(p) && !y.q1.points_ms().contains(p));
                    assert(x.q1.points_ms().count(p) == 0 && y.q1.points_ms().count(p) == 0);
                }
                if k != 2 {
                    assert(!x.q2.points_ms().contains(p) && !y.q2.points_ms().contains(p));
                    assert(x.q2.points_ms().count(p) == 0 && y.q2.points_ms().count(p) == 0);
                }
                if k != 3 {
                    assert(!x.q3.points_ms().contains(p) && !y.q3.points_ms().contains(p));
                    assert(x.q3.points_ms().count(p) == 0 && y.q3.points_ms().count(p) == 0);
                }
                assert(a.points_ms().count(p) == b.points_ms().count(p));
            }
            assert forall|p: PairedPoints|
                true implies #[trigger] x.q2.points_ms().count(p) == y.q2.points_ms().count(
                p,
            ) by {
                assert(a.points_ms().count(p) == a.points@.to_multiset().count(p)
                    + x.q0.points_ms().count(p) + x.q1.points_ms().count(p)
                    + x.q2.points_ms().count(p) + x.q3.points_ms().count(p));
                assert(b.points_ms().count(p) == b.points@.to_multiset().count(p)
                    + y.q0.points_ms().count(p) + y.q1.points_ms().count(p)
                    + y.q2.points_ms().count(p) + y.q3.points_ms().count(p));
                assert(!a.points@.contains(p) && !b.points@.contains(p));
                assert(a.points@.to_multiset().count(p) == 0);
                assert(b.points@.to_multiset().count(p) == 0);
                let k = quadrant_of(a.lo, a.hi, p.coords);
                if k != 0 {
                    assert(!x.q0.points_ms().contains(p) && !y.q0.points_ms().contains(p));
                    assert(x.q0.points_ms().count(p) == 0 && y.q0.points_ms().count(p) == 0);
                }
                if k != 1 {
                    assert(!x.q1.points_ms().contains(p) && !y.q1.points_ms().contains(p));
                    assert(x.q1.points_ms().count(p) == 0 && y.q1.points_ms().count(p) == 0);
                }
                if k != 2 {
                    assert(!x.q2.points_ms().contains(p) && !y.q2.points_ms().contains(p));
                    assert(x.q2.points_ms().count(p) == 0 && y.q2.points_ms().count(p) == 0);
                }
                if k != 3 {
                    assert(!x.q3.points_ms().contains(p) && !y.q3.points_ms().contains(p));
                    assert(x.q3.points_ms().count(p) == 0 && y.q3.points_ms().count(p) == 0);
                }
                assert(a.points_ms().count(p) == b.points_ms().count(p));
            }
            assert forall|p: PairedPoints|
                true implies #[trigger] x.q3.points_ms().count(p) == y.q3.points_ms().count(
                p,
            ) by {
                assert(a.points_ms().count(p) == a.points@.to_multiset().count(p)
                    + x.q0.points_ms().count(p) + x.q1.points_ms().count(p)
                    + x.q2.points_ms().count(p) + x.q3.points_ms().count(p));
                assert(b.points_ms().count(p) == b.points@.to_multiset().count(p)
                    + y.q0.points_ms().count(p) + y.q1.points_ms().count(p)
                    + y.q2.points_ms().count(p) + y.q3.points_ms().count(p));
                assert(!a.points@.contains(p) && !b.points@.contains(p));
                assert(a.points@.to_multiset().count(p) == 0);
                assert(b.points@.to_multiset().count(p) == 0);
                let k = quadrant_of(a.lo, a.hi, p.coords);
                if k != 0 {
                    assert(!x.q0.points_ms().contains(p) && !y.q0.points_ms().contains(p));
                    assert(x.q0.points_ms().count(p) == 0 && y.q0.points_ms().count(p) == 0);
                }
                if k != 1 {
                    assert(!x.q1.points_ms().contains(p) && !y.q1.points_ms().contains(p));
                    assert(x.q1.points_ms().count(p) == 0 && y.q1.points_ms().count(p) == 0);
                }
                if k != 2 {
                    assert(!x.q2.points_ms().contains(p) && !y.q2.points_ms().contains(p));
                    assert(x.q2.points_ms().count(p) == 0 && y.q2.points_ms().count(p) == 0);
                }
                if k != 3 {
                    assert(!x.q3.points_ms().contains(p) && !y.q3.points_ms().contains(p));
                    assert(x.q3.points_ms().count(p) == 0 && y.q3.points_ms().count(p) == 0);
                }
                assert(a.points_ms().count(p) == b.points_ms().count(p));
            }
            assert(x.q0.points_ms() =~= y.q0.points_ms());
            assert(x.q1.points_ms() =~= y.q1.points_ms());
            assert(x.q2.points_ms() =~= y.q2.points_ms());
            assert(x.q3.points_ms() =~= y.q3.points_ms());
            lemma_structure_canonical(x.q0, y.q0);
            lemma_structure_canonical(x.q1, y.q1);
            lemma_structure_canonical(x.q2, y.q2);
            lemma_structure_canonical(x.q3, y.q3);
        },
        (Some(x), None) => {
            assert(b.points_ms().len() >= 3);
            assert(b.points@.len() >= 3);
            assert(false);
        },
        (None, Some(y)) => {
            assert(a.points_ms().len() >= 3);
            assert(a.points@.len() >= 3);
            assert(false);
        },
    }
}

/// Law: a well-formed leaf holds at most two points unless its region's
/// squared diagonal is below the subdivision threshold.
pub proof fn lemma_leaf_capacity(t: QuadTree)
    requires
        t.wf(),
        t.subquads.is_none(),
    ensures
        t.points@.len() <= 2 || diag_sq(t.lo, t.hi) < MIN_QUAD_DIM_SQUARED,
{
}

/// Every subtree of a well-formed internal node is well-formed, so the
/// capacity law applies at every leaf of a well-formed tree.
pub proof fn lemma_subquads_wf(t: QuadTree)
    requires
        t.wf(),
        t.subquads.is_some(),
    ensures
        t.subquads.unwrap().q0.wf(),
        t.subquads.unwrap().q1.wf(),
        t.subquads.unwrap().q2.wf(),
        t.subquads.unwrap().q3.wf(),
{
}

} // verus!

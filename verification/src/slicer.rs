//! The slicing pipeline: from mesh triangles to an ordered contour.
//!
//! This is the run a caller makes once per plane height: intersect every
//! triangle, register the endpoints in pairs, index them in a quadtree
//! rooted at the mesh bounding box, and walk the contour reachable from
//! the first endpoint.

use vstd::prelude::*;
use crate::geom::{obj_dimensions, NaTri, Point2};
use crate::intersect::{
    cut_segments, intersect, lemma_cut_segments_in_box, lemma_cut_segments_len,
};
use crate::quadtree::{in_region, PairedPoints, QuadTree};
use crate::registry::PointRegistry;
use vstd::seq_lib::group_to_multiset_ensures;
use crate::walker::{fresh_flags, reconstruct, walk};
use vstd::multiset::Multiset;

verus! {

/// Build the quadtree index holding exactly the registry's records — all
/// of them, each once — rooted at the region `[dim[0], dim[1]]`, which
/// must cover them.
#[verifier::loop_isolation(false)]
pub fn build_index(reg: &PointRegistry, dim: [Point2; 2]) -> (t: QuadTree)
    requires
        reg.wf(),
        dim[0].x <= dim[1].x,
        dim[0].y <= dim[1].y,
        forall|i: int|
            0 <= i < reg@.len() ==> in_region(dim[0], dim[1], (#[trigger] reg@[i]).coords),
    ensures
        t.wf(),
        t.lo == dim[0],
        t.hi == dim[1],
        t.points_ms() == reg@.to_multiset(),
        forall|p: PairedPoints| #[trigger] t.points_ms().contains(p) ==> reg@.contains(p),
        forall|p: PairedPoints| #[trigger] t.points_ms().contains(p) ==> p.id < reg@.len(),
{
    broadcast use group_to_multiset_ensures;

    let mut t = QuadTree::new(dim);
    let n = reg.len();
    let mut i: usize = 0;
    while i < n
        invariant
            i <= n,
            t.wf(),
            t.lo == dim[0],
            t.hi == dim[1],
            t.points_ms() == reg@.take(i as int).to_multiset(),
        decreases n - i,
    {
        let rec = reg.get(i);
        t.insert(rec);
        proof {
            assert(reg@.take(i + 1).drop_last() =~= reg@.take(i as int));
            assert(reg@.take(i + 1) =~= reg@.take(i as int).push(reg@[i as int]));
            assert(reg@.take(i + 1).to_multiset() =~= reg@.take(i as int).to_multiset().insert(
                reg@[i as int],
            ));
        }
        i += 1;
    }
    proof {
        assert(reg@.take(n as int) =~= reg@);
        assert forall|p: PairedPoints| #[trigger] t.points_ms().contains(p) implies reg@.contains(
            p,
        ) && p.id < reg@.len() by {
            assert(reg@.contains(p));
            let j = choose|j: int| 0 <= j < reg@.len() && reg@[j] == p;
            assert(reg@[j].id == j);
        }
    }
    t
}

/// Slice the mesh at `plane_height`: every crossing triangle contributes
/// one segment, the segments' endpoints become the registry's records in
/// order, the quadtree indexes exactly those records, and the returned
/// contour is exactly the walk reachable from record `0` over that index —
/// empty when no triangle crosses the plane.
pub fn slice_at(triangles: &Vec<NaTri>, plane_height: i32) -> (r: (
    PointRegistry,
    QuadTree,
    Vec<usize>,
))
    requires
        triangles@.len() >= 1,
        triangles@.len() * 2 <= usize::MAX,
    ensures
        r.0.wf(),
        r.0@.len() == 2 * cut_segments(triangles@, plane_height as int).len(),
        forall|k: int|
            0 <= k < cut_segments(triangles@, plane_height as int).len() ==> {
                let s = #[trigger] cut_segments(triangles@, plane_height as int)[k];
                &&& r.0@[2 * k].coords == s.vertices[0]
                &&& r.0@[2 * k + 1].coords == s.vertices[1]
                &&& r.0@[2 * k].partner_index == Some((2 * k + 1) as usize)
                &&& r.0@[2 * k + 1].partner_index == Some((2 * k) as usize)
            },
        r.1.wf(),
        r.1.points_ms() == r.0@.to_multiset(),
        r.0@.len() == 0 ==> r.2@.len() == 0,
        r.0@.len() > 0 ==> {
            &&& r.2@ == seq![0usize] + walk(
                r.0@,
                r.1,
                0,
                fresh_flags(r.0@.len() as nat),
                r.0@.len() as nat,
            )
            &&& 1 <= r.2@.len() <= r.0@.len() + 1
            &&& r.2@[0] == 0
            &&& forall|k: int| 0 <= k < r.2@.len() ==> (#[trigger] r.2@[k]) < r.0@.len()
            &&& forall|k: int|
                0 <= k < r.2@.len() - 1 ==> (#[trigger] r.2@[k + 1])
                    != r.0@[r.2@[k] as int].partner_index.unwrap()
            &&& forall|k: int, l: int| 1 <= k < l < r.2@.len() ==> r.2@[k] != r.2@[l]
        },
{
    broadcast use group_to_multiset_ensures;

    let ghost h = plane_height as int;
    let segs = intersect(triangles, plane_height);
    proof {
        lemma_cut_segments_len(triangles@, h);
    }
    let reg = PointRegistry::register_segments(&segs);
    if reg.len() == 0 {
        let empty_index = QuadTree::new([Point2 { x: 0, y: 0 }, Point2 { x: 0, y: 0 }]);
        proof {
            assert(reg@.to_multiset() =~= Multiset::<PairedPoints>::empty());
        }
        return (reg, empty_index, Vec::new());
    }
    let dim = obj_dimensions(triangles);
    let lo = Point2 { x: dim.x_min, y: dim.y_min };
    let hi = Point2 { x: dim.x_max, y: dim.y_max };
    proof {
        lemma_cut_segments_in_box(triangles@, h, dim);
        assert forall|i: int| 0 <= i < reg@.len() implies in_region(
            lo,
            hi,
            (#[trigger] reg@[i]).coords,
        ) by {
            let k = i / 2;
            if i % 2 == 0 {
                assert(i == 2 * k);
                assert(reg@[2 * k].coords == segs@[k].vertices[0]);
            } else {
                assert(i == 2 * k + 1);
                assert(reg@[2 * k + 1].coords == segs@[k].vertices[1]);
            }
        }
    }
    let index = build_index(&reg, [lo, hi]);
    let contour = reconstruct(&reg, &index);
    (reg, index, contour)
}

} // verus!

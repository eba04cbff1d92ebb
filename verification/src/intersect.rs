//! Cutting triangles against the plane.
//!
//! A triangle crosses the cutting plane when its vertices are not
//! unanimously above or below it. A crossing triangle has one vertex (the
//! shared vertex) alone on its side of the plane; the two edges from the
//! shared vertex to the other two vertices each cross the plane once, and
//! the two cut points form one segment.

use vstd::prelude::*;
use vstd::arithmetic::div_mod::{lemma_div_pos_is_pos, lemma_multiply_divide_le};
use vstd::arithmetic::mul::{lemma_mul_inequality, lemma_mul_nonnegative, lemma_mul_upper_bound};
use crate::geom::{DirLine, NaTri, Point2, Point3};

verus! {

/// The vertex counts as above the plane (ties at the plane count as above).
pub open spec fn above(v: Point3, h: int) -> bool {
    v.z >= h
}

/// How many of the triangle's vertices are above the plane.
pub open spec fn n_above(t: NaTri, h: int) -> int {
    (if above(t.vertices[0], h) {
        1int
    } else {
        0int
    }) + (if above(t.vertices[1], h) {
        1int
    } else {
        0int
    }) + (if above(t.vertices[2], h) {
        1int
    } else {
        0int
    })
}

/// The triangle crosses the plane: its vertices straddle it.
pub open spec fn tri_crosses(t: NaTri, h: int) -> bool {
    1 <= n_above(t, h) <= 2
}

/// Index of the shared vertex: the one whose side differs from both others.
/// Meaningful only for crossing triangles, where it exists and is unique.
pub open spec fn shared_index(t: NaTri, h: int) -> int {
    if above(t.vertices[0], h) != above(t.vertices[1], h) && above(t.vertices[0], h) != above(
        t.vertices[2],
        h,
    ) {
        0
    } else if above(t.vertices[1], h) != above(t.vertices[0], h) && above(t.vertices[1], h)
        != above(t.vertices[2], h) {
        1
    } else {
        2
    }
}

/// The two non-shared vertices, in the order the cut walks them.
pub open spec fn other_indices(t: NaTri, h: int) -> (int, int) {
    if shared_index(t, h) == 0 {
        (1int, 2int)
    } else if shared_index(t, h) == 1 {
        (0int, 2int)
    } else {
        (1int, 0int)
    }
}

/// Numerator of the cut parameter along the edge shared -> other, arranged
/// to be non-negative.
pub open spec fn cut_num(s: Point3, h: int) -> int {
    if s.z >= h {
        s.z - h
    } else {
        h - s.z
    }
}

/// Denominator of the cut parameter along the edge shared -> other, arranged
/// to be positive whenever the endpoints straddle the plane.
pub open spec fn cut_den(s: Point3, o: Point3, h: int) -> int {
    if s.z >= h {
        s.z - o.z
    } else {
        o.z - s.z
    }
}

/// Fixed-point interpolation from `base` toward `target` by `num / den`,
/// rounding the travelled distance down.
pub open spec fn lerp_coord(base: int, target: int, num: int, den: int) -> int {
    if target >= base {
        base + (num * (target - base)) / den
    } else {
        base - (num * (base - target)) / den
    }
}

/// Where the edge shared -> other meets the plane, projected to x and y.
pub open spec fn cut_point(s: Point3, o: Point3, h: int) -> Point2 {
    Point2 {
        x: lerp_coord(s.x as int, o.x as int, cut_num(s, h), cut_den(s, o, h)) as i32,
        y: lerp_coord(s.y as int, o.y as int, cut_num(s, h), cut_den(s, o, h)) as i32,
    }
}

/// The one segment a crossing triangle contributes: the cut points of the
/// two edges from the shared vertex, carrying the triangle normal's plane
/// projection.
pub open spec fn tri_cut_segment(t: NaTri, h: int) -> DirLine {
    let s = t.vertices[shared_index(t, h)];
    let o0 = t.vertices[other_indices(t, h).0];
    let o1 = t.vertices[other_indices(t, h).1];
    DirLine {
        normal: Point2 { x: t.normal.x, y: t.normal.y },
        vertices: [cut_point(s, o0, h), cut_point(s, o1, h)],
    }
}

/// All segments the mesh contributes at height `h`, one per crossing
/// triangle, in mesh order.
pub open spec fn cut_segments(ts: Seq<NaTri>, h: int) -> Seq<DirLine>
    decreases ts.len(),
{
    if ts.len() == 0 {
        Seq::empty()
    } else {
        cut_segments(ts.drop_last(), h) + (if tri_crosses(ts.last(), h) {
            seq![tri_cut_segment(ts.last(), h)]
        } else {
            Seq::empty()
        })
    }
}

/// The interpolated coordinate stays between `base` and `target` whenever
/// the fraction `num / den` is proper.
pub proof fn lemma_lerp_bounds(base: int, target: int, num: int, den: int)
    requires
        0 <= num,
        num <= den,
        1 <= den,
    ensures
        target >= base ==> base <= lerp_coord(base, target, num, den) <= target,
        target < base ==> target <= lerp_coord(base, target, num, den) <= base,
{
    if target >= base {
        let diff = target - base;
        lemma_mul_nonnegative(num, diff);
        lemma_div_pos_is_pos(num * diff, den);
        lemma_mul_inequality(num, den, diff);
        lemma_multiply_divide_le(num * diff, den, diff);
    } else {
        let diff = base - target;
        lemma_mul_nonnegative(num, diff);
        lemma_div_pos_is_pos(num * diff, den);
        lemma_mul_inequality(num, den, diff);
        lemma_multiply_divide_le(num * diff, den, diff);
    }
}

/// On an edge whose endpoints straddle the plane, the cut parameter is a
/// proper fraction with a positive denominator: the division in the
/// interpolation is always defined.
pub proof fn lemma_cut_param_bounds(s: Point3, o: Point3, h: int)
    requires
        above(s, h) != above(o, h),
    ensures
        1 <= cut_den(s, o, h),
        0 <= cut_num(s, h),
        cut_num(s, h) <= cut_den(s, o, h),
{
}

/// Both coordinates of a cut point lie between the corresponding
/// coordinates of the edge's endpoints, and the cut parameter solves the
/// plane equation exactly: `s.z + (num / den) * (o.z - s.z) == h` as
/// rationals.
pub proof fn lemma_cut_point_on_edge(s: Point3, o: Point3, h: int)
    requires
        above(s, h) != above(o, h),
    ensures
        s.x <= o.x ==> s.x <= cut_point(s, o, h).x <= o.x,
        o.x < s.x ==> o.x <= cut_point(s, o, h).x <= s.x,
        s.y <= o.y ==> s.y <= cut_point(s, o, h).y <= o.y,
        o.y < s.y ==> o.y <= cut_point(s, o, h).y <= s.y,
        cut_num(s, h) * (o.z - s.z) == (h - s.z) * cut_den(s, o, h),
{
    lemma_cut_param_bounds(s, o, h);
    lemma_lerp_bounds(s.x as int, o.x as int, cut_num(s, h), cut_den(s, o, h));
    lemma_lerp_bounds(s.y as int, o.y as int, cut_num(s, h), cut_den(s, o, h));
    if s.z >= h {
        assert((s.z - h) * (o.z - s.z) == (h - s.z) * (s.z - o.z)) by (nonlinear_arith);
    } else {
        assert((h - s.z) * (o.z - s.z) == (h - s.z) * (o.z - s.z)) by (nonlinear_arith);
    }
}

/// In a crossing triangle the shared vertex exists: the vertex picked by
/// [`shared_index`] sits on the other side of the plane from both others.
pub proof fn lemma_shared_vertex_sides(t: NaTri, h: int)
    requires
        tri_crosses(t, h),
    ensures
        0 <= shared_index(t, h) < 3,
        0 <= other_indices(t, h).0 < 3,
        0 <= other_indices(t, h).1 < 3,
        above(t.vertices[shared_index(t, h)], h) != above(t.vertices[other_indices(t, h).0], h),
        above(t.vertices[shared_index(t, h)], h) != above(t.vertices[other_indices(t, h).1], h),
{
    let c0 = above(t.vertices[0], h);
    let c1 = above(t.vertices[1], h);
    let c2 = above(t.vertices[2], h);
    assert(!(c0 == c1 && c1 == c2));
}

/// No segment reaches outside the bounding box of the mesh: every cut
/// point's coordinates lie between the box's plane bounds.
pub proof fn lemma_cut_segments_in_box(ts: Seq<NaTri>, h: int, dim: crate::geom::Dimensions)
    requires
        forall|i: int, j: int|
            0 <= i < ts.len() && 0 <= j < 3 ==> dim.covers(
                #[trigger] crate::geom::mesh_vertex(ts, i, j),
            ),
    ensures
        forall|si: int, vi: int|
            0 <= si < cut_segments(ts, h).len() && 0 <= vi < 2 ==> {
                let p = #[trigger] cut_segments(ts, h)[si].vertices[vi];
                &&& dim.x_min <= p.x <= dim.x_max
                &&& dim.y_min <= p.y <= dim.y_max
            },
    decreases ts.len(),
{
    if ts.len() > 0 {
        let prefix = ts.drop_last();
        assert forall|i: int, j: int|
            0 <= i < prefix.len() && 0 <= j < 3 implies dim.covers(
            #[trigger] crate::geom::mesh_vertex(prefix, i, j),
        ) by {
            assert(crate::geom::mesh_vertex(prefix, i, j) == crate::geom::mesh_vertex(ts, i, j));
        }
        lemma_cut_segments_in_box(prefix, h, dim);
        let t = ts.last();
        if tri_crosses(t, h) {
            lemma_shared_vertex_sides(t, h);
            let sh = shared_index(t, h);
            let oi0 = other_indices(t, h).0;
            let oi1 = other_indices(t, h).1;
            assert(dim.covers(crate::geom::mesh_vertex(ts, ts.len() - 1, sh)));
            assert(dim.covers(crate::geom::mesh_vertex(ts, ts.len() - 1, oi0)));
            assert(dim.covers(crate::geom::mesh_vertex(ts, ts.len() - 1, oi1)));
            lemma_cut_point_on_edge(t.vertices[sh], t.vertices[oi0], h);
            lemma_cut_point_on_edge(t.vertices[sh], t.vertices[oi1], h);
        }
        assert forall|si: int, vi: int|
            0 <= si < cut_segments(ts, h).len() && 0 <= vi < 2 implies {
            let p = #[trigger] cut_segments(ts, h)[si].vertices[vi];
            &&& dim.x_min <= p.x <= dim.x_max
            &&& dim.y_min <= p.y <= dim.y_max
        } by {
            if si < cut_segments(prefix, h).len() {
                assert(cut_segments(ts, h)[si] == cut_segments(prefix, h)[si]);
                let q = cut_segments(prefix, h)[si].vertices[vi];
                assert(dim.x_min <= q.x <= dim.x_max && dim.y_min <= q.y <= dim.y_max);
            } else {
                assert(tri_crosses(t, h));
                assert(cut_segments(ts, h)[si] == tri_cut_segment(t, h));
            }
        }
    }
}

/// A mesh contributes at most one segment per triangle.
pub proof fn lemma_cut_segments_len(ts: Seq<NaTri>, h: int)
    ensures
        cut_segments(ts, h).len() <= ts.len(),
    decreases ts.len(),
{
    if ts.len() > 0 {
        lemma_cut_segments_len(ts.drop_last(), h);
    }
}

/// Interpolate from `base` toward `target` by the proper fraction
/// `num / den`, in integer arithmetic.
pub(crate) fn lerp_exec(base: i32, target: i32, num: u64, den: u64) -> (r: i32)
    requires
        1 <= den,
        num <= den,
    ensures
        r as int == lerp_coord(base as int, target as int, num as int, den as int),
{
    proof {
        lemma_lerp_bounds(base as int, target as int, num as int, den as int);
    }
    if target >= base {
        let diff: u64 = (target as i64 - base as i64) as u64;
        proof {
            lemma_mul_upper_bound(num as int, u64::MAX as int, diff as int, u64::MAX as int);
        }
        let prod: u128 = (num as u128) * (diff as u128);
        proof {
            lemma_mul_nonnegative(num as int, diff as int);
            lemma_div_pos_is_pos(num as int * diff as int, den as int);
            lemma_mul_inequality(num as int, den as int, diff as int);
            lemma_multiply_divide_le(num as int * diff as int, den as int, diff as int);
        }
        let q: u64 = (prod / (den as u128)) as u64;
        (base as i64 + q as i64) as i32
    } else {
        let diff: u64 = (base as i64 - target as i64) as u64;
        proof {
            lemma_mul_upper_bound(num as int, u64::MAX as int, diff as int, u64::MAX as int);
        }
        let prod: u128 = (num as u128) * (diff as u128);
        proof {
            lemma_mul_nonnegative(num as int, diff as int);
            lemma_div_pos_is_pos(num as int * diff as int, den as int);
            lemma_mul_inequality(num as int, den as int, diff as int);
            lemma_multiply_divide_le(num as int * diff as int, den as int, diff as int);
        }
        let q: u64 = (prod / (den as u128)) as u64;
        (base as i64 - q as i64) as i32
    }
}

/// Where the edge from `s` to `o` meets the plane at `plane_height`,
/// projected to the plane.
pub fn edge_cut_point(s: Point3, o: Point3, plane_height: i32) -> (p: Point2)
    requires
        above(s, plane_height as int) != above(o, plane_height as int),
    ensures
        p == cut_point(s, o, plane_height as int),
{
    proof {
        lemma_cut_param_bounds(s, o, plane_height as int);
    }
    let num: u64;
    let den: u64;
    if s.z >= plane_height {
        num = (s.z as i64 - plane_height as i64) as u64;
        den = (s.z as i64 - o.z as i64) as u64;
    } else {
        num = (plane_height as i64 - s.z as i64) as u64;
        den = (o.z as i64 - s.z as i64) as u64;
    }
    let x = lerp_exec(s.x, o.x, num, den);
    let y = lerp_exec(s.y, o.y, num, den);
    proof {
        lemma_lerp_bounds(s.x as int, o.x as int, num as int, den as int);
        lemma_lerp_bounds(s.y as int, o.y as int, num as int, den as int);
    }
    Point2 { x, y }
}

/// Appending a segment list step by step follows the recursion of
/// [`cut_segments`].
pub proof fn lemma_cut_segments_take_step(ts: Seq<NaTri>, h: int, i: int)
    requires
        0 <= i < ts.len(),
    ensures
        cut_segments(ts.take(i + 1), h) == cut_segments(ts.take(i), h) + (if tri_crosses(
            ts[i],
            h,
        ) {
            seq![tri_cut_segment(ts[i], h)]
        } else {
            Seq::<DirLine>::empty()
        }),
{
    assert(ts.take(i + 1).drop_last() =~= ts.take(i));
    assert(ts.take(i + 1).last() == ts[i]);
}

/// A triangle whose vertices are unanimously above or unanimously below the
/// plane contributes no segment.
pub proof fn lemma_non_crossing_adds_no_segment(ts: Seq<NaTri>, t: NaTri, h: int)
    requires
        (forall|j: int| 0 <= j < 3 ==> above(#[trigger] t.vertices[j], h)) || (forall|j: int|
            0 <= j < 3 ==> !above(#[trigger] t.vertices[j], h)),
    ensures
        !tri_crosses(t, h),
        cut_segments(ts.push(t), h) == cut_segments(ts, h),
{
    assert(above(t.vertices[0], h) == above(t.vertices[1], h) && above(t.vertices[1], h) == above(
        t.vertices[2],
        h,
    ));
    assert(ts.push(t).drop_last() =~= ts);
    assert(ts.push(t).last() == t);
    assert(cut_segments(ts, h) + Seq::<DirLine>::empty() =~= cut_segments(ts, h));
}

/// A crossing triangle contributes exactly one segment, appended in mesh
/// order.
pub proof fn lemma_crossing_adds_one_segment(ts: Seq<NaTri>, t: NaTri, h: int)
    requires
        tri_crosses(t, h),
    ensures
        cut_segments(ts.push(t), h) == cut_segments(ts, h).push(tri_cut_segment(t, h)),
{
    assert(ts.push(t).drop_last() =~= ts);
    assert(ts.push(t).last() == t);
    assert(cut_segments(ts, h) + seq![tri_cut_segment(t, h)] =~= cut_segments(ts, h).push(
        tri_cut_segment(t, h),
    ));
}

/// Cut every triangle of the mesh against the plane at `plane_height`:
/// every crossing triangle yields exactly one segment, every other triangle
/// yields nothing, in mesh order.
pub fn intersect(triangles: &Vec<NaTri>, plane_height: i32) -> (segs: Vec<DirLine>)
    ensures
        segs@ == cut_segments(triangles@, plane_height as int),
{
    let ghost h = plane_height as int;
    let mut segs: Vec<DirLine> = Vec::new();
    let n = triangles.len();
    let mut i: usize = 0;
    while i < n
        invariant
            n == triangles@.len(),
            i <= n,
            segs@ == cut_segments(triangles@.take(i as int), h),
            h == plane_height as int,
        decreases n - i,
    {
        let t = triangles[i];
        let c0 = t.vertices[0].z >= plane_height;
        let c1 = t.vertices[1].z >= plane_height;
        let c2 = t.vertices[2].z >= plane_height;
        proof {
            assert(c0 == above(t.vertices[0], h));
            assert(c1 == above(t.vertices[1], h));
            assert(c2 == above(t.vertices[2], h));
            lemma_cut_segments_take_step(triangles@, h, i as int);
        }
        if c0 != c1 || c0 != c2 {
            // The triangle crosses the plane: pick the shared vertex, the
            // one alone on its side.
            let shared: Point3;
            let other0: Point3;
            let other1: Point3;
            if c0 != c1 && c0 != c2 {
                shared = t.vertices[0];
                other0 = t.vertices[1];
                other1 = t.vertices[2];
            } else if c1 != c0 && c1 != c2 {
                shared = t.vertices[1];
                other0 = t.vertices[0];
                other1 = t.vertices[2];
            } else {
                shared = t.vertices[2];
                other0 = t.vertices[1];
                other1 = t.vertices[0];
            }
            let p0 = edge_cut_point(shared, other0, plane_height);
            let p1 = edge_cut_point(shared, other1, plane_height);
            let seg = DirLine { normal: Point2 { x: t.normal.x, y: t.normal.y }, vertices: [p0, p1] };
            proof {
                assert(seg == tri_cut_segment(t, h));
            }
            segs.push(seg);
            proof {
                assert(segs@ =~= cut_segments(triangles@.take(i as int), h) + seq![
                    tri_cut_segment(t, h),
                ]);
            }
        } else {
            proof {
                assert(!tri_crosses(t, h));
                assert(cut_segments(triangles@.take(i as int), h) + Seq::<DirLine>::empty()
                    =~= cut_segments(triangles@.take(i as int), h));
            }
        }
        i += 1;
    }
    proof {
        assert(triangles@.take(n as int) =~= triangles@);
    }
    segs
}

} // verus!

use rslice::geom::{NaTri, Point3};
use rslice::intersect::intersect;

fn tri(v0: (i32, i32, i32), v1: (i32, i32, i32), v2: (i32, i32, i32)) -> NaTri {
    NaTri {
        normal: Point3 { x: 0, y: 0, z: 1000 },
        vertices: [
            Point3 { x: v0.0, y: v0.1, z: v0.2 },
            Point3 { x: v1.0, y: v1.1, z: v1.2 },
            Point3 { x: v2.0, y: v2.1, z: v2.2 },
        ],
    }
}

#[test]
fn all_above_yields_no_segment() {
    let triangles = vec![tri((0, 0, 2000), (1000, 0, 3000), (0, 1000, 2500))];
    let segs = intersect(&triangles, 1000);
    assert_eq!(segs.len(), 0);
}

#[test]
fn all_below_yields_no_segment() {
    let triangles = vec![tri((0, 0, 0), (1000, 0, 500), (0, 1000, 200))];
    let segs = intersect(&triangles, 1000);
    assert_eq!(segs.len(), 0);
}

#[test]
fn one_vertex_above_yields_one_segment_on_its_edges() {
    // The lone above-vertex is the third one; the two cut points lie on
    // the edges from it to the two below-vertices, halfway up.
    let triangles = vec![tri((0, 0, 0), (2000, 0, 0), (0, 0, 2000))];
    let segs = intersect(&triangles, 1000);
    assert_eq!(segs.len(), 1);
    // Shared vertex (0, 0, 2000); edges walked in the order (v1, v0).
    assert_eq!(segs[0].vertices[0].x, 1000);
    assert_eq!(segs[0].vertices[0].y, 0);
    assert_eq!(segs[0].vertices[1].x, 0);
    assert_eq!(segs[0].vertices[1].y, 0);
    // The segment carries the plane projection of the triangle's normal.
    assert_eq!(segs[0].normal.x, 0);
    assert_eq!(segs[0].normal.y, 0);
}

#[test]
fn two_vertices_above_yields_one_segment() {
    // The lone below-vertex is the first one.
    let triangles = vec![tri((0, 0, 0), (2000, 0, 2000), (0, 2000, 2000))];
    let segs = intersect(&triangles, 1000);
    assert_eq!(segs.len(), 1);
    // Shared vertex (0, 0, 0); edges walked in the order (v1, v2).
    assert_eq!(segs[0].vertices[0].x, 1000);
    assert_eq!(segs[0].vertices[0].y, 0);
    assert_eq!(segs[0].vertices[1].x, 0);
    assert_eq!(segs[0].vertices[1].y, 1000);
}

#[test]
fn vertex_exactly_on_plane_counts_as_above() {
    // One vertex exactly at the plane height, the others below: the
    // classification is 'at or above', so the triangle counts as crossing
    // and both cut points collapse onto the on-plane vertex.
    let triangles = vec![tri((500, 700, 1000), (0, 0, 0), (2000, 0, 0))];
    let segs = intersect(&triangles, 1000);
    assert_eq!(segs.len(), 1);
    assert_eq!(segs[0].vertices[0].x, 500);
    assert_eq!(segs[0].vertices[0].y, 700);
    assert_eq!(segs[0].vertices[1].x, 500);
    assert_eq!(segs[0].vertices[1].y, 700);
}

#[test]
fn mixed_mesh_yields_one_segment_per_crossing_triangle() {
    let triangles = vec![
        tri((0, 0, 2000), (1000, 0, 3000), (0, 1000, 2500)),
        tri((0, 0, 0), (2000, 0, 0), (0, 0, 2000)),
        tri((0, 0, 0), (1000, 0, 500), (0, 1000, 200)),
        tri((0, 0, 0), (2000, 0, 2000), (0, 2000, 2000)),
    ];
    let segs = intersect(&triangles, 1000);
    assert_eq!(segs.len(), 2);
}

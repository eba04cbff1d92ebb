use rslice::geom::{DirLine, NaTri, Point2, Point3};
use rslice::raster::{draw_line, IMAGE_SIZE};
use rslice::geom::{obj_dimensions, Dimensions};
use rslice::registry::PointRegistry;
use rslice::slicer::{build_index, slice_at};
use rslice::walker::{contour_points, reconstruct};

fn seg(x0: i32, y0: i32, x1: i32, y1: i32) -> DirLine {
    DirLine {
        normal: Point2 { x: 0, y: 0 },
        vertices: [Point2 { x: x0, y: y0 }, Point2 { x: x1, y: y1 }],
    }
}

#[test]
fn registry_pairs_are_mutual() {
    let segs = vec![seg(0, 0, 1000, 0), seg(1000, 0, 1000, 1000)];
    let reg = PointRegistry::register_segments(&segs);
    assert_eq!(reg.len(), 4);
    for id in 0..reg.len() {
        let r = reg.get(id);
        assert_eq!(r.id, id);
        let partner = r.partner_index.unwrap();
        assert_eq!(reg.get(partner).partner_index.unwrap(), r.id);
    }
    assert_eq!(reg.get(0).coords, Point2 { x: 0, y: 0 });
    assert_eq!(reg.get(1).coords, Point2 { x: 1000, y: 0 });
    assert_eq!(reg.get(0).partner_index, Some(1));
    assert_eq!(reg.get(1).partner_index, Some(0));
    assert_eq!(reg.get(2).partner_index, Some(3));
    assert_eq!(reg.get(3).partner_index, Some(2));
}

#[test]
fn single_segment_walk_closes_immediately() {
    let segs = vec![seg(0, 0, 1000, 0)];
    let reg = PointRegistry::register_segments(&segs);
    let index = build_index(&reg, [Point2 { x: 0, y: 0 }, Point2 { x: 1000, y: 0 }]);
    let contour = reconstruct(&reg, &index);
    // The partner's leaf holds only its own segment pair, so the walk returns
    // to its start at once: a closed two-entry contour.
    assert_eq!(contour, vec![0, 0]);
}

fn quad(
    a: (i32, i32, i32),
    b: (i32, i32, i32),
    c: (i32, i32, i32),
    d: (i32, i32, i32),
) -> [NaTri; 2] {
    let p = |v: (i32, i32, i32)| Point3 { x: v.0, y: v.1, z: v.2 };
    let n = Point3 { x: 0, y: 0, z: 0 };
    [
        NaTri { normal: n, vertices: [p(a), p(b), p(c)] },
        NaTri { normal: n, vertices: [p(a), p(c), p(d)] },
    ]
}

/// The twelve triangles of the axis-aligned cube `[0, s]^3`.
fn cube(s: i32) -> Vec<NaTri> {
    let mut tris: Vec<NaTri> = Vec::new();
    // bottom (z = 0) and top (z = s)
    tris.extend(quad((0, 0, 0), (s, 0, 0), (s, s, 0), (0, s, 0)));
    tris.extend(quad((0, 0, s), (s, 0, s), (s, s, s), (0, s, s)));
    // front (y = 0) and back (y = s)
    tris.extend(quad((0, 0, 0), (s, 0, 0), (s, 0, s), (0, 0, s)));
    tris.extend(quad((0, s, 0), (s, s, 0), (s, s, s), (0, s, s)));
    // left (x = 0) and right (x = s)
    tris.extend(quad((0, 0, 0), (0, s, 0), (0, s, s), (0, 0, s)));
    tris.extend(quad((s, 0, 0), (s, 0, s), (s, s, s), (s, s, 0)));
    tris
}

#[test]
fn cube_sliced_at_mid_height_gives_one_closed_square_contour() {
    let s = 1000;
    let triangles = cube(s);
    assert_eq!(triangles.len(), 12);
    let (reg, _index, contour) = slice_at(&triangles, 500);
    // Eight crossing triangles (both top and bottom faces lie fully on one
    // side), so eight segments and sixteen endpoint records.
    assert_eq!(reg.len(), 16);
    // One closed contour: it ends where it began.
    assert!(contour.len() >= 2);
    assert_eq!(*contour.first().unwrap(), 0);
    assert_eq!(*contour.last().unwrap(), 0);
    let poly = contour_points(&reg, &contour);
    // Every walked point lies on the square cross-section's boundary.
    for p in &poly.points {
        let on_x_edge = (p.x == 0 || p.x == s) && 0 <= p.y && p.y <= s;
        let on_y_edge = (p.y == 0 || p.y == s) && 0 <= p.x && p.x <= s;
        assert!(on_x_edge || on_y_edge);
    }
    // The walk traces the full ring: all four square corners appear.
    for corner in [(0, 0), (s, 0), (s, s), (0, s)] {
        assert!(poly.points.iter().any(|p| p.x == corner.0 && p.y == corner.1));
    }
    // Each ring position is visited once: eight steps close the loop.
    assert_eq!(contour.len(), 9);
}

#[test]
fn slice_with_no_crossing_gives_empty_contour() {
    let triangles = cube(1000);
    let (reg, _index, contour) = slice_at(&triangles, 5000);
    assert_eq!(reg.len(), 0);
    assert_eq!(contour.len(), 0);
}

#[test]
fn obj_dimensions_finds_the_bounding_box() {
    let p = |x: i32, y: i32, z: i32| Point3 { x, y, z };
    let n = Point3 { x: 0, y: 0, z: 0 };
    let triangles = vec![
        NaTri { normal: n, vertices: [p(-100, 0, 50), p(200, 30, 0), p(0, -70, 450)] },
        NaTri { normal: n, vertices: [p(10, 400, 50), p(20, 30, -60), p(0, 0, 0)] },
    ];
    let dim = obj_dimensions(&triangles);
    assert_eq!(
        dim,
        Dimensions { x_min: -100, x_max: 200, y_min: -70, y_max: 400, z_min: -60, z_max: 450 }
    );
}

#[test]
fn draw_line_paints_the_first_endpoint_and_nothing_else_changes_color() {
    let dim = Dimensions { x_min: 0, x_max: 1000, y_min: 0, y_max: 1000, z_min: 0, z_max: 1000 };
    let mut data: Vec<u8> = vec![0; IMAGE_SIZE * IMAGE_SIZE];
    let pts = [Point2 { x: 0, y: 0 }, Point2 { x: 1000, y: 1000 }];
    draw_line(&dim, &mut data, pts, 60);
    assert_eq!(data.len(), IMAGE_SIZE * IMAGE_SIZE);
    // The first endpoint's pixel is painted.
    assert_eq!(data[0], 60);
    // Every pixel either kept its old value or took the colour.
    assert!(data.iter().all(|&b| b == 0 || b == 60));
    // The diagonal reaches the pixel just before the far endpoint.
    let px = (999 * 600) / 2000;
    assert_eq!(data[px + px * IMAGE_SIZE], 60);
}

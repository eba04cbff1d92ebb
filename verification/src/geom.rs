//! Fixed-point points, triangles, segments and bounding boxes.

use vstd::prelude::*;

verus! {

/// Number of coordinate steps per mesh unit: coordinates are fixed-point
/// values in thousandths of a mesh unit.
pub const COORD_SCALE: i32 = 1000;

/// A point in the cutting plane, in fixed-point coordinates.
#[derive(Clone, Copy, Debug, PartialEq, Eq, Structural)]
pub struct Point2 {
    pub x: i32,
    pub y: i32,
}

/// A point in 3D mesh space, in fixed-point coordinates.
#[derive(Clone, Copy, Debug, PartialEq, Eq, Structural)]
pub struct Point3 {
    pub x: i32,
    pub y: i32,
    pub z: i32,
}

/// A mesh triangle: a normal vector and three vertices.
///
/// The normal is carried through from the mesh file; the slicing logic never
/// reads it.
#[derive(Clone, Copy, Debug, PartialEq, Eq)]
pub struct NaTri {
    /// Normal vector of the triangle, in fixed-point coordinates.
    pub normal: Point3,
    /// The three vertices of the triangle.
    pub vertices: [Point3; 3],
}

/// One cut segment: where a single triangle crosses the cutting plane.
///
/// The normal preserves the x and y components of the originating triangle's
/// normal, which a later stage may use to orient the boundary.
#[derive(Clone, Copy, Debug, PartialEq, Eq)]
pub struct DirLine {
    /// Plane projection of the originating triangle's normal.
    pub normal: Point2,
    /// The two endpoints of the segment.
    pub vertices: [Point2; 2],
}

/// An ordered run of plane points, as produced by contour reconstruction.
#[derive(Debug)]
pub struct Polygon {
    pub points: Vec<Point2>,
}

/// The axis coordinates of a mesh bounding box's six faces.
#[derive(Clone, Copy, Debug, PartialEq, Eq, Structural)]
pub struct Dimensions {
    pub x_min: i32,
    pub x_max: i32,
    pub y_min: i32,
    pub y_max: i32,
    pub z_min: i32,
    pub z_max: i32,
}

impl Dimensions {
    /// The box has non-empty extent on every axis.
    pub open spec fn wf(self) -> bool {
        self.x_min <= self.x_max && self.y_min <= self.y_max && self.z_min <= self.z_max
    }

    /// The vertex lies inside the box.
    pub open spec fn covers(self, v: Point3) -> bool {
        &&& self.x_min <= v.x <= self.x_max
        &&& self.y_min <= v.y <= self.y_max
        &&& self.z_min <= v.z <= self.z_max
    }
}

/// Vertex `j` of triangle `i` in the mesh.
pub open spec fn mesh_vertex(triangles: Seq<NaTri>, i: int, j: int) -> Point3 {
    triangles[i].vertices[j]
}

/// Return the axis coordinates of the mesh bounding box's six faces: each
/// bound is attained by some vertex, and every vertex lies within the box.
pub fn obj_dimensions(triangle_vec: &Vec<NaTri>) -> (dim: Dimensions)
    requires
        triangle_vec.len() >= 1,
    ensures
        dim.wf(),
        forall|i: int, j: int|
            0 <= i < triangle_vec@.len() && 0 <= j < 3 ==> dim.covers(
                #[trigger] mesh_vertex(triangle_vec@, i, j),
            ),
        exists|i: int, j: int|
            0 <= i < triangle_vec@.len() && 0 <= j < 3 && (#[trigger] mesh_vertex(
                triangle_vec@,
                i,
                j,
            )).x == dim.x_min,
        exists|i: int, j: int|
            0 <= i < triangle_vec@.len() && 0 <= j < 3 && (#[trigger] mesh_vertex(
                triangle_vec@,
                i,
                j,
            )).x == dim.x_max,
        exists|i: int, j: int|
            0 <= i < triangle_vec@.len() && 0 <= j < 3 && (#[trigger] mesh_vertex(
                triangle_vec@,
                i,
                j,
            )).y == dim.y_min,
        exists|i: int, j: int|
            0 <= i < triangle_vec@.len() && 0 <= j < 3 && (#[trigger] mesh_vertex(
                triangle_vec@,
                i,
                j,
            )).y == dim.y_max,
        exists|i: int, j: int|
            0 <= i < triangle_vec@.len() && 0 <= j < 3 && (#[trigger] mesh_vertex(
                triangle_vec@,
                i,
                j,
            )).z == dim.z_min,
        exists|i: int, j: int|
            0 <= i < triangle_vec@.len() && 0 <= j < 3 && (#[trigger] mesh_vertex(
                triangle_vec@,
                i,
                j,
            )).z == dim.z_max,
{
    let first = triangle_vec[0].vertices[0];
    let mut dim = Dimensions {
        x_min: first.x,
        x_max: first.x,
        y_min: first.y,
        y_max: first.y,
        z_min: first.z,
        z_max: first.z,
    };
    assert(mesh_vertex(triangle_vec@, 0, 0) == first);
    let n = triangle_vec.len();
    let mut i: usize = 0;
    while i < n
        invariant
            n == triangle_vec@.len(),
            i <= n,
            n >= 1,
            dim.wf(),
            forall|a: int, b: int|
                0 <= a < i && 0 <= b < 3 ==> dim.covers(#[trigger] mesh_vertex(triangle_vec@, a, b)),
            exists|a: int, b: int|
                0 <= a < n && 0 <= b < 3 && (#[trigger] mesh_vertex(triangle_vec@, a, b)).x
                    == dim.x_min,
            exists|a: int, b: int|
                0 <= a < n && 0 <= b < 3 && (#[trigger] mesh_vertex(triangle_vec@, a, b)).x
                    == dim.x_max,
            exists|a: int, b: int|
                0 <= a < n && 0 <= b < 3 && (#[trigger] mesh_vertex(triangle_vec@, a, b)).y
                    == dim.y_min,
            exists|a: int, b: int|
                0 <= a < n && 0 <= b < 3 && (#[trigger] mesh_vertex(triangle_vec@, a, b)).y
                    == dim.y_max,
            exists|a: int, b: int|
                0 <= a < n && 0 <= b < 3 && (#[trigger] mesh_vertex(triangle_vec@, a, b)).z
                    == dim.z_min,
            exists|a: int, b: int|
                0 <= a < n && 0 <= b < 3 && (#[trigger] mesh_vertex(triangle_vec@, a, b)).z
                    == dim.z_max,
        decreases n - i,
    {
        let mut j: usize = 0;
        while j < 3
            invariant
                n == triangle_vec@.len(),
                i < n,
                j <= 3,
                dim.wf(),
                forall|a: int, b: int|
                    0 <= a < i && 0 <= b < 3 ==> dim.covers(
                        #[trigger] mesh_vertex(triangle_vec@, a, b),
                    ),
                forall|b: int|
                    0 <= b < j ==> dim.covers(#[trigger] mesh_vertex(triangle_vec@, i as int, b)),
                exists|a: int, b: int|
                    0 <= a < n && 0 <= b < 3 && (#[trigger] mesh_vertex(triangle_vec@, a, b)).x
                        == dim.x_min,
                exists|a: int, b: int|
                    0 <= a < n && 0 <= b < 3 && (#[trigger] mesh_vertex(triangle_vec@, a, b)).x
                        == dim.x_max,
                exists|a: int, b: int|
                    0 <= a < n && 0 <= b < 3 && (#[trigger] mesh_vertex(triangle_vec@, a, b)).y
                        == dim.y_min,
                exists|a: int, b: int|
                    0 <= a < n && 0 <= b < 3 && (#[trigger] mesh_vertex(triangle_vec@, a, b)).y
                        == dim.y_max,
                exists|a: int, b: int|
                    0 <= a < n && 0 <= b < 3 && (#[trigger] mesh_vertex(triangle_vec@, a, b)).z
                        == dim.z_min,
                exists|a: int, b: int|
                    0 <= a < n && 0 <= b < 3 && (#[trigger] mesh_vertex(triangle_vec@, a, b)).z
                        == dim.z_max,
            decreases 3 - j,
        {
            let v = triangle_vec[i].vertices[j];
            assert(v == mesh_vertex(triangle_vec@, i as int, j as int));
            if v.x < dim.x_min {
                dim.x_min = v.x;
            }
            if v.x > dim.x_max {
                dim.x_max = v.x;
            }
            if v.y < dim.y_min {
                dim.y_min = v.y;
            }
            if v.y > dim.y_max {
                dim.y_max = v.y;
            }
            if v.z < dim.z_min {
                dim.z_min = v.z;
            }
            if v.z > dim.z_max {
                dim.z_max = v.z;
            }
            j += 1;
        }
        i += 1;
    }
    dim
}

} // verus!

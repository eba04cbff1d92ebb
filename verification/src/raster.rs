//! Drawing cut segments into a fixed-size grayscale pixel buffer.

use vstd::prelude::*;
use vstd::arithmetic::div_mod::{lemma_div_pos_is_pos, lemma_multiply_divide_lt};
use vstd::arithmetic::mul::{lemma_mul_nonnegative, lemma_mul_strict_inequality};
use crate::geom::{Dimensions, Point2, COORD_SCALE};
use crate::intersect::{lerp_coord, lerp_exec, lemma_lerp_bounds};

verus! {

/// Width and height of the output image, in pixels.
pub const IMAGE_SIZE: usize = 600;

/// The scale that maps coordinates onto the image: one coordinate unit
/// more than the larger of the bounding box's upper x and y bounds, so
/// every coordinate of the box lands strictly inside the image.
pub open spec fn multiplier_of(dim: Dimensions) -> int {
    (if dim.x_max > dim.y_max {
        dim.x_max
    } else {
        dim.y_max
    }) + COORD_SCALE
}

/// Pixel row or column of one coordinate under the image scale.
pub open spec fn pixel_of(c: int, multiplier: int) -> int {
    (c * (IMAGE_SIZE as int)) / multiplier
}

/// Index of a point's pixel in the row-major image buffer.
pub open spec fn pix_index(p: Point2, multiplier: int) -> int {
    pixel_of(p.x as int, multiplier) + pixel_of(p.y as int, multiplier) * (IMAGE_SIZE as int)
}

/// The point sampled at one of the thousand evenly spaced interpolation
/// steps along a segment.
pub open spec fn sample_point(pts: [Point2; 2], step: int) -> Point2 {
    Point2 {
        x: lerp_coord(pts[0].x as int, pts[1].x as int, step, 1000) as i32,
        y: lerp_coord(pts[0].y as int, pts[1].y as int, step, 1000) as i32,
    }
}

/// Pixel row or column of one coordinate, without overflow.
fn pixel_exec(c: i32, multiplier: i32) -> (p: usize)
    requires
        0 <= c < multiplier,
    ensures
        p as int == pixel_of(c as int, multiplier as int),
        p < IMAGE_SIZE,
{
    proof {
        lemma_mul_nonnegative(c as int, IMAGE_SIZE as int);
        lemma_div_pos_is_pos(c as int * (IMAGE_SIZE as int), multiplier as int);
        lemma_mul_strict_inequality(c as int, multiplier as int, IMAGE_SIZE as int);
        lemma_multiply_divide_lt(
            c as int * (IMAGE_SIZE as int),
            multiplier as int,
            IMAGE_SIZE as int,
        );
    }
    let v: u64 = (c as u64) * 600;
    (v / (multiplier as u64)) as usize
}

/// Draw the segment between the two points into the row-major pixel
/// buffer: each of one thousand evenly spaced samples along the segment
/// has its pixel painted `color`, and every pixel under no sample keeps
/// its old value.
#[verifier::loop_isolation(false)]
pub fn draw_line(
    obj_dim: &Dimensions,
    data: &mut Vec<u8>,
    intersection_points: [Point2; 2],
    color: u8,
)
    requires
        old(data)@.len() == IMAGE_SIZE * IMAGE_SIZE,
        obj_dim.x_max >= 0,
        obj_dim.y_max >= 0,
        multiplier_of(*obj_dim) <= i32::MAX,
        0 <= intersection_points[0].x <= multiplier_of(*obj_dim) - COORD_SCALE,
        0 <= intersection_points[0].y <= multiplier_of(*obj_dim) - COORD_SCALE,
        0 <= intersection_points[1].x <= multiplier_of(*obj_dim) - COORD_SCALE,
        0 <= intersection_points[1].y <= multiplier_of(*obj_dim) - COORD_SCALE,
    ensures
        final(data)@.len() == old(data)@.len(),
        forall|s: int|
            0 <= s < 1000 ==> {
                let idx = pix_index(
                    #[trigger] sample_point(intersection_points, s),
                    multiplier_of(*obj_dim),
                );
                0 <= idx < final(data)@.len() && final(data)@[idx] == color
            },
        forall|i: int|
            0 <= i < final(data)@.len() && (forall|s: int|
                0 <= s < 1000 ==> i != pix_index(
                    #[trigger] sample_point(intersection_points, s),
                    multiplier_of(*obj_dim),
                )) ==> final(data)@[i] == old(data)@[i],
{
    let multiplier: i32 = if obj_dim.x_max > obj_dim.y_max {
        obj_dim.x_max + COORD_SCALE
    } else {
        obj_dim.y_max + COORD_SCALE
    };
    let p0 = intersection_points[0];
    let p1 = intersection_points[1];
    let mut step: u64 = 0;
    while step < 1000
        invariant
            step <= 1000,
            data@.len() == old(data)@.len(),
            forall|s: int|
                0 <= s < step ==> {
                    let idx = pix_index(
                        #[trigger] sample_point(intersection_points, s),
                        multiplier_of(*obj_dim),
                    );
                    0 <= idx < data@.len() && data@[idx] == color
                },
            forall|i: int|
                0 <= i < data@.len() && (forall|s: int|
                    0 <= s < step ==> i != pix_index(
                        #[trigger] sample_point(intersection_points, s),
                        multiplier_of(*obj_dim),
                    )) ==> data@[i] == old(data)@[i],
        decreases 1000 - step,
    {
        let ghost data_before = data@;
        let x = lerp_exec(p0.x, p1.x, step, 1000);
        let y = lerp_exec(p0.y, p1.y, step, 1000);
        proof {
            lemma_lerp_bounds(p0.x as int, p1.x as int, step as int, 1000);
            lemma_lerp_bounds(p0.y as int, p1.y as int, step as int, 1000);
        }
        let px = pixel_exec(x, multiplier);
        let py = pixel_exec(y, multiplier);
        let idx = px + py * IMAGE_SIZE;
        data[idx] = color;
        proof {
            assert(x == sample_point(intersection_points, step as int).x);
            assert(y == sample_point(intersection_points, step as int).y);
            assert(idx as int == pix_index(
                sample_point(intersection_points, step as int),
                multiplier_of(*obj_dim),
            ));
            assert forall|i: int|
                0 <= i < data@.len() && (forall|s: int|
                    0 <= s < step + 1 ==> i != pix_index(
                        #[trigger] sample_point(intersection_points, s),
                        multiplier_of(*obj_dim),
                    )) implies data@[i] == old(data)@[i] by {
                assert(i != pix_index(
                    sample_point(intersection_points, step as int),
                    multiplier_of(*obj_dim),
                ));
                assert(data@[i] == data_before[i]);
            }
        }
        step += 1;
    }
}

} // verus!

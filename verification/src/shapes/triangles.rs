//! Triangle shape entry points in world coordinates, drawn through the
//! direct fixed-point scanline rasterizer rather than the generic path
//! fill.

use vstd::prelude::*;
use crate::stage::Stage;
use crate::stage::world_x_to_pixel;
use crate::stage::world_y_to_pixel;
use crate::style::Style;
use crate::style::effective_color;
use crate::primitives::triangle::draw_triangle_pxl;
use crate::primitives::triangle::triangle_hits;
use crate::primitives::triangle::triangle_edge_paints;
use crate::arith::sat64;
use crate::arith::sat_i128_to_i64;

verus! {

/// The pixel coordinates of world point `p` on a `w` x `h` stage, or
/// `None` where unrepresentable.
pub open spec fn world_point_pxl(w: int, h: int, p: (int, int)) -> Option<(int, int)> {
    let px = world_x_to_pixel(w, p.0);
    let py = world_y_to_pixel(h, p.1);
    if i32::MIN <= px <= i32::MAX && i32::MIN <= py <= i32::MAX {
        Some((px, py))
    } else {
        None
    }
}

/// Draws a triangle from three world coords (16.16 fixed point): the
/// interior is scan-filled directly (if a fill is present), then the three
/// edges are drawn as single-pixel lines (if a stroke is present). If any
/// vertex is unrepresentable in pixel coordinates the draw is abandoned.
pub fn triangle(
    stage: &mut Stage,
    xy1: (i64, i64),
    xy2: (i64, i64),
    xy3: (i64, i64),
    style: Style,
)
    requires
        old(stage).wf(),
    ensures
        final(stage).wf(),
        final(stage).same_dims(old(stage)),
        forall|xx: int, yy: int|
            final(stage).in_bounds(xx, yy) ==> #[trigger] final(stage).pix(xx, yy) == ({
                let w = old(stage).spec_width();
                let h = old(stage).spec_height();
                let q1 = world_point_pxl(w, h, (xy1.0 as int, xy1.1 as int));
                let q2 = world_point_pxl(w, h, (xy2.0 as int, xy2.1 as int));
                let q3 = world_point_pxl(w, h, (xy3.0 as int, xy3.1 as int));
                if (style.fill is Some || style.stroke is Some) && q1 is Some && q2 is Some
                    && q3 is Some {
                    if style.stroke is Some && triangle_edge_paints(
                        w,
                        h,
                        q1.unwrap(),
                        q2.unwrap(),
                        q3.unwrap(),
                        xx,
                        yy,
                    ) {
                        effective_color(style.stroke.unwrap().color, style.stroke.unwrap().opacity)
                    } else if style.fill is Some && triangle_hits(
                        q1.unwrap(),
                        q2.unwrap(),
                        q3.unwrap(),
                        xx,
                        yy,
                    ) {
                        effective_color(style.fill.unwrap().color, style.fill.unwrap().opacity)
                    } else {
                        old(stage).pix(xx, yy)
                    }
                } else {
                    old(stage).pix(xx, yy)
                }
            }),
{
    if !style.fill_or_stroke_exists() {
        return ;
    }
    let p1 = match stage.world_to_pixel(xy1) {
        Some(p) => p,
        None => {
            return ;
        },
    };
    let p2 = match stage.world_to_pixel(xy2) {
        Some(p) => p,
        None => {
            return ;
        },
    };
    let p3 = match stage.world_to_pixel(xy3) {
        Some(p) => p,
        None => {
            return ;
        },
    };
    draw_triangle_pxl(stage, p1, p2, p3, style);
}

/// The approximation of the square root of three in 16.16 fixed point.
pub const SQRT3_FP: i64 = 113512;

/// The world y-offset from an equilateral triangle's center up to its
/// apex: `side * sqrt(3) / 3`, in 16.16 fixed point.
pub open spec fn apex_dy_fp(side: int) -> int {
    (side * 113512) / 196608
}

/// The world y-offset from an equilateral triangle's center down to its
/// base: `side * sqrt(3) / 6`, in 16.16 fixed point.
pub open spec fn base_dy_fp(side: int) -> int {
    (side * 113512) / 393216
}

/// Draws an equilateral triangle centered on `origin` with the given side
/// length (world units, 16.16 fixed point): the apex above the center and
/// the base below it; a non-positive side length is a silent no-op.
/// Coordinates are held to the 64-bit range.
pub fn equilateral_triangle(stage: &mut Stage, origin: (i64, i64), side_length: i64, style: Style)
    requires
        old(stage).wf(),
    ensures
        final(stage).wf(),
        final(stage).same_dims(old(stage)),
        forall|xx: int, yy: int|
            final(stage).in_bounds(xx, yy) ==> #[trigger] final(stage).pix(xx, yy) == ({
                let w = old(stage).spec_width();
                let h = old(stage).spec_height();
                let xc = origin.0 as int;
                let yc = origin.1 as int;
                let s = side_length as int;
                let v1 = (xc, sat64(yc + apex_dy_fp(s)));
                let v2 = (sat64(xc - s / 2), sat64(yc - base_dy_fp(s)));
                let v3 = (sat64(xc + s / 2), sat64(yc - base_dy_fp(s)));
                let q1 = world_point_pxl(w, h, v1);
                let q2 = world_point_pxl(w, h, v2);
                let q3 = world_point_pxl(w, h, v3);
                if side_length > 0 && (style.fill is Some || style.stroke is Some) && q1 is Some
                    && q2 is Some && q3 is Some {
                    if style.stroke is Some && triangle_edge_paints(
                        w,
                        h,
                        q1.unwrap(),
                        q2.unwrap(),
                        q3.unwrap(),
                        xx,
                        yy,
                    ) {
                        effective_color(style.stroke.unwrap().color, style.stroke.unwrap().opacity)
                    } else if style.fill is Some && triangle_hits(
                        q1.unwrap(),
                        q2.unwrap(),
                        q3.unwrap(),
                        xx,
                        yy,
                    ) {
                        effective_color(style.fill.unwrap().color, style.fill.unwrap().opacity)
                    } else {
                        old(stage).pix(xx, yy)
                    }
                } else {
                    old(stage).pix(xx, yy)
                }
            }),
{
    if side_length <= 0 {
        return ;
    }
    let xc: i64 = origin.0;
    let yc: i64 = origin.1;
    let apex: i128 = (side_length as i128 * 113512) / 196608;
    let base: i128 = (side_length as i128 * 113512) / 393216;
    let y_apex = sat_i128_to_i64(yc as i128 + apex);
    let y_base = sat_i128_to_i64(yc as i128 - base);
    let x_left = sat_i128_to_i64(xc as i128 - (side_length / 2) as i128);
    let x_right = sat_i128_to_i64(xc as i128 + (side_length / 2) as i128);
    triangle(stage, (xc, y_apex), (x_left, y_base), (x_right, y_base), style);
}

} // verus!

//! The circle rasterizer: row-wise squared-distance boundary tracking.
//!
//! For each row offset from the center, three horizontal half-extents
//! (outer, inner, fill) shrink monotonically, each by comparing squared
//! distances against its squared radius — no square root is ever taken at
//! run time. Each row yields a stroke span (the annulus between the inner
//! and outer extents, mirrored left and right) and/or a fill span, applied
//! symmetrically above and below the center.
//!
//! With a stroke of width `w`, the outer radius is the nominal radius plus
//! `ceil(w / 2)` and the inner radius is the nominal radius minus
//! `floor(w / 2)` (floored at 0); the fill stops where the stroke begins.

use vstd::prelude::*;
use crate::stage::Stage;
use crate::style::Style;
use crate::style::Color;
use crate::style::Stroke;
use crate::style::effective_color;
use crate::arith::sqrt_floor;
use crate::arith::lemma_sqrt_floor_bounds;
use crate::arith::lemma_sqrt_floor_unique;
use crate::arith::abs;

verus! {

/// `ceil(w / 2)` in whole pixels, for a stroke width `w` in 16.16 fixed
/// point.
pub open spec fn half_width_out(wfp: int) -> int {
    (wfp + 131071) / 131072
}

/// `floor(w / 2)` in whole pixels, for a stroke width `w` in 16.16 fixed
/// point.
pub open spec fn half_width_in(wfp: int) -> int {
    wfp / 131072
}

/// The outer radius of a circle of nominal radius `r0` stroked with width
/// `wfp`; a zero (invalid) width leaves the radius nominal.
pub open spec fn circle_out_r(r0: int, wfp: int) -> int {
    if wfp == 0 {
        r0
    } else {
        r0 + half_width_out(wfp)
    }
}

/// The inner radius of a circle of nominal radius `r0` stroked with width
/// `wfp`, floored at 0; a zero (invalid) width leaves the radius nominal.
pub open spec fn circle_in_r(r0: int, wfp: int) -> int {
    if wfp == 0 {
        r0
    } else if r0 - half_width_in(wfp) >= 0 {
        r0 - half_width_in(wfp)
    } else {
        0
    }
}

/// The horizontal half-extent of a circle of radius `r` at row offset
/// `dy`: the largest `x` with `x^2 + dy^2 <= r^2`.
pub open spec fn circle_ext(r: int, dy: int) -> int {
    sqrt_floor(r * r - dy * dy)
}

/// The tracked inner extent as the rasterizer reads it at row offset `dy`:
/// the half-extent while the row crosses the inner disk, and -1 (no inner
/// gap) outside it or for a radius of 0.
pub open spec fn circle_row_in_ext(r_in: int, dy: int) -> int {
    if r_in == 0 {
        -1
    } else if abs(dy) <= r_in {
        circle_ext(r_in, abs(dy))
    } else {
        -1
    }
}

/// Whether the stroke annulus of a circle centered at `(xc, yc)` with
/// nominal radius `r0` and stroke width `wfp` covers pixel `(x, y)`:
/// strictly beyond the inner extent, at most the outer extent, on a row
/// crossing the outer disk.
pub open spec fn circle_hits_stroke(
    xc: int,
    yc: int,
    r0: int,
    wfp: int,
    x: int,
    y: int,
) -> bool {
    let r_out = circle_out_r(r0, wfp);
    let r_in = circle_in_r(r0, wfp);
    let dy = abs(y - yc);
    let dx = abs(x - xc);
    dy <= r_out && circle_row_in_ext(r_in, dy) + 1 <= dx <= circle_ext(r_out, dy)
}

/// Whether the fill disk of radius `r_fill` centered at `(xc, yc)` covers
/// pixel `(x, y)`.
pub open spec fn circle_hits_fill(xc: int, yc: int, r_fill: int, x: int, y: int) -> bool {
    let dy = abs(y - yc);
    let dx = abs(x - xc);
    r_fill >= 1 && dy <= r_fill && dx <= circle_ext(r_fill, dy)
}

/// The radius of the filled disk: where both fill and stroke are
/// requested, the fill stops at the inner radius, so it never overwrites
/// the stroke's pixels; with fill alone it is the nominal radius.
pub open spec fn circle_fill_r(r0: int, stroke: Option<Stroke>) -> int {
    match stroke {
        Some(s) => circle_in_r(r0, s.width as int),
        None => r0,
    }
}

/// Squares of values within `2^58` stay within `2^116`.
proof fn lemma_square_in_range(x: int)
    requires
        -0x400000000000000 <= x <= 0x400000000000000,
    ensures
        0 <= x * x <= 0x100000000000000000000000000000,
{
    assert(0 <= x * x <= 0x100000000000000000000000000000) by (nonlinear_arith)
        requires
            -0x400000000000000 <= x <= 0x400000000000000,
    ;
}

/// Lowers one tracked half-extent: decrements `x` (squared value kept in
/// step) while the squared distance at the current row still exceeds the
/// squared radius limit, stopping at 0.
fn shrink_x(x: i64, x2: i128, y2: i128, limit2: i128) -> (r: (i64, i128))
    requires
        0 <= x <= 0x200000000000000,
        x2 == (x as int) * (x as int),
        0 <= y2 <= 0x100000000000000000000000000000,
    ensures
        r.1 == (r.0 as int) * (r.0 as int),
        0 <= r.0 <= x,
        r.0 > 0 ==> r.1 + y2 <= limit2,
        r.0 < x ==> (r.0 + 1) * (r.0 + 1) + y2 > limit2,
{
    proof {
        lemma_square_in_range(x as int);
    }
    let mut cx: i64 = x;
    let mut cx2: i128 = x2;
    while cx > 0 && cx2 + y2 > limit2
        invariant
            0 <= cx <= x,
            x <= 0x200000000000000,
            0 <= y2 <= 0x100000000000000000000000000000,
            cx2 == (cx as int) * (cx as int),
            0 <= cx2 <= 0x100000000000000000000000000000,
            cx < x ==> (cx + 1) * (cx + 1) + y2 > limit2,
        decreases cx,
    {
        proof {
            assert((cx - 1) * (cx - 1) == cx * cx - 2 * cx + 1 && (cx - 1) * (cx - 1) >= 0)
                by (nonlinear_arith);
        }
        cx2 = cx2 - 2 * (cx as i128) + 1;
        cx = cx - 1;
    }
    (cx, cx2)
}

/// Draws one row of a circle: the fill span between the fill extents, then
/// the stroke span(s) between the inner and outer extents, mirrored left
/// and right of the center column; the stroke is drawn on top. A negative
/// row extent stands for an absent span.
fn draw_circle_row(
    stage: &mut Stage,
    xc: i64,
    row: i64,
    x_out: i64,
    x_in_row: i64,
    x_fill_row: i64,
    fill_color: Option<Color>,
    stroke_color: Option<Color>,
)
    requires
        old(stage).wf(),
        -0x200000000000000 <= xc <= 0x200000000000000,
        -1 <= x_out <= 0x200000000000000,
        -1 <= x_in_row <= 0x200000000000000,
        -1 <= x_fill_row <= 0x200000000000000,
    ensures
        final(stage).wf(),
        final(stage).same_dims(old(stage)),
        forall|xx: int, yy: int|
            final(stage).in_bounds(xx, yy) ==> #[trigger] final(stage).pix(xx, yy) == (
            if stroke_color is Some && yy == row && x_in_row + 1 <= abs(xx - xc) <= x_out {
                stroke_color.unwrap()
            } else if fill_color is Some && x_fill_row >= 0 && yy == row && abs(xx - xc)
                <= x_fill_row {
                fill_color.unwrap()
            } else {
                old(stage).pix(xx, yy)
            }),
{
    if let Some(fc) = fill_color {
        if x_fill_row >= 0 {
            stage.fill_span_wide(row as i128, (xc - x_fill_row) as i128, (xc + x_fill_row) as i128, fc);
        }
    }
    if let Some(sc) = stroke_color {
        let a: i64 = x_in_row + 1;
        if a <= x_out {
            if a <= 0 {
                stage.fill_span_wide(row as i128, (xc - x_out) as i128, (xc + x_out) as i128, sc);
            } else {
                stage.fill_span_wide(row as i128, (xc - x_out) as i128, (xc - a) as i128, sc);
                stage.fill_span_wide(row as i128, (xc + a) as i128, (xc + x_out) as i128, sc);
            }
        }
    }
}

/// Draws a circle in pixel-coordinate space with nominal radius `r0_pxl`:
/// row by row from the center outward, each row's extents tracked by
/// squared-distance shrinking. A non-positive radius, or a style with
/// neither fill nor stroke, is a silent no-op. The radius bound keeps the
/// squared distances within the arithmetic's range.
pub fn circle_pxl(stage: &mut Stage, origin_pxl: (i32, i32), r0_pxl: i64, style: Style)
    requires
        old(stage).wf(),
        r0_pxl <= 0x100000000000000,
    ensures
        final(stage).wf(),
        final(stage).same_dims(old(stage)),
        forall|xx: int, yy: int|
            final(stage).in_bounds(xx, yy) ==> #[trigger] final(stage).pix(xx, yy) == (if r0_pxl
                >= 1 && style.stroke is Some && circle_hits_stroke(
                origin_pxl.0 as int,
                origin_pxl.1 as int,
                r0_pxl as int,
                style.stroke.unwrap().width as int,
                xx,
                yy,
            ) {
                effective_color(style.stroke.unwrap().color, style.stroke.unwrap().opacity)
            } else if r0_pxl >= 1 && style.fill is Some && circle_hits_fill(
                origin_pxl.0 as int,
                origin_pxl.1 as int,
                circle_fill_r(r0_pxl as int, style.stroke),
                xx,
                yy,
            ) {
                effective_color(style.fill.unwrap().color, style.fill.unwrap().opacity)
            } else {
                old(stage).pix(xx, yy)
            }),
{
    if !style.fill_or_stroke_exists() {
        return ;
    }
    if r0_pxl <= 0 {
        return ;
    }
    let r0: i64 = r0_pxl;
    let fill_rgba: Option<Color> = match style.fill {
        Some(f) => Some(f.rgba()),
        None => None,
    };
    let stroke_rgba: Option<Color> = match style.stroke {
        Some(s) => Some(s.rgba()),
        None => None,
    };
    let wfp: u64 = match style.stroke {
        Some(s) => s.width,
        None => 0,
    };
    let (r_out, r_in): (i64, i64) = if stroke_rgba.is_some() && wfp != 0 {
        let half_out: u64 = ((wfp as u128 + 131071) / 131072) as u64;
        let half_in: u64 = wfp / 131072;
        let ri: i64 = if r0 >= half_in as i64 {
            r0 - half_in as i64
        } else {
            0
        };
        (r0 + half_out as i64, ri)
    } else {
        (r0, r0)
    };
    let r_fill: i64 = if fill_rgba.is_some() {
        if stroke_rgba.is_some() {
            r_in
        } else {
            r0
        }
    } else {
        0
    };
    proof {
        lemma_square_in_range(r_out as int);
        lemma_square_in_range(r_in as int);
        lemma_square_in_range(r_fill as int);
    }
    let r_out2: i128 = (r_out as i128) * (r_out as i128);
    let r_in2: i128 = (r_in as i128) * (r_in as i128);
    let r_fill2: i128 = (r_fill as i128) * (r_fill as i128);
    let xc: i64 = origin_pxl.0 as i64;
    let yc: i64 = origin_pxl.1 as i64;
    let mut x_out: i64 = r_out;
    let mut x_out2: i128 = r_out2;
    let mut x_in: i64 = r_in;
    let mut x_in2: i128 = r_in2;
    let mut x_fill: i64 = r_fill;
    let mut x_fill2: i128 = r_fill2;
    let mut y: i64 = 0;
    let mut y2v: i128 = 0;
    while y <= r_out
        invariant
            stage.wf(),
            stage.same_dims(old(stage)),
            1 <= r0 <= 0x100000000000000,
            fill_rgba is Some <==> style.fill is Some,
            fill_rgba is Some ==> fill_rgba.unwrap() == effective_color(
                style.fill.unwrap().color,
                style.fill.unwrap().opacity,
            ),
            stroke_rgba is Some <==> style.stroke is Some,
            stroke_rgba is Some ==> stroke_rgba.unwrap() == effective_color(
                style.stroke.unwrap().color,
                style.stroke.unwrap().opacity,
            ),
            wfp as int == (if style.stroke is Some {
                style.stroke.unwrap().width as int
            } else {
                0
            }),
            style.stroke is Some ==> r_out as int == circle_out_r(r0 as int, wfp as int),
            style.stroke is Some ==> r_in as int == circle_in_r(r0 as int, wfp as int),
            style.stroke is None ==> r_out == r0 && r_in == r0,
            r_fill as int == (if style.fill is Some {
                circle_fill_r(r0 as int, style.stroke)
            } else {
                0
            }),
            1 <= r_out <= 0x200000000000000,
            0 <= r_in <= r_out,
            0 <= r_fill <= r_out,
            xc == origin_pxl.0 as int,
            yc == origin_pxl.1 as int,
            0 <= y <= r_out + 1,
            y2v == (y as int) * (y as int),
            0 <= y2v <= 0x100000000000000000000000000000,
            0 <= x_out <= r_out,
            0 <= x_in <= r_in,
            0 <= x_fill <= r_fill,
            x_out2 == (x_out as int) * (x_out as int),
            x_in2 == (x_in as int) * (x_in as int),
            x_fill2 == (x_fill as int) * (x_fill as int),
            r_out2 == (r_out as int) * (r_out as int),
            r_in2 == (r_in as int) * (r_in as int),
            r_fill2 == (r_fill as int) * (r_fill as int),
            y == 0 ==> x_out == r_out && x_in == r_in && x_fill == r_fill,
            y >= 1 ==> x_out as int == circle_ext(r_out as int, y - 1),
            style.stroke is None ==> x_in == r_in,
            style.stroke is Some && y >= 1 && r_in >= 1 && y - 1 <= r_in ==> x_in as int
                == circle_ext(r_in as int, y - 1),
            style.stroke is Some && y >= 1 && r_in >= 1 && y - 1 > r_in ==> x_in == 0,
            r_in == 0 ==> x_in == 0,
            style.fill is None ==> x_fill == r_fill,
            style.fill is Some && y >= 1 && r_fill >= 1 && y - 1 <= r_fill ==> x_fill as int
                == circle_ext(r_fill as int, y - 1),
            style.fill is Some && y >= 1 && r_fill >= 1 && y - 1 > r_fill ==> x_fill == 0,
            r_fill == 0 ==> x_fill == 0,
            forall|xx: int, yy: int|
                stage.in_bounds(xx, yy) ==> #[trigger] stage.pix(xx, yy) == (if style.stroke
                    is Some && circle_hits_stroke(
                    origin_pxl.0 as int,
                    origin_pxl.1 as int,
                    r0 as int,
                    wfp as int,
                    xx,
                    yy,
                ) && abs(yy - yc) < y {
                    effective_color(style.stroke.unwrap().color, style.stroke.unwrap().opacity)
                } else if style.fill is Some && circle_hits_fill(
                    origin_pxl.0 as int,
                    origin_pxl.1 as int,
                    circle_fill_r(r0 as int, style.stroke),
                    xx,
                    yy,
                ) && abs(yy - yc) < y {
                    effective_color(style.fill.unwrap().color, style.fill.unwrap().opacity)
                } else {
                    old(stage).pix(xx, yy)
                }),
        decreases r_out + 1 - y,
    {
        let ghost prev_out = x_out as int;
        let so = shrink_x(x_out, x_out2, y2v, r_out2);
        x_out = so.0;
        x_out2 = so.1;
        proof {
            lemma_circle_ext_step(r_out as int, y as int, prev_out, x_out as int);
        }
        let x_in_row: i64 = if stroke_rgba.is_some() {
            if r_in == 0 {
                -1
            } else {
                let ghost prev_in = x_in as int;
                let si = shrink_x(x_in, x_in2, y2v, r_in2);
                x_in = si.0;
                x_in2 = si.1;
                proof {
                    if y <= r_in {
                        lemma_circle_ext_step(r_in as int, y as int, prev_in, x_in as int);
                    } else {
                        lemma_beyond_disk(r_in as int, y as int, x_in as int, x_in2 as int);
                    }
                }
                if x_in2 + y2v <= r_in2 {
                    x_in
                } else {
                    -1
                }
            }
        } else {
            -1
        };
        let x_fill_row: i64 = if fill_rgba.is_some() {
            if r_fill == 0 {
                -1
            } else {
                let ghost prev_fill = x_fill as int;
                let sf = shrink_x(x_fill, x_fill2, y2v, r_fill2);
                x_fill = sf.0;
                x_fill2 = sf.1;
                proof {
                    if y <= r_fill {
                        lemma_circle_ext_step(r_fill as int, y as int, prev_fill, x_fill as int);
                    } else {
                        lemma_beyond_disk(r_fill as int, y as int, x_fill as int, x_fill2 as int);
                    }
                }
                if x_fill2 + y2v <= r_fill2 {
                    x_fill
                } else {
                    -1
                }
            }
        } else {
            -1
        };
        proof {
            if style.stroke is Some {
                assert(x_in_row as int == circle_row_in_ext(r_in as int, y as int));
            }
            if style.fill is Some {
                let rf = r_fill as int;
                if rf >= 1 && y <= r_fill {
                    assert(x_fill_row as int == circle_ext(rf, y as int));
                    assert(x_fill_row >= 0);
                } else {
                    assert(x_fill_row == -1);
                }
            }
        }
        let y_top: i64 = yc - y;
        let y_bot: i64 = yc + y;
        draw_circle_row(stage, xc, y_top, x_out, x_in_row, x_fill_row, fill_rgba, stroke_rgba);
        let ghost g1 = *stage;
        if y != 0 {
            draw_circle_row(stage, xc, y_bot, x_out, x_in_row, x_fill_row, fill_rgba, stroke_rgba);
        }
        proof {
            lemma_square_in_range(y as int + 1);
            assert((y as int + 1) * (y as int + 1) == (y as int) * (y as int) + 2 * (y as int)
                + 1) by (nonlinear_arith);
            assert forall|xx: int, yy: int| stage.in_bounds(xx, yy) implies #[trigger] stage.pix(
                xx,
                yy,
            ) == (if style.stroke is Some && circle_hits_stroke(
                origin_pxl.0 as int,
                origin_pxl.1 as int,
                r0 as int,
                wfp as int,
                xx,
                yy,
            ) && abs(yy - yc) < y + 1 {
                effective_color(style.stroke.unwrap().color, style.stroke.unwrap().opacity)
            } else if style.fill is Some && circle_hits_fill(
                origin_pxl.0 as int,
                origin_pxl.1 as int,
                circle_fill_r(r0 as int, style.stroke),
                xx,
                yy,
            ) && abs(yy - yc) < y + 1 {
                effective_color(style.fill.unwrap().color, style.fill.unwrap().opacity)
            } else {
                old(stage).pix(xx, yy)
            }) by {
                let dy = abs(yy - yc);
                let dx = abs(xx - (xc as int));
                assert(g1.in_bounds(xx, yy));
                assert(g1.pix(xx, yy) == g1.pix(xx, yy));
                if yy == y_top || yy == y_bot {
                    assert(dy == y);
                } else {
                    assert(dy != y);
                }
            }
        }
        y2v = y2v + 2 * (y as i128) + 1;
        y = y + 1;
    }
}

/// A stroke one device pixel wide puts the outer radius one pixel beyond
/// the nominal radius and leaves the inner radius nominal: the annulus is
/// the one-pixel shell just outside the nominal boundary.
pub proof fn lemma_unit_stroke_radii(r0: int)
    requires
        1 <= r0,
    ensures
        circle_out_r(r0, 65536) == r0 + 1,
        circle_in_r(r0, 65536) == r0,
{
    assert((65536int + 131071) / 131072 == 1);
    assert(65536int / 131072 == 0);
}

/// A wider stroke never narrows the annulus: the outer radius grows with
/// the width and the inner radius shrinks with it.
pub proof fn lemma_wider_stroke_widens(r0: int, w1: int, w2: int)
    requires
        1 <= r0,
        1 <= w1 <= w2,
    ensures
        circle_out_r(r0, w1) <= circle_out_r(r0, w2),
        circle_in_r(r0, w2) <= circle_in_r(r0, w1),
{
    vstd::arithmetic::div_mod::lemma_div_is_ordered(w1 + 131071, w2 + 131071, 131072);
    vstd::arithmetic::div_mod::lemma_div_is_ordered(w1, w2, 131072);
}

/// Two device pixels more width widen the annulus strictly and
/// symmetrically: one pixel outward and (while the inner radius lasts) one
/// pixel inward.
pub proof fn lemma_stroke_widens_strictly(r0: int, w: int)
    requires
        1 <= r0,
        1 <= w,
    ensures
        circle_out_r(r0, w + 131072) == circle_out_r(r0, w) + 1,
        circle_in_r(r0, w) >= 1 ==> circle_in_r(r0, w + 131072) == circle_in_r(r0, w) - 1,
{
    vstd::arithmetic::div_mod::lemma_div_plus_one(w + 131071, 131072);
    vstd::arithmetic::div_mod::lemma_div_plus_one(w, 131072);
    vstd::arithmetic::div_mod::lemma_div_pos_is_pos(w, 131072);
}

/// The nominal pixel radius of a world-space circle of radius `radius`
/// (16.16 fixed point): the ceiling in whole pixels, and at least 1.
pub open spec fn circle_r0(radius: int) -> int {
    let c = (radius + 65535) / 65536;
    if c >= 1 {
        c
    } else {
        1
    }
}

/// Draws a circle centered at the world coordinate `origin` (16.16 fixed
/// point, origin at the stage's center, y up) with `radius` in device
/// pixels, also in 16.16 fixed point. A non-positive radius, or a center
/// whose pixel coordinates are unrepresentable, is a silent no-op.
pub fn circle(stage: &mut Stage, origin: (i64, i64), radius: i64, style: Style)
    requires
        old(stage).wf(),
    ensures
        final(stage).wf(),
        final(stage).same_dims(old(stage)),
        forall|xx: int, yy: int|
            final(stage).in_bounds(xx, yy) ==> #[trigger] final(stage).pix(xx, yy) == ({
                let px = crate::stage::world_x_to_pixel(old(stage).spec_width(), origin.0 as int);
                let py = crate::stage::world_y_to_pixel(old(stage).spec_height(), origin.1 as int);
                let ok = radius >= 1 && i32::MIN <= px <= i32::MAX && i32::MIN <= py <= i32::MAX;
                let r0 = circle_r0(radius as int);
                if ok && style.stroke is Some && circle_hits_stroke(
                    px,
                    py,
                    r0,
                    style.stroke.unwrap().width as int,
                    xx,
                    yy,
                ) {
                    effective_color(style.stroke.unwrap().color, style.stroke.unwrap().opacity)
                } else if ok && style.fill is Some && circle_hits_fill(
                    px,
                    py,
                    circle_fill_r(r0, style.stroke),
                    xx,
                    yy,
                ) {
                    effective_color(style.fill.unwrap().color, style.fill.unwrap().opacity)
                } else {
                    old(stage).pix(xx, yy)
                }
            }),
{
    if radius <= 0 {
        return ;
    }
    let origin_pxl = match stage.world_to_pixel(origin) {
        Some(p) => p,
        None => {
            return ;
        },
    };
    let rr: u128 = (radius as u128 + 65535) / 65536;
    let r0: i64 = if rr >= 1 {
        rr as i64
    } else {
        1
    };
    circle_pxl(stage, origin_pxl, r0, style);
}

/// After shrinking from the previous row's extent, the tracked extent is
/// exactly the circle's half-extent at the current row.
proof fn lemma_circle_ext_step(r: int, y: int, prev: int, cur: int)
    requires
        1 <= r,
        0 <= y <= r,
        0 <= cur <= prev,
        y == 0 ==> prev == r,
        y >= 1 ==> prev == circle_ext(r, y - 1),
        cur > 0 ==> cur * cur + y * y <= r * r,
        cur < prev ==> (cur + 1) * (cur + 1) + y * y > r * r,
    ensures
        cur == circle_ext(r, y),
        cur * cur <= r * r - y * y,
        r * r - y * y < (cur + 1) * (cur + 1),
{
    let n = r * r - y * y;
    assert(n >= 0) by (nonlinear_arith)
        requires
            0 <= y <= r,
            n == r * r - y * y,
    ;
    if cur == 0 {
        assert(0 * 0 <= n);
    }
    if cur == prev {
        if y == 0 {
            assert((r + 1) * (r + 1) > r * r - 0 * 0) by (nonlinear_arith)
                requires
                    r >= 1,
            ;
        } else {
            let m = r * r - (y - 1) * (y - 1);
            assert(m >= 0) by (nonlinear_arith)
                requires
                    1 <= y <= r,
                    m == r * r - (y - 1) * (y - 1),
            ;
            lemma_sqrt_floor_bounds(m);
            assert((y - 1) * (y - 1) <= y * y) by (nonlinear_arith)
                requires
                    y >= 1,
            ;
        }
    }
    lemma_sqrt_floor_unique(n, cur);
    lemma_sqrt_floor_bounds(n);
}

/// Beyond the disk's last row the tracked extent has shrunk to zero, and
/// its squared distance check fails.
proof fn lemma_beyond_disk(r: int, y: int, cur: int, cur2: int)
    requires
        1 <= r,
        y > r,
        cur >= 0,
        cur2 == cur * cur,
        cur > 0 ==> cur2 + y * y <= r * r,
    ensures
        cur == 0,
        cur2 + y * y > r * r,
{
    assert(y * y > r * r) by (nonlinear_arith)
        requires
            y > r >= 1,
    ;
    if cur > 0 {
        assert(cur2 >= 0) by (nonlinear_arith)
            requires
                cur2 == cur * cur,
        ;
        assert(false);
    }
}

} // verus!

//! The line rasterizer: Cohen–Sutherland clipping of the segment to the
//! stage, then integer error-accumulator (Bresenham) stepping.
//!
//! Clipping first bounds the number of plotted pixels and keeps the stepping
//! arithmetic away from overflow on long or off-screen segments; the
//! clip-intersection coordinates are computed in a wider integer type than
//! the pixel coordinates for the same reason.

use vstd::prelude::*;
use vstd::arithmetic::div_mod::lemma_div_is_ordered;
use vstd::arithmetic::div_mod::lemma_div_by_multiple;
use vstd::arithmetic::div_mod::lemma_div_pos_is_pos;
use crate::stage::Stage;
use crate::stage::in_span;
use crate::style::Color;
use crate::arith::div_trunc;
use crate::arith::div_trunc_i128;
use crate::arith::abs;
use crate::arith::sgn;

verus! {

/// Clipping passes over the segment endpoints before the line is dropped;
/// Cohen–Sutherland needs at most a few, and the bound is generous.
pub const CLIP_FUEL: u32 = 16;

/// Whether `(x, y)` lies outside the clip rectangle `[0, xmax] x [0, ymax]`.
pub open spec fn outside_rect(x: int, y: int, xmax: int, ymax: int) -> bool {
    x < 0 || x > xmax || y < 0 || y > ymax
}

/// Whether both endpoints lie beyond one boundary of the clip rectangle, so
/// the segment cannot meet it.
pub open spec fn clip_rejects(x0: int, y0: int, x1: int, y1: int, xmax: int, ymax: int) -> bool {
    ||| (x0 < 0 && x1 < 0)
    ||| (x0 > xmax && x1 > xmax)
    ||| (y0 < 0 && y1 < 0)
    ||| (y0 > ymax && y1 > ymax)
}

/// Moves the outside endpoint `(xa, ya)` toward `(xb, yb)` onto the first
/// boundary it violates, in the order bottom, top, right, left; the other
/// coordinate comes from the line's equation, truncated toward zero.
pub open spec fn clip_point(xa: int, ya: int, xb: int, yb: int, xmax: int, ymax: int) -> (
    int,
    int,
) {
    let dx = xb - xa;
    let dy = yb - ya;
    if ya > ymax {
        (xa + div_trunc(dx * (ymax - ya), dy), ymax)
    } else if ya < 0 {
        (xa + div_trunc(dx * (0 - ya), dy), 0)
    } else if xa > xmax {
        (xmax, ya + div_trunc(dy * (xmax - xa), dx))
    } else {
        (0, ya + div_trunc(dy * (0 - xa), dx))
    }
}

/// Cohen–Sutherland clipping of the segment `(x0,y0)-(x1,y1)` against
/// `[0, xmax] x [0, ymax]`: accept when both endpoints are inside, reject
/// when both lie beyond one boundary, otherwise clip one outside endpoint
/// onto a boundary and repeat.
pub open spec fn spec_clip(
    x0: int,
    y0: int,
    x1: int,
    y1: int,
    xmax: int,
    ymax: int,
    fuel: nat,
) -> Option<(int, int, int, int)>
    decreases fuel,
{
    if !outside_rect(x0, y0, xmax, ymax) && !outside_rect(x1, y1, xmax, ymax) {
        Some((x0, y0, x1, y1))
    } else if clip_rejects(x0, y0, x1, y1, xmax, ymax) {
        None
    } else if fuel == 0 {
        None
    } else if outside_rect(x0, y0, xmax, ymax) {
        let p = clip_point(x0, y0, x1, y1, xmax, ymax);
        spec_clip(p.0, p.1, x1, y1, xmax, ymax, (fuel - 1) as nat)
    } else {
        let p = clip_point(x1, y1, x0, y0, xmax, ymax);
        spec_clip(x0, y0, p.0, p.1, xmax, ymax, (fuel - 1) as nat)
    }
}

/// The largest x-coordinate of the clip rectangle on a stage of width `w`:
/// the rightmost column, held to the range of the pixel coordinate type.
pub open spec fn clip_xmax(w: int) -> int {
    if w - 1 <= 0x7fffffff {
        w - 1
    } else {
        0x7fffffff
    }
}

/// The largest y-coordinate of the clip rectangle on a stage of height `h`.
pub open spec fn clip_ymax(h: int) -> int {
    clip_xmax(h)
}

/// The Bresenham stepping state after `k` steps along the segment
/// `(x1,y1)-(x2,y2)`: current x, current y, and the error accumulator. The
/// driving axis is x when `|dx| >= |dy|`, else y; each step advances the
/// driving coordinate and lets the error term decide the other.
pub open spec fn bres_state(x1: int, y1: int, x2: int, y2: int, k: int) -> (int, int, int)
    decreases k,
{
    let dx = abs(x2 - x1);
    let dy = abs(y2 - y1);
    let sx = sgn(x2 - x1);
    let sy = sgn(y2 - y1);
    if k <= 0 {
        if dx >= dy {
            (x1, y1, 2 * dy - dx)
        } else {
            (x1, y1, 2 * dx - dy)
        }
    } else {
        let s = bres_state(x1, y1, x2, y2, k - 1);
        if dx >= dy {
            if s.2 >= 0 {
                (s.0 + sx, s.1 + sy, s.2 - 2 * dx + 2 * dy)
            } else {
                (s.0 + sx, s.1, s.2 + 2 * dy)
            }
        } else {
            if s.2 >= 0 {
                (s.0 + sx, s.1 + sy, s.2 - 2 * dy + 2 * dx)
            } else {
                (s.0, s.1 + sy, s.2 + 2 * dx)
            }
        }
    }
}

/// The number of Bresenham steps along the segment; one more pixel than
/// this is plotted.
pub open spec fn bres_steps(x1: int, y1: int, x2: int, y2: int) -> int {
    if abs(x2 - x1) >= abs(y2 - y1) {
        abs(x2 - x1)
    } else {
        abs(y2 - y1)
    }
}

/// Whether one of the first `n` Bresenham states along `(x1,y1)-(x2,y2)`
/// sits on pixel `(x, y)`.
pub open spec fn hit_upto(x1: int, y1: int, x2: int, y2: int, n: int, x: int, y: int) -> bool {
    exists|k: int|
        0 <= k < n && (#[trigger] bres_state(x1, y1, x2, y2, k)).0 == x && bres_state(
            x1,
            y1,
            x2,
            y2,
            k,
        ).1 == y
}

/// Whether the Bresenham walk from `(x1,y1)` to `(x2,y2)` plots pixel
/// `(x, y)`.
pub open spec fn line_hits(x1: int, y1: int, x2: int, y2: int, x: int, y: int) -> bool {
    hit_upto(x1, y1, x2, y2, bres_steps(x1, y1, x2, y2) + 1, x, y)
}

/// A zero-length segment still plots its single pixel, and nothing else.
pub proof fn lemma_line_single_pixel(x: int, y: int, xx: int, yy: int)
    ensures
        line_hits(x, y, x, y, xx, yy) <==> (xx == x && yy == y),
{
    assert(bres_steps(x, y, x, y) == 0);
    if xx == x && yy == y {
        assert(bres_state(x, y, x, y, 0).0 == x && bres_state(x, y, x, y, 0).1 == y);
    }
    if line_hits(x, y, x, y, xx, yy) {
        let k = choose|k: int|
            0 <= k < 1 && (#[trigger] bres_state(x, y, x, y, k)).0 == xx && bres_state(
                x,
                y,
                x,
                y,
                k,
            ).1 == yy;
        assert(k == 0);
        assert(bres_state(x, y, x, y, 0).0 == x);
    }
}

/// The absolute value of a product is the product of absolute values.
proof fn lemma_abs_mul(a: int, e: int)
    ensures
        abs(a * e) == abs(a) * abs(e),
{
    if a >= 0 && e >= 0 {
        assert(a * e >= 0) by (nonlinear_arith)
            requires
                a >= 0,
                e >= 0,
        ;
    } else if a >= 0 && e < 0 {
        assert(a * e <= 0 && a * (-e) == -(a * e)) by (nonlinear_arith)
            requires
                a >= 0,
                e < 0,
        ;
    } else if a < 0 && e >= 0 {
        assert(a * e <= 0 && (-a) * e == -(a * e)) by (nonlinear_arith)
            requires
                a < 0,
                e >= 0,
        ;
    } else {
        assert(a * e >= 0 && (-a) * (-e) == a * e) by (nonlinear_arith)
            requires
                a < 0,
                e < 0,
        ;
    }
}

/// A quotient `a * e / d` with `|e| <= |d|` and `e, d` of one sign stays
/// between 0 and `a`: the interpolation offset never leaves the segment.
proof fn lemma_div_trunc_scale(a: int, e: int, d: int)
    requires
        d != 0,
        e * d >= 0,
        abs(e) <= abs(d),
    ensures
        a >= 0 ==> 0 <= div_trunc(a * e, d) <= a,
        a <= 0 ==> a <= div_trunc(a * e, d) <= 0,
{
    let p = a * e;
    lemma_abs_mul(a, e);
    assert(abs(a) * abs(e) <= abs(a) * abs(d)) by (nonlinear_arith)
        requires
            abs(e) <= abs(d),
            abs(a) >= 0,
    ;
    let m = abs(p) / abs(d);
    lemma_div_pos_is_pos(abs(p), abs(d));
    assert(m >= 0);
    assert((abs(a) * abs(d)) / abs(d) == abs(a)) by {
        lemma_div_by_multiple(abs(a), abs(d));
    }
    assert(m <= abs(a)) by {
        lemma_div_is_ordered(abs(p), abs(a) * abs(d), abs(d));
    }
    if p == 0 {
        assert(abs(p) == 0);
        assert(m == 0) by {
            vstd::arithmetic::div_mod::lemma_div_of0(abs(d));
        }
    } else if a > 0 {
        assert((p >= 0) == (d >= 0)) by (nonlinear_arith)
            requires
                p == a * e,
                a > 0,
                p != 0,
                e * d >= 0,
                d != 0,
        ;
        assert(div_trunc(p, d) == m);
    } else {
        assert(a < 0) by (nonlinear_arith)
            requires
                p == a * e,
                p != 0,
                !(a > 0),
        ;
        assert((p >= 0) != (d >= 0)) by (nonlinear_arith)
            requires
                p == a * e,
                a < 0,
                p != 0,
                e * d >= 0,
                d != 0,
        ;
        assert(div_trunc(p, d) == -m);
    }
}

/// Products of two differences of 32-bit coordinates stay far inside the
/// 128-bit range.
proof fn lemma_prod_in_range(a: int, e: int)
    requires
        -0x100000000 <= a <= 0x100000000,
        -0x100000000 <= e <= 0x100000000,
    ensures
        -0x10000000000000000 <= a * e <= 0x10000000000000000,
{
    assert(-0x10000000000000000 <= a * e <= 0x10000000000000000) by (nonlinear_arith)
        requires
            -0x100000000 <= a <= 0x100000000,
            -0x100000000 <= e <= 0x100000000,
    ;
}

/// Clips the outside endpoint `(xa, ya)` toward `(xb, yb)` onto the first
/// boundary it violates; the result stays within the endpoints' bounding
/// box.
fn clip_point_exec(xa: i32, ya: i32, xb: i32, yb: i32, xmax: i32, ymax: i32) -> (p: (i32, i32))
    requires
        0 <= xmax,
        0 <= ymax,
        outside_rect(xa as int, ya as int, xmax as int, ymax as int),
        !clip_rejects(xa as int, ya as int, xb as int, yb as int, xmax as int, ymax as int),
    ensures
        (p.0 as int, p.1 as int) == clip_point(
            xa as int,
            ya as int,
            xb as int,
            yb as int,
            xmax as int,
            ymax as int,
        ),
        in_span(p.0 as int, xa as int, xb as int),
        in_span(p.1 as int, ya as int, yb as int),
{
    let dx: i128 = xb as i128 - xa as i128;
    let dy: i128 = yb as i128 - ya as i128;
    if ya > ymax {
        let e: i128 = ymax as i128 - ya as i128;
        proof {
            assert(e * dy >= 0) by (nonlinear_arith)
                requires
                    e < 0,
                    dy < 0,
            ;
            lemma_prod_in_range(dx as int, e as int);
            lemma_div_trunc_scale(dx as int, e as int, dy as int);
        }
        let t = div_trunc_i128(dx * e, dy);
        ((xa as i128 + t) as i32, ymax)
    } else if ya < 0 {
        let e: i128 = 0 - ya as i128;
        proof {
            assert(e * dy >= 0) by (nonlinear_arith)
                requires
                    e > 0,
                    dy > 0,
            ;
            lemma_prod_in_range(dx as int, e as int);
            lemma_div_trunc_scale(dx as int, e as int, dy as int);
        }
        let t = div_trunc_i128(dx * e, dy);
        ((xa as i128 + t) as i32, 0)
    } else if xa > xmax {
        let e: i128 = xmax as i128 - xa as i128;
        proof {
            assert(e * dx >= 0) by (nonlinear_arith)
                requires
                    e < 0,
                    dx < 0,
            ;
            lemma_prod_in_range(dy as int, e as int);
            lemma_div_trunc_scale(dy as int, e as int, dx as int);
        }
        let t = div_trunc_i128(dy * e, dx);
        (xmax, (ya as i128 + t) as i32)
    } else {
        let e: i128 = 0 - xa as i128;
        proof {
            assert(e * dx >= 0) by (nonlinear_arith)
                requires
                    e > 0,
                    dx > 0,
            ;
            lemma_prod_in_range(dy as int, e as int);
            lemma_div_trunc_scale(dy as int, e as int, dx as int);
        }
        let t = div_trunc_i128(dy * e, dx);
        (0, (ya as i128 + t) as i32)
    }
}

/// Cohen–Sutherland clipping, as [`spec_clip`] computes it.
fn clip_rec(x0: i32, y0: i32, x1: i32, y1: i32, xmax: i32, ymax: i32, fuel: u32) -> (r: Option<
    (i32, i32, i32, i32),
>)
    requires
        0 <= xmax,
        0 <= ymax,
    ensures
        ({
            let s = spec_clip(
                x0 as int,
                y0 as int,
                x1 as int,
                y1 as int,
                xmax as int,
                ymax as int,
                fuel as nat,
            );
            match r {
                None => s is None,
                Some(t) => s == Some((t.0 as int, t.1 as int, t.2 as int, t.3 as int)),
            }
        }),
    decreases fuel,
{
    let inside0 = 0 <= x0 && x0 <= xmax && 0 <= y0 && y0 <= ymax;
    let inside1 = 0 <= x1 && x1 <= xmax && 0 <= y1 && y1 <= ymax;
    if inside0 && inside1 {
        return Some((x0, y0, x1, y1));
    }
    if (x0 < 0 && x1 < 0) || (x0 > xmax && x1 > xmax) || (y0 < 0 && y1 < 0) || (y0 > ymax && y1
        > ymax) {
        return None;
    }
    if fuel == 0 {
        return None;
    }
    if !inside0 {
        let p = clip_point_exec(x0, y0, x1, y1, xmax, ymax);
        clip_rec(p.0, p.1, x1, y1, xmax, ymax, fuel - 1)
    } else {
        let p = clip_point_exec(x1, y1, x0, y0, xmax, ymax);
        clip_rec(x0, y0, p.0, p.1, xmax, ymax, fuel - 1)
    }
}

/// Clips the segment `p0-p1` to the stage's rectangle; `None` when the
/// segment lies fully outside.
fn clip_line_to_stage(stage: &Stage, p0: (i32, i32), p1: (i32, i32)) -> (r: Option<
    (i32, i32, i32, i32),
>)
    requires
        stage.wf(),
    ensures
        ({
            let s = spec_clip(
                p0.0 as int,
                p0.1 as int,
                p1.0 as int,
                p1.1 as int,
                clip_xmax(stage.spec_width()),
                clip_ymax(stage.spec_height()),
                CLIP_FUEL as nat,
            );
            match r {
                None => s is None,
                Some(t) => s == Some((t.0 as int, t.1 as int, t.2 as int, t.3 as int)),
            }
        }),
{
    let w = stage.width();
    let h = stage.height();
    let xmax: i32 = if w >= 0x80000000usize {
        0x7fffffff
    } else {
        (w - 1) as i32
    };
    let ymax: i32 = if h >= 0x80000000usize {
        0x7fffffff
    } else {
        (h - 1) as i32
    };
    clip_rec(p0.0, p0.1, p1.0, p1.1, xmax, ymax, CLIP_FUEL)
}

/// Whether drawing the segment `(x1,y1)-(x2,y2)` on a `w` x `h` stage
/// paints pixel `(x, y)`: the segment is clipped to the stage first, and a
/// fully outside segment paints nothing.
pub open spec fn seg_paints(
    w: int,
    h: int,
    x1: int,
    y1: int,
    x2: int,
    y2: int,
    x: int,
    y: int,
) -> bool {
    match spec_clip(x1, y1, x2, y2, clip_xmax(w), clip_ymax(h), CLIP_FUEL as nat) {
        None => false,
        Some(q) => line_hits(q.0, q.1, q.2, q.3, x, y),
    }
}

/// Draws the segment `xy1-xy2` (pixel coordinates) in `color`: the segment
/// is clipped to the stage, then stepped pixel by pixel; a segment fully
/// outside is a silent no-op, and a zero-length segment plots its single
/// pixel.
pub fn draw_line_pxl(stage: &mut Stage, xy1: (i32, i32), xy2: (i32, i32), color: Color)
    requires
        old(stage).wf(),
    ensures
        final(stage).wf(),
        final(stage).same_dims(old(stage)),
        forall|xx: int, yy: int|
            final(stage).in_bounds(xx, yy) ==> #[trigger] final(stage).pix(xx, yy) == (
            if seg_paints(
                old(stage).spec_width(),
                old(stage).spec_height(),
                xy1.0 as int,
                xy1.1 as int,
                xy2.0 as int,
                xy2.1 as int,
                xx,
                yy,
            ) {
                color
            } else {
                old(stage).pix(xx, yy)
            }),
{
    let clipped = clip_line_to_stage(stage, xy1, xy2);
    let (cx1, cy1, cx2, cy2) = match clipped {
        None => { return ; },
        Some(t) => t,
    };
    let dx: i64 = if cx2 >= cx1 {
        cx2 as i64 - cx1 as i64
    } else {
        cx1 as i64 - cx2 as i64
    };
    let dy: i64 = if cy2 >= cy1 {
        cy2 as i64 - cy1 as i64
    } else {
        cy1 as i64 - cy2 as i64
    };
    let sx: i64 = if cx2 > cx1 {
        1
    } else if cx2 < cx1 {
        -1
    } else {
        0
    };
    let sy: i64 = if cy2 > cy1 {
        1
    } else if cy2 < cy1 {
        -1
    } else {
        0
    };
    let steps: i64 = if dx >= dy {
        dx
    } else {
        dy
    };
    let mut err: i64 = if dx >= dy {
        2 * dy - dx
    } else {
        2 * dx - dy
    };
    let mut x: i64 = cx1 as i64;
    let mut y: i64 = cy1 as i64;
    let mut k: i64 = 0;
    while k <= steps
        invariant
            0 <= k <= steps + 1,
            dx == abs(cx2 as int - cx1 as int),
            dy == abs(cy2 as int - cy1 as int),
            sx == sgn(cx2 as int - cx1 as int),
            sy == sgn(cy2 as int - cy1 as int),
            steps == bres_steps(cx1 as int, cy1 as int, cx2 as int, cy2 as int),
            x as int == bres_state(cx1 as int, cy1 as int, cx2 as int, cy2 as int, k as int).0,
            y as int == bres_state(cx1 as int, cy1 as int, cx2 as int, cy2 as int, k as int).1,
            err as int == bres_state(cx1 as int, cy1 as int, cx2 as int, cy2 as int, k as int).2,
            dx >= dy ==> -2 * dx <= err <= 2 * dx,
            dx < dy ==> -2 * dy <= err <= 2 * dy,
            abs(x as int - cx1 as int) <= k,
            abs(y as int - cy1 as int) <= k,
            -0x80000000 <= cx1 as int <= 0x7fffffff,
            -0x80000000 <= cy1 as int <= 0x7fffffff,
            stage.wf(),
            stage.same_dims(old(stage)),
            forall|xx: int, yy: int|
                stage.in_bounds(xx, yy) ==> #[trigger] stage.pix(xx, yy) == (if hit_upto(
                    cx1 as int,
                    cy1 as int,
                    cx2 as int,
                    cy2 as int,
                    k as int,
                    xx,
                    yy,
                ) {
                    color
                } else {
                    old(stage).pix(xx, yy)
                }),
        decreases steps + 1 - k,
    {
        let ghost k0 = k as int;
        let ghost px = x as int;
        let ghost py = y as int;
        let ghost pre = *stage;
        stage.plot_wide(x, y, color);
        proof {
            let gx1 = cx1 as int;
            let gy1 = cy1 as int;
            let gx2 = cx2 as int;
            let gy2 = cy2 as int;
            assert forall|xx: int, yy: int| stage.in_bounds(xx, yy) implies #[trigger] stage.pix(
                xx,
                yy,
            ) == (if hit_upto(gx1, gy1, gx2, gy2, k0 + 1, xx, yy) {
                color
            } else {
                old(stage).pix(xx, yy)
            }) by {
                if xx == px && yy == py {
                    assert(bres_state(gx1, gy1, gx2, gy2, k0).0 == xx && bres_state(
                        gx1,
                        gy1,
                        gx2,
                        gy2,
                        k0,
                    ).1 == yy);
                    assert(hit_upto(gx1, gy1, gx2, gy2, k0 + 1, xx, yy));
                } else {
                    assert(stage.pix(xx, yy) == pre.pix(xx, yy));
                    if hit_upto(gx1, gy1, gx2, gy2, k0 + 1, xx, yy) {
                        let j = choose|j: int|
                            0 <= j < k0 + 1 && (#[trigger] bres_state(gx1, gy1, gx2, gy2, j)).0
                                == xx && bres_state(gx1, gy1, gx2, gy2, j).1 == yy;
                        assert(j != k0);
                        assert(hit_upto(gx1, gy1, gx2, gy2, k0, xx, yy));
                    } else {
                        assert(!hit_upto(gx1, gy1, gx2, gy2, k0, xx, yy));
                    }
                }
            }
        }
        if dx >= dy {
            if err >= 0 {
                y = y + sy;
                err = err - 2 * dx;
            }
            x = x + sx;
            err = err + 2 * dy;
        } else {
            if err >= 0 {
                x = x + sx;
                err = err - 2 * dy;
            }
            y = y + sy;
            err = err + 2 * dx;
        }
        k = k + 1;
        proof {
            assert(bres_state(cx1 as int, cy1 as int, cx2 as int, cy2 as int, k as int) == (
            x as int,
            y as int,
            err as int,
            ));
        }
    }
}

} // verus!

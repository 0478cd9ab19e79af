//! The direct triangle rasterizer: scanline fill by flat-top/flat-bottom
//! decomposition, accumulating each edge's x position in 16.16 fixed point
//! so that slope stepping stays stable and rounds consistently across many
//! scanlines.
//!
//! Every flat sub-triangle walks scanlines from its top y (inclusive) to its
//! bottom y (exclusive), so the shared scanline where a split triangle meets
//! is never filled twice; spans are ceiling-rounded, endpoint-sorted, and
//! exclusive-right.

use vstd::prelude::*;
use vstd::arithmetic::div_mod::lemma_fundamental_div_mod;
use crate::stage::Stage;
use crate::style::Color;
use crate::style::Style;
use crate::style::effective_color;
use crate::arith::div_trunc;
use crate::arith::div_trunc_i128;
use crate::arith::div_floor_i128;
use crate::arith::abs;
use crate::primitives::line::seg_paints;
use crate::primitives::line::draw_line_pxl;

verus! {

/// The per-scanline x increment of an edge with offsets `dx`, `dy`, in
/// 16.16 fixed point, truncated toward zero.
pub open spec fn invslope_fp(dx: int, dy: int) -> int {
    div_trunc(dx * 65536, dy)
}

/// The accumulated fixed-point x of an edge starting at column `x_start`,
/// `k` scanlines in.
pub open spec fn edge_x_fp(x_start: int, slope: int, k: int) -> int {
    x_start * 65536 + k * slope
}

/// A 16.16 fixed-point value rounded up to the next integer.
pub open spec fn fp_ceil(v: int) -> int {
    (v + 65535) / 65536
}

/// Whether filling the flat-bottom triangle `v1-v2-v3` (with
/// `v1.y < v2.y == v3.y`) covers pixel `(x, y)`: rows `v1.y` inclusive to
/// `v2.y` exclusive, the span between the two walked edges, sorted and
/// exclusive-right.
pub open spec fn flat_bottom_hits(
    x1: int,
    y1: int,
    x2: int,
    y2: int,
    x3: int,
    y3: int,
    x: int,
    y: int,
) -> bool {
    if y2 - y1 == 0 || y3 - y1 == 0 {
        false
    } else {
        let xa = fp_ceil(edge_x_fp(x1, invslope_fp(x2 - x1, y2 - y1), y - y1));
        let xb = fp_ceil(edge_x_fp(x1, invslope_fp(x3 - x1, y3 - y1), y - y1));
        let lo = if xa <= xb {
            xa
        } else {
            xb
        };
        let hi = (if xa <= xb {
            xb
        } else {
            xa
        }) - 1;
        y1 <= y < y2 && lo <= x <= hi
    }
}

/// Whether filling the flat-top triangle `v1-v2-v3` (with
/// `v1.y == v2.y <= v3.y`) covers pixel `(x, y)`: rows `v1.y` inclusive to
/// `v3.y` exclusive, the span between the two walked edges, sorted and
/// exclusive-right.
pub open spec fn flat_top_hits(
    x1: int,
    y1: int,
    x2: int,
    y2: int,
    x3: int,
    y3: int,
    x: int,
    y: int,
) -> bool {
    if y3 - y1 == 0 || y3 - y2 == 0 {
        false
    } else {
        let xa = fp_ceil(edge_x_fp(x1, invslope_fp(x3 - x1, y3 - y1), y - y1));
        let xb = fp_ceil(edge_x_fp(x2, invslope_fp(x3 - x2, y3 - y2), y - y1));
        let lo = if xa <= xb {
            xa
        } else {
            xb
        };
        let hi = (if xa <= xb {
            xb
        } else {
            xa
        }) - 1;
        y1 <= y < y3 && lo <= x <= hi
    }
}

/// The three vertices in ascending y order, ties keeping the given order.
pub open spec fn sort3_by_y(
    v1: (int, int),
    v2: (int, int),
    v3: (int, int),
) -> ((int, int), (int, int), (int, int)) {
    if v1.1 <= v2.1 {
        if v2.1 <= v3.1 {
            (v1, v2, v3)
        } else if v1.1 <= v3.1 {
            (v1, v3, v2)
        } else {
            (v3, v1, v2)
        }
    } else {
        if v1.1 <= v3.1 {
            (v2, v1, v3)
        } else if v2.1 <= v3.1 {
            (v2, v3, v1)
        } else {
            (v3, v2, v1)
        }
    }
}

/// The x of the split point on the long edge of triangle `v1-v3` at the
/// middle vertex's height, interpolated in 16.16 fixed point.
pub open spec fn split_x(x1: int, y1: int, x3: int, y3: int, y2: int) -> int {
    let t = div_trunc((y2 - y1) * 65536, y3 - y1);
    x1 + (t * (x3 - x1)) / 65536
}

/// Whether scan-filling the triangle with vertices `p1`, `p2`, `p3` covers
/// pixel `(x, y)`: vertices are sorted by y; a flat-bottom or flat-top
/// triangle is walked directly, any other is split at the middle vertex's
/// height into one of each, and a degenerate triangle covers nothing.
pub open spec fn triangle_hits(
    p1: (int, int),
    p2: (int, int),
    p3: (int, int),
    x: int,
    y: int,
) -> bool {
    let s = sort3_by_y(p1, p2, p3);
    let v1 = s.0;
    let v2 = s.1;
    let v3 = s.2;
    if v1.1 == v3.1 {
        false
    } else if v2.1 == v3.1 {
        flat_bottom_hits(v1.0, v1.1, v2.0, v2.1, v3.0, v3.1, x, y)
    } else if v1.1 == v2.1 {
        flat_top_hits(v1.0, v1.1, v2.0, v2.1, v3.0, v3.1, x, y)
    } else {
        let x4 = split_x(v1.0, v1.1, v3.0, v3.1, v2.1);
        flat_bottom_hits(v1.0, v1.1, v2.0, v2.1, x4, v2.1, x, y) || flat_top_hits(
            v2.0,
            v2.1,
            x4,
            v2.1,
            v3.0,
            v3.1,
            x,
            y,
        )
    }
}

/// The two flat sub-triangles of a split triangle cover disjoint rows: the
/// flat-bottom half stops above the middle vertex's scanline and the
/// flat-top half starts on it, so no pixel is filled twice at the split row.
pub proof fn lemma_split_rows_disjoint(
    v1: (int, int),
    v2: (int, int),
    v3: (int, int),
    x4: int,
    x: int,
    y: int,
)
    requires
        v1.1 < v2.1 < v3.1,
    ensures
        !(flat_bottom_hits(v1.0, v1.1, v2.0, v2.1, x4, v2.1, x, y) && flat_top_hits(
            v2.0,
            v2.1,
            x4,
            v2.1,
            v3.0,
            v3.1,
            x,
            y,
        )),
{
}

/// Returns the vertices sorted by ascending y, ties keeping argument order.
fn sort_vertices(xy1: (i64, i64), xy2: (i64, i64), xy3: (i64, i64)) -> (s: (
    (i64, i64),
    (i64, i64),
    (i64, i64),
))
    ensures
        ({
            let t = sort3_by_y(
                (xy1.0 as int, xy1.1 as int),
                (xy2.0 as int, xy2.1 as int),
                (xy3.0 as int, xy3.1 as int),
            );
            &&& (s.0.0 as int, s.0.1 as int) == t.0
            &&& (s.1.0 as int, s.1.1 as int) == t.1
            &&& (s.2.0 as int, s.2.1 as int) == t.2
        }),
{
    if xy1.1 <= xy2.1 {
        if xy2.1 <= xy3.1 {
            (xy1, xy2, xy3)
        } else if xy1.1 <= xy3.1 {
            (xy1, xy3, xy2)
        } else {
            (xy3, xy1, xy2)
        }
    } else {
        if xy1.1 <= xy3.1 {
            (xy2, xy1, xy3)
        } else if xy2.1 <= xy3.1 {
            (xy2, xy3, xy1)
        } else {
            (xy3, xy2, xy1)
        }
    }
}

/// A truncated quotient times at most its divisor stays within the
/// dividend's magnitude: the walked edge never drifts farther than the
/// edge's own x extent.
proof fn lemma_edge_walk_bound(dx: int, dy: int, k: int)
    requires
        dy != 0,
        0 <= k <= abs(dy),
    ensures
        abs(k * invslope_fp(dx, dy)) <= abs(dx * 65536),
{
    let q = invslope_fp(dx, dy);
    let a = abs(dx * 65536);
    let b = abs(dy);
    assert(abs(q) == a / b) by {
        crate::arith::lemma_div_le_dividend(a, b);
    }
    assert((a / b) * b <= a) by {
        lemma_fundamental_div_mod(a, b);
        vstd::arithmetic::div_mod::lemma_mod_division_less_than_divisor(a, b);
        assert(a == b * (a / b) + a % b);
        assert(a % b >= 0);
        assert(b * (a / b) == (a / b) * b) by (nonlinear_arith);
    }
    assert(abs(k * q) == k * abs(q)) by (nonlinear_arith)
        requires
            k >= 0,
    ;
    assert(k * abs(q) <= b * abs(q)) by (nonlinear_arith)
        requires
            k <= b,
            abs(q) >= 0,
    ;
    assert(b * abs(q) == (a / b) * b) by (nonlinear_arith)
        requires
            abs(q) == a / b,
    ;
}

/// Fills a flat-bottom triangle in pixel coords where `v1.y < v2.y == v3.y`
/// (callers pass sub-triangles of a 32-bit triangle, so coordinates stay
/// within `2^33`); rows run from `v1.y` inclusive to `v2.y` exclusive.
pub(crate) fn fill_flat_bottom_triangle(
    stage: &mut Stage,
    v1: (i64, i64),
    v2: (i64, i64),
    v3: (i64, i64),
    fill_color: Color,
)
    requires
        old(stage).wf(),
        v2.1 == v3.1,
        abs(v1.0 as int) <= 0x2000000000,
        abs(v1.1 as int) <= 0x2000000000,
        abs(v2.0 as int) <= 0x2000000000,
        abs(v2.1 as int) <= 0x2000000000,
        abs(v3.0 as int) <= 0x2000000000,
        abs(v3.1 as int) <= 0x2000000000,
    ensures
        final(stage).wf(),
        final(stage).same_dims(old(stage)),
        forall|xx: int, yy: int|
            final(stage).in_bounds(xx, yy) ==> #[trigger] final(stage).pix(xx, yy) == (
            if flat_bottom_hits(
                v1.0 as int,
                v1.1 as int,
                v2.0 as int,
                v2.1 as int,
                v3.0 as int,
                v3.1 as int,
                xx,
                yy,
            ) {
                fill_color
            } else {
                old(stage).pix(xx, yy)
            }),
{
    let dy1: i64 = v2.1 - v1.1;
    let dy2: i64 = v3.1 - v1.1;
    if dy1 == 0 || dy2 == 0 {
        return ;
    }
    let dxdy1: i64 = div_trunc_i128((v2.0 - v1.0) as i128 * 65536, dy1 as i128) as i64;
    let dxdy2: i64 = div_trunc_i128((v3.0 - v1.0) as i128 * 65536, dy2 as i128) as i64;
    proof {
        lemma_edge_walk_bound(v2.0 - v1.0, dy1 as int, abs(dy1 as int));
        lemma_edge_walk_bound(v3.0 - v1.0, dy2 as int, abs(dy2 as int));
    }
    let mut curx1: i64 = v1.0 * 65536;
    let mut curx2: i64 = v1.0 * 65536;
    let mut y: i64 = v1.1;
    while y < v2.1
        invariant
            stage.wf(),
            stage.same_dims(old(stage)),
            v1.1 <= y,
            v1.1 < v2.1 ==> y <= v2.1,
            v1.1 >= v2.1 ==> y == v1.1,
            dy1 == v2.1 - v1.1,
            dy2 == v3.1 - v1.1,
            dy1 == dy2,
            dy1 != 0,
            dy2 != 0,
            abs(v1.0 as int) <= 0x2000000000,
            abs(v1.1 as int) <= 0x2000000000,
            abs(v2.0 as int) <= 0x2000000000,
            abs(v2.1 as int) <= 0x2000000000,
            abs(v3.0 as int) <= 0x2000000000,
            abs(v3.1 as int) <= 0x2000000000,
            dxdy1 == invslope_fp(v2.0 as int - v1.0 as int, dy1 as int),
            dxdy2 == invslope_fp(v3.0 as int - v1.0 as int, dy2 as int),
            curx1 == edge_x_fp(v1.0 as int, dxdy1 as int, y - v1.1),
            curx2 == edge_x_fp(v1.0 as int, dxdy2 as int, y - v1.1),
            y - v1.1 <= abs(dy1 as int),
            forall|xx: int, yy: int|
                stage.in_bounds(xx, yy) ==> #[trigger] stage.pix(xx, yy) == (if flat_bottom_hits(
                    v1.0 as int,
                    v1.1 as int,
                    v2.0 as int,
                    v2.1 as int,
                    v3.0 as int,
                    v3.1 as int,
                    xx,
                    yy,
                ) && yy < y {
                    fill_color
                } else {
                    old(stage).pix(xx, yy)
                }),
        decreases v2.1 - y,
    {
        proof {
            lemma_edge_walk_bound(v2.0 - v1.0, dy1 as int, y - v1.1);
            lemma_edge_walk_bound(v3.0 - v1.0, dy2 as int, y - v1.1);
            lemma_edge_walk_bound(v2.0 - v1.0, dy1 as int, y + 1 - v1.1);
            lemma_edge_walk_bound(v3.0 - v1.0, dy2 as int, y + 1 - v1.1);
        }
        let xa: i64 = div_floor_i128(curx1 as i128 + 65535, 65536) as i64;
        let xb: i64 = div_floor_i128(curx2 as i128 + 65535, 65536) as i64;
        let (x0, x1t) = if xa <= xb {
            (xa, xb)
        } else {
            (xb, xa)
        };
        let x1: i64 = x1t - 1;
        if x0 <= x1 {
            stage.fill_span_wide(y as i128, x0 as i128, x1 as i128, fill_color);
        }
        proof {
            assert((y + 1 - v1.1) * (dxdy1 as int) == (y - v1.1) * (dxdy1 as int) + (
            dxdy1 as int)) by (nonlinear_arith);
            assert((y + 1 - v1.1) * (dxdy2 as int) == (y - v1.1) * (dxdy2 as int) + (
            dxdy2 as int)) by (nonlinear_arith);
        }
        curx1 = curx1 + dxdy1;
        curx2 = curx2 + dxdy2;
        y = y + 1;
    }
}

/// Fills a flat-top triangle in pixel coords where `v1.y == v2.y < v3.y`
/// (callers pass sub-triangles of a 32-bit triangle, so coordinates stay
/// within `2^33`); rows run from `v1.y` inclusive to `v3.y` exclusive.
pub(crate) fn fill_flat_top_triangle(
    stage: &mut Stage,
    v1: (i64, i64),
    v2: (i64, i64),
    v3: (i64, i64),
    fill_color: Color,
)
    requires
        old(stage).wf(),
        v1.1 == v2.1,
        abs(v1.0 as int) <= 0x2000000000,
        abs(v1.1 as int) <= 0x2000000000,
        abs(v2.0 as int) <= 0x2000000000,
        abs(v2.1 as int) <= 0x2000000000,
        abs(v3.0 as int) <= 0x2000000000,
        abs(v3.1 as int) <= 0x2000000000,
    ensures
        final(stage).wf(),
        final(stage).same_dims(old(stage)),
        forall|xx: int, yy: int|
            final(stage).in_bounds(xx, yy) ==> #[trigger] final(stage).pix(xx, yy) == (
            if flat_top_hits(
                v1.0 as int,
                v1.1 as int,
                v2.0 as int,
                v2.1 as int,
                v3.0 as int,
                v3.1 as int,
                xx,
                yy,
            ) {
                fill_color
            } else {
                old(stage).pix(xx, yy)
            }),
{
    let dy1: i64 = v3.1 - v1.1;
    let dy2: i64 = v3.1 - v2.1;
    if dy1 == 0 || dy2 == 0 {
        return ;
    }
    let dxdy1: i64 = div_trunc_i128((v3.0 - v1.0) as i128 * 65536, dy1 as i128) as i64;
    let dxdy2: i64 = div_trunc_i128((v3.0 - v2.0) as i128 * 65536, dy2 as i128) as i64;
    proof {
        lemma_edge_walk_bound(v3.0 - v1.0, dy1 as int, abs(dy1 as int));
        lemma_edge_walk_bound(v3.0 - v2.0, dy2 as int, abs(dy2 as int));
    }
    let mut curx1: i64 = v1.0 * 65536;
    let mut curx2: i64 = v2.0 * 65536;
    let mut y: i64 = v1.1;
    while y < v3.1
        invariant
            stage.wf(),
            stage.same_dims(old(stage)),
            v1.1 <= y,
            v1.1 < v3.1 ==> y <= v3.1,
            v1.1 >= v3.1 ==> y == v1.1,
            dy1 == v3.1 - v1.1,
            dy2 == v3.1 - v2.1,
            dy1 == dy2,
            dy1 != 0,
            dy2 != 0,
            abs(v1.0 as int) <= 0x2000000000,
            abs(v1.1 as int) <= 0x2000000000,
            abs(v2.0 as int) <= 0x2000000000,
            abs(v2.1 as int) <= 0x2000000000,
            abs(v3.0 as int) <= 0x2000000000,
            abs(v3.1 as int) <= 0x2000000000,
            dxdy1 == invslope_fp(v3.0 as int - v1.0 as int, dy1 as int),
            dxdy2 == invslope_fp(v3.0 as int - v2.0 as int, dy2 as int),
            curx1 == edge_x_fp(v1.0 as int, dxdy1 as int, y - v1.1),
            curx2 == edge_x_fp(v2.0 as int, dxdy2 as int, y - v1.1),
            y - v1.1 <= abs(dy1 as int),
            forall|xx: int, yy: int|
                stage.in_bounds(xx, yy) ==> #[trigger] stage.pix(xx, yy) == (if flat_top_hits(
                    v1.0 as int,
                    v1.1 as int,
                    v2.0 as int,
                    v2.1 as int,
                    v3.0 as int,
                    v3.1 as int,
                    xx,
                    yy,
                ) && yy < y {
                    fill_color
                } else {
                    old(stage).pix(xx, yy)
                }),
        decreases v3.1 - y,
    {
        proof {
            lemma_edge_walk_bound(v3.0 - v1.0, dy1 as int, y - v1.1);
            lemma_edge_walk_bound(v3.0 - v2.0, dy2 as int, y - v1.1);
            lemma_edge_walk_bound(v3.0 - v1.0, dy1 as int, y + 1 - v1.1);
            lemma_edge_walk_bound(v3.0 - v2.0, dy2 as int, y + 1 - v1.1);
        }
        let xa: i64 = div_floor_i128(curx1 as i128 + 65535, 65536) as i64;
        let xb: i64 = div_floor_i128(curx2 as i128 + 65535, 65536) as i64;
        let (x0, x1t) = if xa <= xb {
            (xa, xb)
        } else {
            (xb, xa)
        };
        let x1: i64 = x1t - 1;
        if x0 <= x1 {
            stage.fill_span_wide(y as i128, x0 as i128, x1 as i128, fill_color);
        }
        proof {
            assert((y + 1 - v1.1) * (dxdy1 as int) == (y - v1.1) * (dxdy1 as int) + (
            dxdy1 as int)) by (nonlinear_arith);
            assert((y + 1 - v1.1) * (dxdy2 as int) == (y - v1.1) * (dxdy2 as int) + (
            dxdy2 as int)) by (nonlinear_arith);
        }
        curx1 = curx1 + dxdy1;
        curx2 = curx2 + dxdy2;
        y = y + 1;
    }
}

/// Scan-fills an arbitrary triangle in pixel coords with `fill_color`:
/// vertices are sorted by y, a flat triangle is walked directly, any other
/// is split at the middle vertex's height, and a degenerate triangle (all
/// vertices on one row) is a no-op.
pub fn fill_triangle(
    stage: &mut Stage,
    xy1: (i32, i32),
    xy2: (i32, i32),
    xy3: (i32, i32),
    fill_color: Color,
)
    requires
        old(stage).wf(),
    ensures
        final(stage).wf(),
        final(stage).same_dims(old(stage)),
        forall|xx: int, yy: int|
            final(stage).in_bounds(xx, yy) ==> #[trigger] final(stage).pix(xx, yy) == (
            if triangle_hits(
                (xy1.0 as int, xy1.1 as int),
                (xy2.0 as int, xy2.1 as int),
                (xy3.0 as int, xy3.1 as int),
                xx,
                yy,
            ) {
                fill_color
            } else {
                old(stage).pix(xx, yy)
            }),
{
    fill_triangle_wide(
        stage,
        (xy1.0 as i64, xy1.1 as i64),
        (xy2.0 as i64, xy2.1 as i64),
        (xy3.0 as i64, xy3.1 as i64),
        fill_color,
    );
}

/// [`fill_triangle`] on 64-bit vertices whose coordinates stay within
/// `2^33`, as the thick-stroke quadrilaterals of a path need.
pub(crate) fn fill_triangle_wide(
    stage: &mut Stage,
    xy1: (i64, i64),
    xy2: (i64, i64),
    xy3: (i64, i64),
    fill_color: Color,
)
    requires
        old(stage).wf(),
        abs(xy1.0 as int) <= 0x200000000,
        abs(xy1.1 as int) <= 0x200000000,
        abs(xy2.0 as int) <= 0x200000000,
        abs(xy2.1 as int) <= 0x200000000,
        abs(xy3.0 as int) <= 0x200000000,
        abs(xy3.1 as int) <= 0x200000000,
    ensures
        final(stage).wf(),
        final(stage).same_dims(old(stage)),
        forall|xx: int, yy: int|
            final(stage).in_bounds(xx, yy) ==> #[trigger] final(stage).pix(xx, yy) == (
            if triangle_hits(
                (xy1.0 as int, xy1.1 as int),
                (xy2.0 as int, xy2.1 as int),
                (xy3.0 as int, xy3.1 as int),
                xx,
                yy,
            ) {
                fill_color
            } else {
                old(stage).pix(xx, yy)
            }),
{
    let s = sort_vertices(xy1, xy2, xy3);
    let v1 = s.0;
    let v2 = s.1;
    let v3 = s.2;
    if v1.1 == v3.1 {
        return ;
    }
    if v2.1 == v3.1 {
        fill_flat_bottom_triangle(stage, v1, v2, v3, fill_color);
    } else if v1.1 == v2.1 {
        fill_flat_top_triangle(stage, v1, v2, v3, fill_color);
    } else {
        let dy: i64 = v3.1 - v1.1;
        let t128: i128 = div_trunc_i128((v2.1 - v1.1) as i128 * 65536, dy as i128);
        proof {
            let aa = ((v2.1 - v1.1) as int) * 65536;
            let bb = dy as int;
            assert(aa > 0) by (nonlinear_arith)
                requires
                    v2.1 - v1.1 >= 1,
                    aa == ((v2.1 - v1.1) as int) * 65536,
            ;
            assert(t128 == aa / bb);
            assert(aa < bb * 65536) by (nonlinear_arith)
                requires
                    ((v2.1 - v1.1) as int) < bb,
                    aa == ((v2.1 - v1.1) as int) * 65536,
            ;
            assert(0 <= aa / bb < 65536) by {
                vstd::arithmetic::div_mod::lemma_div_pos_is_pos(aa, bb);
                vstd::arithmetic::div_mod::lemma_multiply_divide_lt(aa, bb, 65536);
            }
        }
        let t_fp: i64 = t128 as i64;
        proof {
            assert(-0x4000000000000 <= (t_fp as int) * ((v3.0 - v1.0) as int)
                <= 0x4000000000000) by (nonlinear_arith)
                requires
                    0 <= t_fp as int <= 65535,
                    -0x400000000 <= ((v3.0 - v1.0) as int) <= 0x400000000,
            ;
        }
        let p: i128 = t_fp as i128 * (v3.0 - v1.0) as i128;
        let d: i64 = div_floor_i128(p, 65536) as i64;
        proof {
            lemma_fundamental_div_mod(p as int, 65536);
            vstd::arithmetic::div_mod::lemma_mod_division_less_than_divisor(p as int, 65536);
            assert(p as int % 65536 >= 0);
        }
        let x4: i64 = v1.0 + d;
        let v4: (i64, i64) = (x4, v2.1);
        fill_flat_bottom_triangle(stage, v1, v2, v4, fill_color);
        fill_flat_top_triangle(stage, v2, v4, v3, fill_color);
    }
}

/// Draws a triangle in pixel coords with the given style: the interior is
/// scan-filled first if a fill is present, then the three edges are drawn
/// as single-pixel lines if a stroke is present; with neither, nothing
/// happens.
pub fn draw_triangle_pxl(
    stage: &mut Stage,
    xy1: (i32, i32),
    xy2: (i32, i32),
    xy3: (i32, i32),
    style: Style,
)
    requires
        old(stage).wf(),
    ensures
        final(stage).wf(),
        final(stage).same_dims(old(stage)),
        forall|xx: int, yy: int|
            final(stage).in_bounds(xx, yy) ==> #[trigger] final(stage).pix(xx, yy) == (
            if style.stroke is Some && triangle_edge_paints(
                old(stage).spec_width(),
                old(stage).spec_height(),
                (xy1.0 as int, xy1.1 as int),
                (xy2.0 as int, xy2.1 as int),
                (xy3.0 as int, xy3.1 as int),
                xx,
                yy,
            ) {
                effective_color(style.stroke.unwrap().color, style.stroke.unwrap().opacity)
            } else if style.fill is Some && triangle_hits(
                (xy1.0 as int, xy1.1 as int),
                (xy2.0 as int, xy2.1 as int),
                (xy3.0 as int, xy3.1 as int),
                xx,
                yy,
            ) {
                effective_color(style.fill.unwrap().color, style.fill.unwrap().opacity)
            } else {
                old(stage).pix(xx, yy)
            }),
{
    if !style.fill_or_stroke_exists() {
        return ;
    }
    if let Some(fill) = style.fill {
        let fill_color = fill.rgba();
        fill_triangle(stage, xy1, xy2, xy3, fill_color);
    }
    if let Some(stroke) = style.stroke {
        let stroke_color = stroke.rgba();
        draw_line_pxl(stage, xy1, xy2, stroke_color);
        draw_line_pxl(stage, xy2, xy3, stroke_color);
        draw_line_pxl(stage, xy3, xy1, stroke_color);
    }
}

/// Whether one of the three edges of the triangle `p1-p2-p3`, drawn as
/// single-pixel clipped lines, paints pixel `(x, y)` on a `w` x `h` stage.
pub open spec fn triangle_edge_paints(
    w: int,
    h: int,
    p1: (int, int),
    p2: (int, int),
    p3: (int, int),
    x: int,
    y: int,
) -> bool {
    ||| seg_paints(w, h, p1.0, p1.1, p2.0, p2.1, x, y)
    ||| seg_paints(w, h, p2.0, p2.1, p3.0, p3.1, x, y)
    ||| seg_paints(w, h, p3.0, p3.1, p1.0, p1.1, x, y)
}

} // verus!

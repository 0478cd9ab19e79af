//! The generic polygon renderer: an ordered sequence of world-space points
//! with a closed flag, filled by the scanline parity rule and stroked with
//! lines or quadrilaterals.
//!
//! For each scanline within the path's vertical bounds, every
//! non-horizontal edge contributes an x-crossing on a half-open span of
//! rows (so a shared vertex is never counted twice); the crossings are
//! sorted, and each consecutive pair encloses a filled span narrowed by one
//! pixel on each side, reserving the boundary for the stroke pass.

use vstd::prelude::*;
use crate::stage::Stage;
use crate::stage::world_x_to_pixel;
use crate::stage::world_y_to_pixel;
use crate::style::Color;
use crate::style::Style;
use crate::style::effective_color;
use crate::arith::div_floor_i128;
use crate::arith::sqrt_floor;
use crate::arith::lemma_sqrt_floor_bounds;
use crate::arith::abs;
use crate::arith::isqrt;
use crate::primitives::line::seg_paints;
use crate::primitives::line::draw_line_pxl;
use crate::primitives::triangle::triangle_hits;
use crate::primitives::triangle::fill_triangle_wide;

verus! {

/// The node list of a pixel-space polygon, as mathematical pairs.
pub open spec fn nodes_view(s: Seq<(i32, i32)>) -> Seq<(int, int)> {
    s.map_values(|p: (i32, i32)| (p.0 as int, p.1 as int))
}

/// A sequence of crossing columns, as mathematical integers.
pub open spec fn ints_of(s: Seq<i128>) -> Seq<int> {
    s.map_values(|v: i128| v as int)
}

/// The least y among the first `i` nodes.
pub open spec fn y_min_upto(nodes: Seq<(int, int)>, i: int) -> int
    decreases i,
{
    if i <= 1 {
        nodes[0].1
    } else {
        let m = y_min_upto(nodes, i - 1);
        if nodes[i - 1].1 < m {
            nodes[i - 1].1
        } else {
            m
        }
    }
}

/// The greatest y among the first `i` nodes.
pub open spec fn y_max_upto(nodes: Seq<(int, int)>, i: int) -> int
    decreases i,
{
    if i <= 1 {
        nodes[0].1
    } else {
        let m = y_max_upto(nodes, i - 1);
        if nodes[i - 1].1 > m {
            nodes[i - 1].1
        } else {
            m
        }
    }
}

/// The least y of the path's nodes.
pub open spec fn poly_y_min(nodes: Seq<(int, int)>) -> int {
    y_min_upto(nodes, nodes.len() as int)
}

/// The greatest y of the path's nodes.
pub open spec fn poly_y_max(nodes: Seq<(int, int)>) -> int {
    y_max_upto(nodes, nodes.len() as int)
}

/// Whether the edge between rows `y1` and `y2` crosses scanline `y`: the
/// edge is not horizontal and `y` lies in the half-open row span
/// `[min(y1,y2), max(y1,y2))`.
pub open spec fn edge_crosses(y1: int, y2: int, y: int) -> bool {
    y1 != y2 && (if y1 <= y2 {
        y1 <= y < y2
    } else {
        y2 <= y < y1
    })
}

/// The crossing column of the edge `(x1,y1)-(x2,y2)` at scanline `y`:
/// `x1 + (y - y1) * (x2 - x1) / (y2 - y1)`, floored to an integer.
pub open spec fn edge_cross_x(x1: int, y1: int, x2: int, y2: int, y: int) -> int {
    let num = (y - y1) * (x2 - x1);
    let den = y2 - y1;
    x1 + (if den > 0 {
        num / den
    } else {
        (-num) / (-den)
    })
}

/// The crossings of the first `i` consecutive edges at scanline `y`, in
/// edge order.
pub open spec fn crossings_upto(nodes: Seq<(int, int)>, y: int, i: int) -> Seq<int>
    decreases i,
{
    if i <= 0 {
        Seq::empty()
    } else {
        let prev = crossings_upto(nodes, y, i - 1);
        let p1 = nodes[i - 1];
        let p2 = nodes[i];
        if edge_crosses(p1.1, p2.1, y) {
            prev.push(edge_cross_x(p1.0, p1.1, p2.0, p2.1, y))
        } else {
            prev
        }
    }
}

/// All crossings at scanline `y`: the consecutive edges, then the closing
/// edge from the last node back to the first.
pub open spec fn row_crossings(nodes: Seq<(int, int)>, y: int) -> Seq<int> {
    let base = crossings_upto(nodes, y, nodes.len() - 1);
    let p1 = nodes[nodes.len() - 1];
    let p2 = nodes[0];
    if edge_crosses(p1.1, p2.1, y) {
        base.push(edge_cross_x(p1.0, p1.1, p2.0, p2.1, y))
    } else {
        base
    }
}

/// An edge crosses scanline `y` exactly when `y` separates its endpoint
/// rows: the half-open row span makes the test a disagreement of the two
/// "at or above `y`" flags.
proof fn lemma_edge_crosses_flags(y1: int, y2: int, y: int)
    ensures
        edge_crosses(y1, y2, y) <==> ((y1 <= y) != (y2 <= y)),
{
}

/// The consecutive edges up to node `i` cross scanline `y` an odd number
/// of times exactly when the first and `i`-th node sit on opposite sides
/// of it.
proof fn lemma_crossings_upto_parity(nodes: Seq<(int, int)>, y: int, i: int)
    requires
        0 <= i < nodes.len(),
    ensures
        crossings_upto(nodes, y, i).len() % 2 == (if (nodes[0].1 <= y) != (nodes[i].1 <= y) {
            1int
        } else {
            0int
        }),
    decreases i,
{
    if i > 0 {
        lemma_crossings_upto_parity(nodes, y, i - 1);
        lemma_edge_crosses_flags(nodes[i - 1].1, nodes[i].1, y);
    }
}

/// Around a closed node loop, every scanline is crossed an even number of
/// times: the parity rule's pairing never leaves a dangling crossing.
pub proof fn lemma_row_crossings_even(nodes: Seq<(int, int)>, y: int)
    requires
        nodes.len() >= 1,
    ensures
        row_crossings(nodes, y).len() % 2 == 0,
{
    lemma_crossings_upto_parity(nodes, y, nodes.len() - 1);
    lemma_edge_crosses_flags(nodes[nodes.len() - 1].1, nodes[0].1, y);
}

/// `x` placed into the sorted sequence `s`, after any equal elements.
pub open spec fn insert_sorted(x: int, s: Seq<int>) -> Seq<int>
    decreases s.len(),
{
    if s.len() == 0 {
        seq![x]
    } else if x < s[0] {
        seq![x] + s
    } else {
        seq![s[0]] + insert_sorted(x, s.drop_first())
    }
}

/// The sequence sorted ascending, by insertion.
pub open spec fn sort_ints(s: Seq<int>) -> Seq<int>
    decreases s.len(),
{
    if s.len() == 0 {
        Seq::empty()
    } else {
        insert_sorted(s.last(), sort_ints(s.drop_last()))
    }
}

/// Whether `x` lies strictly between the `j`-th pair of sorted crossings:
/// each pair's span is narrowed by one pixel on each side.
pub open spec fn pair_covers(cs: Seq<int>, j: int, x: int) -> bool {
    cs[2 * j] + 1 <= x <= cs[2 * j + 1] - 1
}

/// Whether `x` lies inside some consecutive pair of the sorted crossings
/// (the even-odd parity rule).
pub open spec fn in_fill_pairs(cs: Seq<int>, x: int) -> bool {
    exists|j: int| 0 <= j && 2 * j + 1 < cs.len() && #[trigger] pair_covers(cs, j, x)
}

/// Whether scan-filling the polygon colors pixel `(x, y)` of scanline `y`.
pub open spec fn poly_row_hits(nodes: Seq<(int, int)>, x: int, y: int) -> bool {
    in_fill_pairs(sort_ints(row_crossings(nodes, y)), x)
}

/// Whether filling the closed polygon `nodes` on a stage of height `h`
/// colors pixel `(x, y)`: at least three nodes, a proper vertical extent,
/// a scanline within the vertical bounds clipped to the stage, and a
/// column inside some crossing pair.
pub open spec fn poly_fill_hits(nodes: Seq<(int, int)>, h: int, x: int, y: int) -> bool {
    &&& nodes.len() >= 3
    &&& poly_y_min(nodes) < poly_y_max(nodes)
    &&& (if poly_y_min(nodes) >= 0 {
        poly_y_min(nodes)
    } else {
        0
    }) <= y
    &&& y <= (if poly_y_max(nodes) <= h - 1 {
        poly_y_max(nodes)
    } else {
        h - 1
    })
    &&& poly_row_hits(nodes, x, y)
}

/// The grid a polygon fill produces: every pixel the polygon covers takes
/// the fill color, every other pixel keeps its value.
pub open spec fn poly_fill_grid(
    g: Seq<Color>,
    w: int,
    h: int,
    nodes: Seq<(int, int)>,
    c: Color,
) -> Seq<Color> {
    Seq::new(
        g.len(),
        |i: int|
            if poly_fill_hits(nodes, h, i % w, i / w) {
                c
            } else {
                g[i]
            },
    )
}

/// Re-running the polygon fill on identical input is idempotent: the
/// second run changes no pixel.
pub proof fn lemma_poly_fill_idempotent(
    g: Seq<Color>,
    w: int,
    h: int,
    nodes: Seq<(int, int)>,
    c: Color,
)
    ensures
        poly_fill_grid(poly_fill_grid(g, w, h, nodes, c), w, h, nodes, c) =~= poly_fill_grid(
            g,
            w,
            h,
            nodes,
            c,
        ),
{
}

/// On a scanline with exactly two crossings — every scanline of a convex
/// polygon — precisely the pixels strictly between them are covered.
pub proof fn lemma_two_crossings_cover(cs: Seq<int>, x: int)
    requires
        cs.len() == 2,
    ensures
        in_fill_pairs(cs, x) <==> cs[0] + 1 <= x <= cs[1] - 1,
{
    if cs[0] + 1 <= x <= cs[1] - 1 {
        assert(pair_covers(cs, 0, x));
    }
    if in_fill_pairs(cs, x) {
        let j = choose|j: int| 0 <= j && 2 * j + 1 < cs.len() && #[trigger] pair_covers(cs, j, x);
        assert(j == 0);
    }
}

/// A stage whose pixels satisfy the polygon fill's pointwise contract has
/// exactly the grid [`poly_fill_grid`] describes; with
/// [`lemma_poly_fill_idempotent`], re-running the fill on identical input
/// leaves that grid unchanged.
pub proof fn lemma_fill_grid_of(pre: Stage, post: Stage, nodes: Seq<(int, int)>, c: Color)
    requires
        pre.wf(),
        post.wf(),
        post.same_dims(&pre),
        forall|xx: int, yy: int|
            post.in_bounds(xx, yy) ==> #[trigger] post.pix(xx, yy) == (if poly_fill_hits(
                nodes,
                pre.spec_height(),
                xx,
                yy,
            ) {
                c
            } else {
                pre.pix(xx, yy)
            }),
    ensures
        post.grid() == poly_fill_grid(pre.grid(), pre.spec_width(), pre.spec_height(), nodes, c),
{
    let w = pre.spec_width();
    let h = pre.spec_height();
    assert forall|i: int| 0 <= i < post.grid().len() implies post.grid()[i] == poly_fill_grid(
        pre.grid(),
        w,
        h,
        nodes,
        c,
    )[i] by {
        let x = i % w;
        let y = i / w;
        vstd::arithmetic::div_mod::lemma_fundamental_div_mod(i, w);
        vstd::arithmetic::div_mod::lemma_mod_division_less_than_divisor(i, w);
        vstd::arithmetic::div_mod::lemma_div_pos_is_pos(i, w);
        vstd::arithmetic::div_mod::lemma_multiply_divide_lt(i, w, h);
        assert(post.in_bounds(x, y));
        assert(crate::stage::grid_index(w, x, y) == i) by (nonlinear_arith)
            requires
                i == w * (i / w) + i % w,
                x == i % w,
                y == i / w,
                crate::stage::grid_index(w, x, y) == y * w + x,
        ;
        assert(post.pix(x, y) == post.grid()[i]);
        assert(pre.pix(x, y) == pre.grid()[i]);
    }
    assert(post.grid() =~= poly_fill_grid(pre.grid(), w, h, nodes, c));
}

/// Returns the least and greatest node y, `(ymin, ymax)`.
fn y_bound(nodes_px: &Vec<(i32, i32)>) -> (r: (i32, i32))
    requires
        nodes_px@.len() >= 1,
    ensures
        r.0 == poly_y_min(nodes_view(nodes_px@)),
        r.1 == poly_y_max(nodes_view(nodes_px@)),
{
    let mut ymin: i32 = nodes_px[0].1;
    let mut ymax: i32 = nodes_px[0].1;
    let mut i: usize = 1;
    while i < nodes_px.len()
        invariant
            1 <= i <= nodes_px@.len(),
            ymin == y_min_upto(nodes_view(nodes_px@), i as int),
            ymax == y_max_upto(nodes_view(nodes_px@), i as int),
        decreases nodes_px@.len() - i,
    {
        let y = nodes_px[i].1;
        if y < ymin {
            ymin = y;
        }
        if y > ymax {
            ymax = y;
        }
        i = i + 1;
    }
    (ymin, ymax)
}

/// Collects the crossing columns of every qualifying edge at scanline `y`,
/// in edge order.
fn compute_crossings(nodes_px: &Vec<(i32, i32)>, y: i64) -> (r: Vec<i128>)
    requires
        nodes_px@.len() >= 3,
        0 <= y <= 0x7fffffff,
    ensures
        ints_of(r@) == row_crossings(nodes_view(nodes_px@), y as int),
        forall|k: int|
            0 <= k < r@.len() ==> -0x40000000000000000 <= #[trigger] r@[k] <= 0x40000000000000000,
{
    let ghost nv = nodes_view(nodes_px@);
    let mut crossings: Vec<i128> = Vec::new();
    let mut i: usize = 0;
    while i < nodes_px.len() - 1
        invariant
            nodes_px@.len() >= 3,
            0 <= y <= 0x7fffffff,
            i + 1 <= nodes_px@.len(),
            nv == nodes_view(nodes_px@),
            ints_of(crossings@) =~= crossings_upto(nv, y as int, i as int),
            forall|k: int|
                0 <= k < crossings@.len() ==> -0x40000000000000000 <= #[trigger] crossings@[k]
                    <= 0x40000000000000000,
        decreases nodes_px@.len() - i,
    {
        push_edge_crossing(&mut crossings, nodes_px[i], nodes_px[i + 1], y);
        proof {
            assert(ints_of(crossings@) =~= crossings_upto(nv, y as int, i + 1));
        }
        i = i + 1;
    }
    push_edge_crossing(&mut crossings, nodes_px[nodes_px.len() - 1], nodes_px[0], y);
    proof {
        assert(ints_of(crossings@) =~= row_crossings(nv, y as int));
    }
    crossings
}

/// Appends the crossing of one edge at scanline `y`, if the edge crosses
/// it.
fn push_edge_crossing(crossings: &mut Vec<i128>, p1: (i32, i32), p2: (i32, i32), y: i64)
    requires
        0 <= y <= 0x7fffffff,
    ensures
        ints_of(final(crossings)@) == (if edge_crosses(p1.1 as int, p2.1 as int, y as int) {
            ints_of(old(crossings)@).push(
                edge_cross_x(p1.0 as int, p1.1 as int, p2.0 as int, p2.1 as int, y as int),
            )
        } else {
            ints_of(old(crossings)@)
        }),
        forall|k: int|
            0 <= k < final(crossings)@.len() ==> ((k < old(crossings)@.len()
                ==> #[trigger] final(crossings)@[k] == old(crossings)@[k]) && (k >= old(
                crossings,
            )@.len() ==> -0x40000000000000000 <= final(crossings)@[k] <= 0x40000000000000000)),
{
    let (x1, y1e) = p1;
    let (x2, y2e) = p2;
    if y1e != y2e {
        let ylo: i32 = if y1e <= y2e {
            y1e
        } else {
            y2e
        };
        let yhi: i32 = if y1e <= y2e {
            y2e
        } else {
            y1e
        };
        if y >= ylo as i64 && y < yhi as i64 {
            proof {
                assert(-0x10000000000000000 <= (y as int - y1e as int) * (x2 as int - x1 as int)
                    <= 0x10000000000000000) by (nonlinear_arith)
                    requires
                        -0x100000000 <= y as int - y1e as int <= 0x100000000,
                        -0x100000000 <= x2 as int - x1 as int <= 0x100000000,
                ;
            }
            let num: i128 = (y as i128 - y1e as i128) * (x2 as i128 - x1 as i128);
            let den: i128 = y2e as i128 - y1e as i128;
            let q: i128 = if den > 0 {
                div_floor_i128(num, den)
            } else {
                div_floor_i128(-num, -den)
            };
            proof {
                if den > 0 {
                    crate::arith::lemma_div_bounds(num as int, den as int);
                } else {
                    crate::arith::lemma_div_bounds(-(num as int), -(den as int));
                }
            }
            crossings.push(x1 as i128 + q);
            proof {
                assert(ints_of(crossings@) =~= ints_of(old(crossings)@).push(
                    edge_cross_x(p1.0 as int, p1.1 as int, p2.0 as int, p2.1 as int, y as int),
                ));
            }
        }
    }
}

/// Inserting into a sorted sequence at the first position whose element
/// exceeds the new value is what [`insert_sorted`] computes.
proof fn lemma_insert_sorted_at(s: Seq<int>, x: int, j: int)
    requires
        0 <= j <= s.len(),
        forall|k: int| 0 <= k < j ==> s[k] <= x,
        j == s.len() || s[j] > x,
    ensures
        insert_sorted(x, s) =~= s.insert(j, x),
    decreases s.len(),
{
    if s.len() == 0 {
        assert(insert_sorted(x, s) =~= s.insert(0, x));
    } else if j == 0 {
        assert(insert_sorted(x, s) =~= s.insert(0, x));
    } else {
        assert(s[0] <= x);
        lemma_insert_sorted_at(s.drop_first(), x, j - 1);
        assert(insert_sorted(x, s) =~= s.insert(j, x));
    }
}

/// Sorts the crossing columns ascending by insertion, keeping every value
/// within the given magnitude bound.
fn sort_crossings(v: Vec<i128>) -> (r: Vec<i128>)
    requires
        forall|k: int|
            0 <= k < v@.len() ==> -0x40000000000000000 <= #[trigger] v@[k] <= 0x40000000000000000,
    ensures
        ints_of(r@) == sort_ints(ints_of(v@)),
        r@.len() == v@.len(),
        forall|k: int|
            0 <= k < r@.len() ==> -0x40000000000000000 <= #[trigger] r@[k] <= 0x40000000000000000,
{
    let mut out: Vec<i128> = Vec::new();
    let mut i: usize = 0;
    while i < v.len()
        invariant
            i <= v@.len(),
            out@.len() == i,
            forall|k: int|
                0 <= k < v@.len() ==> -0x40000000000000000 <= #[trigger] v@[k]
                    <= 0x40000000000000000,
            forall|k: int|
                0 <= k < out@.len() ==> -0x40000000000000000 <= #[trigger] out@[k]
                    <= 0x40000000000000000,
            ints_of(out@) =~= sort_ints(ints_of(v@.take(i as int))),
            forall|a: int, b: int| 0 <= a < b < out@.len() ==> out@[a] <= out@[b],
        decreases v@.len() - i,
    {
        let x = v[i];
        let mut j: usize = 0;
        while j < out.len() && out[j] <= x
            invariant
                j <= out@.len(),
                forall|k: int| 0 <= k < j ==> out@[k] <= x,
            decreases out@.len() - j,
        {
            j = j + 1;
        }
        let ghost prev = out@;
        out.insert(j, x);
        proof {
            lemma_insert_sorted_at(ints_of(prev), x as int, j as int);
            assert(ints_of(out@) =~= ints_of(prev).insert(j as int, x as int));
            assert(ints_of(v@.take(i + 1)) =~= ints_of(v@.take(i as int)).push(x as int));
            assert(ints_of(v@.take(i + 1)).drop_last() =~= ints_of(v@.take(i as int)));
            assert(ints_of(out@) =~= sort_ints(ints_of(v@.take(i + 1))));
            assert forall|a: int, b: int| 0 <= a < b < out@.len() implies out@[a] <= out@[b] by {
                if b < j {
                    assert(prev[a] <= prev[b]);
                } else if a < j && b == j {
                    assert(prev[a] <= x);
                } else if a < j && b > j {
                    assert(prev[a] <= prev[b - 1]);
                } else if a == j && b > j {
                    assert(x < prev[j as int]);
                    assert(prev[j as int] <= prev[b - 1]);
                } else if a > j {
                    assert(prev[a - 1] <= prev[b - 1]);
                }
            }
        }
        i = i + 1;
    }
    proof {
        assert(v@.take(v@.len() as int) =~= v@);
    }
    out
}

/// Fills the spans of one scanline of a closed polygon: the sorted
/// crossings are taken in consecutive pairs, each filled one pixel narrower
/// on each side.
fn fill_poly_row(stage: &mut Stage, nodes_px: &Vec<(i32, i32)>, y: i64, color: Color)
    requires
        old(stage).wf(),
        nodes_px@.len() >= 3,
        0 <= y <= 0x7fffffff,
    ensures
        final(stage).wf(),
        final(stage).same_dims(old(stage)),
        forall|xx: int, yy: int|
            final(stage).in_bounds(xx, yy) ==> #[trigger] final(stage).pix(xx, yy) == (if yy == y
                && poly_row_hits(nodes_view(nodes_px@), xx, y as int) {
                color
            } else {
                old(stage).pix(xx, yy)
            }),
{
    let crossings = compute_crossings(nodes_px, y);
    let sorted = sort_crossings(crossings);
    let ghost cs = sort_ints(row_crossings(nodes_view(nodes_px@), y as int));
    proof {
        assert(ints_of(sorted@) == cs);
    }
    let mut p: usize = 0;
    while p < sorted.len() / 2
        invariant
            stage.wf(),
            stage.same_dims(old(stage)),
            ints_of(sorted@) == cs,
            2 * p <= sorted@.len() + 1,
            forall|k: int|
                0 <= k < sorted@.len() ==> -0x40000000000000000 <= #[trigger] sorted@[k]
                    <= 0x40000000000000000,
            forall|xx: int, yy: int|
                stage.in_bounds(xx, yy) ==> #[trigger] stage.pix(xx, yy) == (if yy == y && (
                exists|jj: int|
                    0 <= jj < p && 2 * jj + 1 < cs.len() && #[trigger] pair_covers(cs, jj, xx)) {
                    color
                } else {
                    old(stage).pix(xx, yy)
                }),
        decreases sorted@.len() - 2 * p,
    {
        let xl = sorted[2 * p];
        let xr = sorted[2 * p + 1];
        let l: i128 = xl + 1;
        let r: i128 = xr - 1;
        if l <= r {
            stage.fill_span_wide(y as i128, l, r, color);
        }
        proof {
            let p0 = p as int;
            assert forall|xx: int, yy: int| stage.in_bounds(xx, yy) implies #[trigger] stage.pix(
                xx,
                yy,
            ) == (if yy == y && (exists|jj: int|
                0 <= jj < p0 + 1 && 2 * jj + 1 < cs.len() && #[trigger] pair_covers(
                    cs,
                    jj,
                    xx,
                )) {
                color
            } else {
                old(stage).pix(xx, yy)
            }) by {
                assert(cs[2 * p0] == xl as int);
                assert(cs[2 * p0 + 1] == xr as int);
                if yy == y && pair_covers(cs, p0, xx) {
                    assert(l <= xx <= r);
                    assert(stage.pix(xx, yy) == color);
                } else {
                    if yy == y && (exists|jj: int|
                        0 <= jj < p0 + 1 && 2 * jj + 1 < cs.len() && #[trigger] pair_covers(
                            cs,
                            jj,
                            xx,
                        )) {
                        let jj = choose|jj: int|
                            0 <= jj < p0 + 1 && 2 * jj + 1 < cs.len() && #[trigger] pair_covers(
                                cs,
                                jj,
                                xx,
                            );
                        assert(jj < p0);
                    }
                }
            }
        }
        p = p + 1;
    }
}

/// A value rounded to the nearest multiple of `q` (halves away from zero),
/// as a quotient.
pub open spec fn round_div(p: int, q: int) -> int {
    if p >= 0 {
        (2 * p + q) / (2 * q)
    } else {
        -((2 * (-p) + q) / (2 * q))
    }
}

/// The rounded pixel offset of a stroke corner: `n * r / (s * 65536)`,
/// where `r` is the half-width in 16.16 fixed point and `s` the edge's
/// length.
pub open spec fn stroke_off(n: int, r_fp: int, s: int) -> int {
    round_div(n * r_fp, s * 65536)
}

/// The corners of the quadrilateral that strokes the edge `p1-p2` with
/// width `wfp` (16.16 fixed point): the segment offset outward by the
/// half-width along its normal and extended by the half-width along its
/// tangent at both ends, to close miter gaps at joins; a zero-length edge
/// has no quadrilateral.
pub open spec fn stroke_quad(p1: (int, int), p2: (int, int), wfp: int) -> Option<
    ((int, int), (int, int), (int, int), (int, int)),
> {
    let dx = p2.0 - p1.0;
    let dy = p2.1 - p1.1;
    if dx == 0 && dy == 0 {
        None
    } else {
        let s = sqrt_floor(dx * dx + dy * dy);
        let r = wfp / 2;
        Some(
            (
                (p1.0 + stroke_off(-dx - dy, r, s), p1.1 + stroke_off(dx - dy, r, s)),
                (p2.0 + stroke_off(dx - dy, r, s), p2.1 + stroke_off(dy + dx, r, s)),
                (p2.0 + stroke_off(dx + dy, r, s), p2.1 + stroke_off(dy - dx, r, s)),
                (p1.0 + stroke_off(-dx + dy, r, s), p1.1 + stroke_off(-dy - dx, r, s)),
            ),
        )
    }
}

/// Whether the quadrilateral `q`, filled as two triangles sharing its
/// diagonal, covers pixel `(x, y)`.
pub open spec fn quad_paints_opt(
    q: Option<((int, int), (int, int), (int, int), (int, int))>,
    x: int,
    y: int,
) -> bool {
    match q {
        None => false,
        Some(t) => triangle_hits(t.0, t.1, t.2, x, y) || triangle_hits(t.0, t.2, t.3, x, y),
    }
}

/// Whether the single-pixel line of consecutive edge `i` paints `(x, y)`.
pub open spec fn edge_seg_paints(
    w: int,
    h: int,
    nodes: Seq<(int, int)>,
    i: int,
    x: int,
    y: int,
) -> bool {
    seg_paints(w, h, nodes[i].0, nodes[i].1, nodes[i + 1].0, nodes[i + 1].1, x, y)
}

/// Whether the single-pixel closing edge (last node back to first) paints
/// `(x, y)`.
pub open spec fn closing_seg_paints(w: int, h: int, nodes: Seq<(int, int)>, x: int, y: int) -> bool {
    seg_paints(
        w,
        h,
        nodes[nodes.len() - 1].0,
        nodes[nodes.len() - 1].1,
        nodes[0].0,
        nodes[0].1,
        x,
        y,
    )
}

/// Whether a one-pixel stroke of the path paints `(x, y)`: some edge's
/// line (the closing edge included when the path is closed) covers it.
pub open spec fn thin_stroke_paints(
    w: int,
    h: int,
    nodes: Seq<(int, int)>,
    closed: bool,
    x: int,
    y: int,
) -> bool {
    ||| exists|i: int|
        0 <= i < nodes.len() - 1 && #[trigger] edge_seg_paints(w, h, nodes, i, x, y)
    ||| (closed && closing_seg_paints(w, h, nodes, x, y))
}

/// Whether the quadrilateral of consecutive edge `i` paints `(x, y)`.
pub open spec fn edge_quad_paints(
    nodes: Seq<(int, int)>,
    i: int,
    wfp: int,
    x: int,
    y: int,
) -> bool {
    quad_paints_opt(stroke_quad(nodes[i], nodes[i + 1], wfp), x, y)
}

/// Whether the closing edge's quadrilateral paints `(x, y)`.
pub open spec fn closing_quad_paints(
    nodes: Seq<(int, int)>,
    wfp: int,
    x: int,
    y: int,
) -> bool {
    quad_paints_opt(stroke_quad(nodes[nodes.len() - 1], nodes[0], wfp), x, y)
}

/// Whether a thick stroke of the path paints `(x, y)`: some edge's
/// quadrilateral (the closing edge included when closed) covers it.
pub open spec fn thick_stroke_paints(
    nodes: Seq<(int, int)>,
    closed: bool,
    wfp: int,
    x: int,
    y: int,
) -> bool {
    ||| exists|i: int|
        0 <= i < nodes.len() - 1 && #[trigger] edge_quad_paints(nodes, i, wfp, x, y)
    ||| (closed && closing_quad_paints(nodes, wfp, x, y))
}

/// Stroke widths beyond the pixel-coordinate range are held to it.
pub open spec fn clamped_width(wfp: int) -> int {
    if wfp <= 0x800000000000 {
        wfp
    } else {
        0x800000000000
    }
}

/// Whether stroking the path with width `wfp` (16.16 fixed point) paints
/// pixel `(x, y)`: a path of fewer than two nodes or an invalid width
/// paints nothing; a width of at most one pixel draws each edge as a
/// single-pixel line; a wider stroke fills a quadrilateral per edge.
pub open spec fn stroke_paints(
    w: int,
    h: int,
    nodes: Seq<(int, int)>,
    closed: bool,
    wfp: int,
    x: int,
    y: int,
) -> bool {
    if nodes.len() < 2 || wfp <= 0 {
        false
    } else if wfp <= 65536 {
        thin_stroke_paints(w, h, nodes, closed, x, y)
    } else {
        thick_stroke_paints(nodes, closed, clamped_width(wfp), x, y)
    }
}

/// The diagonal of an edge is at least as long as either of its extents.
proof fn lemma_diag_bound(dx: int, dy: int)
    requires
        !(dx == 0 && dy == 0),
    ensures
        sqrt_floor(dx * dx + dy * dy) >= abs(dx),
        sqrt_floor(dx * dx + dy * dy) >= abs(dy),
        sqrt_floor(dx * dx + dy * dy) >= 1,
{
    let l2 = dx * dx + dy * dy;
    assert(abs(dx) * abs(dx) <= l2 && abs(dy) * abs(dy) <= l2 && l2 >= 1) by (nonlinear_arith)
        requires
            l2 == dx * dx + dy * dy,
            !(dx == 0 && dy == 0),
    ;
    lemma_sqrt_floor_bounds(l2);
    assert(sqrt_floor(l2) >= abs(dx)) by (nonlinear_arith)
        requires
            abs(dx) >= 0,
            sqrt_floor(l2) >= 0,
            abs(dx) * abs(dx) <= l2,
            l2 < (sqrt_floor(l2) + 1) * (sqrt_floor(l2) + 1),
    ;
    assert(sqrt_floor(l2) >= abs(dy)) by (nonlinear_arith)
        requires
            abs(dy) >= 0,
            sqrt_floor(l2) >= 0,
            abs(dy) * abs(dy) <= l2,
            l2 < (sqrt_floor(l2) + 1) * (sqrt_floor(l2) + 1),
    ;
    if sqrt_floor(l2) == 0 {
        assert(l2 < 1);
    }
}

/// Rounding division by `q`, halves away from zero.
fn round_div_exec(p: i128, q: i128) -> (r: i128)
    requires
        1 <= q <= 0x10000000000000000,
        -0x1000000000000000000000000 <= p <= 0x1000000000000000000000000,
    ensures
        r == round_div(p as int, q as int),
        (if r >= 0 {
            r as int
        } else {
            -(r as int)
        }) * (q as int) <= (if p >= 0 {
            p as int
        } else {
            -(p as int)
        }) + q,
{
    let m: u128 = if p >= 0 {
        p as u128
    } else {
        (-p) as u128
    };
    let d: u128 = q as u128;
    let res: u128 = (2 * m + d) / (2 * d);
    proof {
        vstd::arithmetic::div_mod::lemma_fundamental_div_mod(2 * m + d, 2 * d);
        vstd::arithmetic::div_mod::lemma_mod_division_less_than_divisor(
            2 * m as int + d,
            2 * d as int,
        );
        crate::arith::lemma_div_le_dividend(2 * m as int + d, 2 * d as int);
        assert((res as int) * (q as int) <= m + q) by (nonlinear_arith)
            requires
                2 * (d as int) * (res as int) + ((2 * m as int + d) % (2 * d as int)) == 2 * (
                m as int) + d,
                0 <= (2 * m as int + d) % (2 * d as int),
                d == q,
                q >= 1,
        ;
    }
    if p >= 0 {
        res as i128
    } else {
        -(res as i128)
    }
}

/// The rounded pixel offset of one stroke corner: within one pixel more
/// than half the stroke width.
fn stroke_offset(n: i64, r_fp: u64, s: u64, q: i128) -> (o: i64)
    requires
        1 <= s <= 0x200000000,
        q == (s as int) * 65536,
        r_fp <= 0x400000000000,
        abs(n as int) <= 2 * (s as int),
    ensures
        o == stroke_off(n as int, r_fp as int, s as int),
        abs(o as int) <= 0x100000001,
{
    proof {
        assert(-0x800000000000000000000 <= (n as int) * (r_fp as int) <= 0x800000000000000000000)
            by (nonlinear_arith)
            requires
                -0x400000000 <= n as int <= 0x400000000,
                0 <= r_fp as int <= 0x400000000000,
        ;
    }
    let p: i128 = (n as i128) * (r_fp as i128);
    let o128 = round_div_exec(p, q);
    proof {
        let oa = if o128 >= 0 {
            o128 as int
        } else {
            -(o128 as int)
        };
        let pa = if p >= 0 {
            p as int
        } else {
            -(p as int)
        };
        assert(abs((n as int) * (r_fp as int)) == abs(n as int) * (r_fp as int)) by (
        nonlinear_arith)
            requires
                r_fp as int >= 0,
        ;
        assert(pa <= 2 * (s as int) * (r_fp as int)) by (nonlinear_arith)
            requires
                pa == abs((n as int) * (r_fp as int)),
                abs(n as int) <= 2 * (s as int),
                r_fp as int >= 0,
                abs((n as int) * (r_fp as int)) == abs(n as int) * (r_fp as int),
        ;
        assert(oa * ((s as int) * 65536) <= 2 * (s as int) * (r_fp as int) + (s as int) * 65536);
        assert(65536 * oa <= 2 * (r_fp as int) + 65536) by (nonlinear_arith)
            requires
                oa * ((s as int) * 65536) <= 2 * (s as int) * (r_fp as int) + (s as int) * 65536,
                s as int >= 1,
                oa >= 0,
        ;
    }
    o128 as i64
}

/// The corners of the quadrilateral stroking the pixel-space edge
/// `xy1-xy2` with (clamped) width `width`: the ends extended and offset by
/// the rounded half-width along the edge's tangent and normal. A
/// zero-length edge yields no quadrilateral.
fn stroke_corners(xy1: (i32, i32), xy2: (i32, i32), width: u64) -> (r: Option<
    ((i64, i64), (i64, i64), (i64, i64), (i64, i64)),
>)
    requires
        1 <= width <= 0x800000000000,
    ensures
        ({
            let sq = stroke_quad(
                (xy1.0 as int, xy1.1 as int),
                (xy2.0 as int, xy2.1 as int),
                width as int,
            );
            match r {
                None => sq is None,
                Some(t) => {
                    &&& sq == Some(
                        (
                            ((t.0).0 as int, (t.0).1 as int),
                            ((t.1).0 as int, (t.1).1 as int),
                            ((t.2).0 as int, (t.2).1 as int),
                            ((t.3).0 as int, (t.3).1 as int),
                        ),
                    )
                    &&& abs((t.0).0 as int) <= 0x200000000 && abs((t.0).1 as int) <= 0x200000000
                    &&& abs((t.1).0 as int) <= 0x200000000 && abs((t.1).1 as int) <= 0x200000000
                    &&& abs((t.2).0 as int) <= 0x200000000 && abs((t.2).1 as int) <= 0x200000000
                    &&& abs((t.3).0 as int) <= 0x200000000 && abs((t.3).1 as int) <= 0x200000000
                },
            }
        }),
{
    let x1: i64 = xy1.0 as i64;
    let y1: i64 = xy1.1 as i64;
    let x2: i64 = xy2.0 as i64;
    let y2: i64 = xy2.1 as i64;
    let dx: i64 = x2 - x1;
    let dy: i64 = y2 - y1;
    if dx == 0 && dy == 0 {
        return None;
    }
    proof {
        assert(0 <= (dx as int) * (dx as int) <= 0x10000000000000000 && 0 <= (dy as int) * (
        dy as int) <= 0x10000000000000000) by (nonlinear_arith)
            requires
                -0x100000000 <= dx as int <= 0x100000000,
                -0x100000000 <= dy as int <= 0x100000000,
        ;
    }
    let l2: u128 = ((dx as i128) * (dx as i128) + (dy as i128) * (dy as i128)) as u128;
    let s: u64 = isqrt(l2);
    proof {
        lemma_diag_bound(dx as int, dy as int);
        lemma_sqrt_floor_bounds(l2 as int);
        assert(s as int <= 0x200000000) by (nonlinear_arith)
            requires
                (s as int) * (s as int) <= 0x40000000000000000,
                s as int >= 0,
        ;
    }
    let r_fp: u64 = width / 2;
    let q: i128 = (s as i128) * 65536;
    let ax = x1 + stroke_offset(0 - dx - dy, r_fp, s, q);
    let ay = y1 + stroke_offset(dx - dy, r_fp, s, q);
    let bx = x2 + stroke_offset(dx - dy, r_fp, s, q);
    let by = y2 + stroke_offset(dy + dx, r_fp, s, q);
    let cx = x2 + stroke_offset(dx + dy, r_fp, s, q);
    let cy = y2 + stroke_offset(dy - dx, r_fp, s, q);
    let ex = x1 + stroke_offset(0 - dx + dy, r_fp, s, q);
    let ey = y1 + stroke_offset(0 - dy - dx, r_fp, s, q);
    Some(((ax, ay), (bx, by), (cx, cy), (ex, ey)))
}

/// World-space path nodes (16.16 fixed point), as mathematical pairs.
pub open spec fn world_nodes_view(s: Seq<(i64, i64)>) -> Seq<(int, int)> {
    s.map_values(|p: (i64, i64)| (p.0 as int, p.1 as int))
}

/// The pixel coordinates of every path node, or `None` as soon as one
/// node's pixel coordinates are unrepresentable.
pub open spec fn path_pxls(w: int, h: int, nodes: Seq<(int, int)>) -> Option<Seq<(int, int)>>
    decreases nodes.len(),
{
    if nodes.len() == 0 {
        Some(Seq::empty())
    } else {
        match path_pxls(w, h, nodes.drop_last()) {
            None => None,
            Some(s) => {
                let px = world_x_to_pixel(w, nodes.last().0);
                let py = world_y_to_pixel(h, nodes.last().1);
                if i32::MIN <= px <= i32::MAX && i32::MIN <= py <= i32::MAX {
                    Some(s.push((px, py)))
                } else {
                    None
                }
            },
        }
    }
}

/// Once a prefix of the nodes fails to convert, the whole path does.
proof fn lemma_path_pxls_none(w: int, h: int, nodes: Seq<(int, int)>, i: int)
    requires
        0 <= i <= nodes.len(),
        path_pxls(w, h, nodes.take(i)) is None,
    ensures
        path_pxls(w, h, nodes) is None,
    decreases nodes.len() - i,
{
    if i == nodes.len() {
        assert(nodes.take(i) =~= nodes);
    } else {
        assert(nodes.take(i + 1).drop_last() =~= nodes.take(i));
        lemma_path_pxls_none(w, h, nodes, i + 1);
    }
}

/// A general path: an ordered sequence of world-space points (16.16 fixed
/// point) and whether the last point implicitly connects back to the
/// first. Constructed per draw call and not retained by the stage.
pub struct Path {
    nodes: Vec<(i64, i64)>,
    closed: bool,
}

impl Path {
    /// The path's world-space nodes.
    pub closed spec fn spec_nodes(&self) -> Seq<(int, int)> {
        world_nodes_view(self.nodes@)
    }

    /// Whether the path is closed.
    pub closed spec fn spec_closed(&self) -> bool {
        self.closed
    }

    /// Creates a [`Path`] from the given world coordinates (16.16 fixed
    /// point) and closed flag.
    pub fn new(nodes: Vec<(i64, i64)>, closed: bool) -> (p: Path)
        ensures
            p.spec_nodes() == world_nodes_view(nodes@),
            p.spec_closed() == closed,
    {
        Path { nodes, closed }
    }

    /// Converts the nodes from world to pixel coordinates; if any node is
    /// unrepresentable, bails and returns `None`.
    pub fn to_pxls(&self, stage: &Stage) -> (r: Option<Vec<(i32, i32)>>)
        requires
            stage.wf(),
        ensures
            ({
                let m = path_pxls(stage.spec_width(), stage.spec_height(), self.spec_nodes());
                match r {
                    None => m is None,
                    Some(v) => m == Some(nodes_view(v@)),
                }
            }),
    {
        let ghost w = stage.spec_width();
        let ghost h = stage.spec_height();
        let ghost nv = self.spec_nodes();
        let mut out: Vec<(i32, i32)> = Vec::new();
        let mut i: usize = 0;
        while i < self.nodes.len()
            invariant
                stage.wf(),
                w == stage.spec_width(),
                h == stage.spec_height(),
                nv == self.spec_nodes(),
                i <= self.nodes@.len(),
                nv.len() == self.nodes@.len(),
                path_pxls(w, h, nv.take(i as int)) == Some(nodes_view(out@)),
            decreases self.nodes@.len() - i,
        {
            let p = self.nodes[i];
            let px = match stage.world_to_pixel(p) {
                Some(q) => q,
                None => {
                    proof {
                        assert(nv.take(i + 1).drop_last() =~= nv.take(i as int));
                        assert(nv.take(i + 1).last() == nv[i as int]);
                        assert(path_pxls(w, h, nv.take(i + 1)) is None);
                        lemma_path_pxls_none(w, h, nv, i + 1);
                    }
                    return None;
                },
            };
            out.push(px);
            proof {
                assert(nv.take(i + 1).drop_last() =~= nv.take(i as int));
                assert(nv.take(i + 1).last() == nv[i as int]);
                assert(nodes_view(out@) =~= nodes_view(out@.drop_last()).push(
                    (px.0 as int, px.1 as int),
                ));
                assert(path_pxls(w, h, nv.take(i + 1)) == Some(nodes_view(out@)));
            }
            i = i + 1;
        }
        proof {
            assert(nv.take(nv.len() as int) =~= nv);
        }
        Some(out)
    }

    /// Fills the interior of a closed polygon given in pixel coords: for
    /// each scanline within the polygon's vertical bounds (clipped to the
    /// stage), the crossings against every non-horizontal edge are sorted
    /// and each consecutive pair's span is filled, narrowed by one pixel on
    /// each side.
    pub fn make_fill_pxl(nodes_px: &Vec<(i32, i32)>, stage: &mut Stage, fill_color: Color)
        requires
            old(stage).wf(),
        ensures
            final(stage).wf(),
            final(stage).same_dims(old(stage)),
            forall|xx: int, yy: int|
                final(stage).in_bounds(xx, yy) ==> #[trigger] final(stage).pix(xx, yy) == (
                if poly_fill_hits(nodes_view(nodes_px@), old(stage).spec_height(), xx, yy) {
                    fill_color
                } else {
                    old(stage).pix(xx, yy)
                }),
    {
        if nodes_px.len() < 3 {
            return ;
        }
        let (ymin, ymax) = y_bound(nodes_px);
        if ymin >= ymax {
            return ;
        }
        let h = stage.height();
        let y_lo: i64 = if ymin >= 0 {
            ymin as i64
        } else {
            0
        };
        let y_hi: i64 = if (h as u64) > 0x80000000 {
            ymax as i64
        } else {
            if (ymax as i64) <= h as i64 - 1 {
                ymax as i64
            } else {
                h as i64 - 1
            }
        };
        if y_lo > y_hi {
            return ;
        }
        let ghost nv = nodes_view(nodes_px@);
        let mut y: i64 = y_lo;
        while y <= y_hi
            invariant
                stage.wf(),
                stage.same_dims(old(stage)),
                nodes_px@.len() >= 3,
                nv == nodes_view(nodes_px@),
                y_lo <= y <= y_hi + 1,
                0 <= y_lo,
                y_hi <= 0x7fffffff,
                y_lo as int == (if poly_y_min(nv) >= 0 {
                    poly_y_min(nv)
                } else {
                    0
                }),
                y_hi as int == (if poly_y_max(nv) <= old(stage).spec_height() - 1 {
                    poly_y_max(nv)
                } else {
                    old(stage).spec_height() - 1
                }),
                poly_y_min(nv) < poly_y_max(nv),
                forall|xx: int, yy: int|
                    stage.in_bounds(xx, yy) ==> #[trigger] stage.pix(xx, yy) == (
                    if poly_fill_hits(nv, old(stage).spec_height(), xx, yy) && yy < y {
                        fill_color
                    } else {
                        old(stage).pix(xx, yy)
                    }),
            decreases y_hi + 1 - y,
        {
            fill_poly_row(stage, nodes_px, y, fill_color);
            y = y + 1;
        }
    }

    /// Strokes the edges of a pixel-space path: a stroke of at most one
    /// pixel draws each edge (and the closing edge, if closed) as a
    /// single-pixel line; a wider stroke builds a quadrilateral per edge
    /// and fills it as two triangles. An invalid (zero) width, or fewer
    /// than two nodes, draws nothing.
    pub fn make_stroke_pxl(
        nodes_px: &Vec<(i32, i32)>,
        closed: bool,
        width: u64,
        stage: &mut Stage,
        stroke_color: Color,
    )
        requires
            old(stage).wf(),
        ensures
            final(stage).wf(),
            final(stage).same_dims(old(stage)),
            forall|xx: int, yy: int|
                final(stage).in_bounds(xx, yy) ==> #[trigger] final(stage).pix(xx, yy) == (
                if stroke_paints(
                    old(stage).spec_width(),
                    old(stage).spec_height(),
                    nodes_view(nodes_px@),
                    closed,
                    width as int,
                    xx,
                    yy,
                ) {
                    stroke_color
                } else {
                    old(stage).pix(xx, yy)
                }),
    {
        if nodes_px.len() < 2 {
            return ;
        }
        if width == 0 {
            return ;
        }
        let ghost nv = nodes_view(nodes_px@);
        let ghost w = old(stage).spec_width();
        let ghost h = old(stage).spec_height();
        if width <= 65536 {
            let mut i: usize = 0;
            while i < nodes_px.len() - 1
                invariant
                    stage.wf(),
                    stage.same_dims(old(stage)),
                    w == old(stage).spec_width(),
                    h == old(stage).spec_height(),
                    nodes_px@.len() >= 2,
                    i <= nodes_px@.len() - 1,
                    nv == nodes_view(nodes_px@),
                    forall|xx: int, yy: int|
                        stage.in_bounds(xx, yy) ==> #[trigger] stage.pix(xx, yy) == (if (
                        exists|j: int|
                            0 <= j < i && #[trigger] edge_seg_paints(w, h, nv, j, xx, yy)) {
                            stroke_color
                        } else {
                            old(stage).pix(xx, yy)
                        }),
                decreases nodes_px@.len() - 1 - i,
            {
                let ghost i0 = i as int;
                draw_line_pxl(stage, nodes_px[i], nodes_px[i + 1], stroke_color);
                proof {
                    assert forall|xx: int, yy: int| stage.in_bounds(xx, yy) implies #[trigger] stage.pix(xx, yy) == (if (exists|j: int|
                        0 <= j < i0 + 1 && #[trigger] edge_seg_paints(w, h, nv, j, xx, yy)) {
                        stroke_color
                    } else {
                        old(stage).pix(xx, yy)
                    }) by {
                        if edge_seg_paints(w, h, nv, i0, xx, yy) {
                            assert(exists|j: int|
                                0 <= j < i0 + 1 && #[trigger] edge_seg_paints(w, h, nv, j, xx, yy));
                        } else {
                            if exists|j: int|
                                0 <= j < i0 + 1 && #[trigger] edge_seg_paints(w, h, nv, j, xx, yy) {
                                let j = choose|j: int|
                                    0 <= j < i0 + 1 && #[trigger] edge_seg_paints(
                                        w,
                                        h,
                                        nv,
                                        j,
                                        xx,
                                        yy,
                                    );
                                assert(j < i0);
                            }
                        }
                    }
                }
                i = i + 1;
            }
            if closed {
                draw_line_pxl(
                    stage,
                    nodes_px[nodes_px.len() - 1],
                    nodes_px[0],
                    stroke_color,
                );
            }
        } else {
            let wq: u64 = if width <= 0x800000000000 {
                width
            } else {
                0x800000000000
            };
            let mut i: usize = 0;
            while i < nodes_px.len() - 1
                invariant
                    stage.wf(),
                    stage.same_dims(old(stage)),
                    w == old(stage).spec_width(),
                    h == old(stage).spec_height(),
                    nodes_px@.len() >= 2,
                    i <= nodes_px@.len() - 1,
                    nv == nodes_view(nodes_px@),
                    1 <= wq <= 0x800000000000,
                    wq as int == clamped_width(width as int),
                    forall|xx: int, yy: int|
                        stage.in_bounds(xx, yy) ==> #[trigger] stage.pix(xx, yy) == (if (
                        exists|j: int|
                            0 <= j < i && #[trigger] edge_quad_paints(nv, j, wq as int, xx, yy)) {
                            stroke_color
                        } else {
                            old(stage).pix(xx, yy)
                        }),
                decreases nodes_px@.len() - 1 - i,
            {
                let ghost i0 = i as int;
                stroke_quad_edge(stage, nodes_px[i], nodes_px[i + 1], wq, stroke_color);
                proof {
                    assert forall|xx: int, yy: int| stage.in_bounds(xx, yy) implies #[trigger] stage.pix(xx, yy) == (if (exists|j: int|
                        0 <= j < i0 + 1 && #[trigger] edge_quad_paints(nv, j, wq as int, xx, yy)) {
                        stroke_color
                    } else {
                        old(stage).pix(xx, yy)
                    }) by {
                        if edge_quad_paints(nv, i0, wq as int, xx, yy) {
                            assert(exists|j: int|
                                0 <= j < i0 + 1 && #[trigger] edge_quad_paints(
                                    nv,
                                    j,
                                    wq as int,
                                    xx,
                                    yy,
                                ));
                        } else {
                            if exists|j: int|
                                0 <= j < i0 + 1 && #[trigger] edge_quad_paints(
                                    nv,
                                    j,
                                    wq as int,
                                    xx,
                                    yy,
                                ) {
                                let j = choose|j: int|
                                    0 <= j < i0 + 1 && #[trigger] edge_quad_paints(
                                        nv,
                                        j,
                                        wq as int,
                                        xx,
                                        yy,
                                    );
                                assert(j < i0);
                            }
                        }
                    }
                }
                i = i + 1;
            }
            if closed {
                stroke_quad_edge(
                    stage,
                    nodes_px[nodes_px.len() - 1],
                    nodes_px[0],
                    wq,
                    stroke_color,
                );
            }
        }
    }

    /// Renders the path on a stage using a style: a closed path is filled
    /// first (if a fill is present), then the stroke (if present) is drawn
    /// on top. If any node's pixel coordinates are unrepresentable, the
    /// whole path is abandoned and nothing is drawn.
    pub fn render(&self, stage: &mut Stage, style: Style)
        requires
            old(stage).wf(),
        ensures
            final(stage).wf(),
            final(stage).same_dims(old(stage)),
            forall|xx: int, yy: int|
                final(stage).in_bounds(xx, yy) ==> #[trigger] final(stage).pix(xx, yy) == ({
                    let w = old(stage).spec_width();
                    let h = old(stage).spec_height();
                    match path_pxls(w, h, self.spec_nodes()) {
                        None => old(stage).pix(xx, yy),
                        Some(pnodes) => {
                            if style.stroke is Some && stroke_paints(
                                w,
                                h,
                                pnodes,
                                self.spec_closed(),
                                style.stroke.unwrap().width as int,
                                xx,
                                yy,
                            ) {
                                effective_color(
                                    style.stroke.unwrap().color,
                                    style.stroke.unwrap().opacity,
                                )
                            } else if self.spec_closed() && style.fill is Some && poly_fill_hits(
                                pnodes,
                                h,
                                xx,
                                yy,
                            ) {
                                effective_color(
                                    style.fill.unwrap().color,
                                    style.fill.unwrap().opacity,
                                )
                            } else {
                                old(stage).pix(xx, yy)
                            }
                        },
                    }
                }),
    {
        let nodes_px = match self.to_pxls(stage) {
            Some(v) => v,
            None => {
                return ;
            },
        };
        if !style.fill_or_stroke_exists() {
            return ;
        }
        if self.closed {
            if let Some(fill) = style.fill {
                let fill_color = fill.rgba();
                Self::make_fill_pxl(&nodes_px, stage, fill_color);
            }
        }
        if let Some(stroke) = style.stroke {
            let stroke_color = stroke.rgba();
            Self::make_stroke_pxl(&nodes_px, self.closed, stroke.width, stage, stroke_color);
        }
    }
}

/// Fills the stroke quadrilateral of one thick edge, as two triangles
/// sharing the diagonal; a zero-length edge contributes nothing.
fn stroke_quad_edge(stage: &mut Stage, p1: (i32, i32), p2: (i32, i32), wq: u64, color: Color)
    requires
        old(stage).wf(),
        1 <= wq <= 0x800000000000,
    ensures
        final(stage).wf(),
        final(stage).same_dims(old(stage)),
        forall|xx: int, yy: int|
            final(stage).in_bounds(xx, yy) ==> #[trigger] final(stage).pix(xx, yy) == (
            if quad_paints_opt(
                stroke_quad((p1.0 as int, p1.1 as int), (p2.0 as int, p2.1 as int), wq as int),
                xx,
                yy,
            ) {
                color
            } else {
                old(stage).pix(xx, yy)
            }),
{
    match stroke_corners(p1, p2, wq) {
        None => {},
        Some(t) => {
            fill_triangle_wide(stage, t.0, t.1, t.2, color);
            fill_triangle_wide(stage, t.0, t.2, t.3, color);
        },
    }
}

} // verus!

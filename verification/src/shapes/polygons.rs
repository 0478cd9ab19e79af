//! Shape entry points built on the generic [`Path`] renderer: lines,
//! rectangles and squares in world coordinates (16.16 fixed point, origin
//! at the stage's center, y up).
//!
//! Rectangles and squares are clamped to the stage's world bounds before
//! rendering, so that an oversized shape still shows its boundary at the
//! stage's edge.

use vstd::prelude::*;
use crate::stage::Stage;
use crate::style::Style;
use crate::style::effective_color;
use crate::path::Path;
use crate::path::path_pxls;
use crate::path::stroke_paints;
use crate::path::poly_fill_hits;
use crate::path::world_nodes_view;
use crate::arith::sat64;
use crate::arith::sat_i128_to_i64;

verus! {

/// Draws a line in world coords from `xy1` to `xy2`. Lines only use the
/// style's stroke; the fill is ignored (an open path is never filled).
pub fn line(stage: &mut Stage, xy1: (i64, i64), xy2: (i64, i64), style: Style)
    requires
        old(stage).wf(),
    ensures
        final(stage).wf(),
        final(stage).same_dims(old(stage)),
        forall|xx: int, yy: int|
            final(stage).in_bounds(xx, yy) ==> #[trigger] final(stage).pix(xx, yy) == ({
                let w = old(stage).spec_width();
                let h = old(stage).spec_height();
                let nodes = seq![
                    (xy1.0 as int, xy1.1 as int),
                    (xy2.0 as int, xy2.1 as int),
                ];
                match path_pxls(w, h, nodes) {
                    None => old(stage).pix(xx, yy),
                    Some(p) => {
                        if style.stroke is Some && stroke_paints(
                            w,
                            h,
                            p,
                            false,
                            style.stroke.unwrap().width as int,
                            xx,
                            yy,
                        ) {
                            effective_color(
                                style.stroke.unwrap().color,
                                style.stroke.unwrap().opacity,
                            )
                        } else {
                            old(stage).pix(xx, yy)
                        }
                    },
                }
            }),
{
    let mut nodes: Vec<(i64, i64)> = Vec::new();
    nodes.push(xy1);
    nodes.push(xy2);
    proof {
        assert(world_nodes_view(nodes@) =~= seq![
            (xy1.0 as int, xy1.1 as int),
            (xy2.0 as int, xy2.1 as int),
        ]);
    }
    let line_path = Path::new(nodes, false);
    line_path.render(stage, style);
}

/// The four corner nodes (top-left, top-right, bottom-right, bottom-left)
/// of a rectangle centered on `origin` with the given extents, clamped to
/// the stage's world bounds `[-sw/2, sw/2] x [-sh/2, sh/2]`, each
/// coordinate held to the 64-bit range.
pub open spec fn rect_nodes(
    origin: (int, int),
    width: int,
    height: int,
    sw: int,
    sh: int,
) -> Seq<(int, int)> {
    let whalf = width / 2;
    let hhalf = height / 2;
    let minx = -(sw * 32768);
    let maxx = sw * 32768;
    let miny = -(sh * 32768);
    let maxy = sh * 32768;
    let l = sat64(if origin.0 - whalf >= minx { origin.0 - whalf } else { minx });
    let r = sat64(if origin.0 + whalf <= maxx { origin.0 + whalf } else { maxx });
    let t = sat64(if origin.1 + hhalf <= maxy { origin.1 + hhalf } else { maxy });
    let b = sat64(if origin.1 - hhalf >= miny { origin.1 - hhalf } else { miny });
    seq![(l, t), (r, t), (r, b), (l, b)]
}

/// Draws a rectangle centered on `origin` of the given `width` and
/// `height` (world units, 16.16 fixed point), clamped to the stage's world
/// bounds; non-positive extents are a silent no-op.
pub fn rectangle(stage: &mut Stage, origin: (i64, i64), width: i64, height: i64, style: Style)
    requires
        old(stage).wf(),
    ensures
        final(stage).wf(),
        final(stage).same_dims(old(stage)),
        forall|xx: int, yy: int|
            final(stage).in_bounds(xx, yy) ==> #[trigger] final(stage).pix(xx, yy) == ({
                let w = old(stage).spec_width();
                let h = old(stage).spec_height();
                let nodes = rect_nodes(
                    (origin.0 as int, origin.1 as int),
                    width as int,
                    height as int,
                    w,
                    h,
                );
                if width <= 0 || height <= 0 {
                    old(stage).pix(xx, yy)
                } else {
                    match path_pxls(w, h, nodes) {
                        None => old(stage).pix(xx, yy),
                        Some(p) => {
                            if style.stroke is Some && stroke_paints(
                                w,
                                h,
                                p,
                                true,
                                style.stroke.unwrap().width as int,
                                xx,
                                yy,
                            ) {
                                effective_color(
                                    style.stroke.unwrap().color,
                                    style.stroke.unwrap().opacity,
                                )
                            } else if style.fill is Some && poly_fill_hits(p, h, xx, yy) {
                                effective_color(
                                    style.fill.unwrap().color,
                                    style.fill.unwrap().opacity,
                                )
                            } else {
                                old(stage).pix(xx, yy)
                            }
                        },
                    }
                }
            }),
{
    if width <= 0 || height <= 0 {
        return ;
    }
    let (sw, sh) = stage.dimensions();
    let whalf: i64 = width / 2;
    let hhalf: i64 = height / 2;
    let minx: i128 = -(sw as i128 * 32768);
    let maxx: i128 = sw as i128 * 32768;
    let miny: i128 = -(sh as i128 * 32768);
    let maxy: i128 = sh as i128 * 32768;
    let xw: i128 = origin.0 as i128;
    let yw: i128 = origin.1 as i128;
    let l = sat_i128_to_i64(
        if xw - whalf as i128 >= minx {
            xw - whalf as i128
        } else {
            minx
        },
    );
    let r = sat_i128_to_i64(
        if xw + whalf as i128 <= maxx {
            xw + whalf as i128
        } else {
            maxx
        },
    );
    let t = sat_i128_to_i64(
        if yw + hhalf as i128 <= maxy {
            yw + hhalf as i128
        } else {
            maxy
        },
    );
    let b = sat_i128_to_i64(
        if yw - hhalf as i128 >= miny {
            yw - hhalf as i128
        } else {
            miny
        },
    );
    let mut nodes: Vec<(i64, i64)> = Vec::new();
    nodes.push((l, t));
    nodes.push((r, t));
    nodes.push((r, b));
    nodes.push((l, b));
    proof {
        assert(world_nodes_view(nodes@) =~= rect_nodes(
            (origin.0 as int, origin.1 as int),
            width as int,
            height as int,
            old(stage).spec_width(),
            old(stage).spec_height(),
        ));
    }
    let rectangle_path = Path::new(nodes, true);
    rectangle_path.render(stage, style);
}

/// Draws a square centered on `origin` of the given `side_length` (world
/// units, 16.16 fixed point), clamped to the stage's world bounds; a
/// non-positive side length is a silent no-op.
pub fn square(stage: &mut Stage, origin: (i64, i64), side_length: i64, style: Style)
    requires
        old(stage).wf(),
    ensures
        final(stage).wf(),
        final(stage).same_dims(old(stage)),
        forall|xx: int, yy: int|
            final(stage).in_bounds(xx, yy) ==> #[trigger] final(stage).pix(xx, yy) == ({
                let w = old(stage).spec_width();
                let h = old(stage).spec_height();
                let nodes = rect_nodes(
                    (origin.0 as int, origin.1 as int),
                    side_length as int,
                    side_length as int,
                    w,
                    h,
                );
                if side_length <= 0 {
                    old(stage).pix(xx, yy)
                } else {
                    match path_pxls(w, h, nodes) {
                        None => old(stage).pix(xx, yy),
                        Some(p) => {
                            if style.stroke is Some && stroke_paints(
                                w,
                                h,
                                p,
                                true,
                                style.stroke.unwrap().width as int,
                                xx,
                                yy,
                            ) {
                                effective_color(
                                    style.stroke.unwrap().color,
                                    style.stroke.unwrap().opacity,
                                )
                            } else if style.fill is Some && poly_fill_hits(p, h, xx, yy) {
                                effective_color(
                                    style.fill.unwrap().color,
                                    style.fill.unwrap().opacity,
                                )
                            } else {
                                old(stage).pix(xx, yy)
                            }
                        },
                    }
                }
            }),
{
    rectangle(stage, origin, side_length, side_length, style);
}

} // verus!

//! The `Stage`: an owned, fixed-size, row-major RGBA framebuffer with
//! bounds-checked pixel and span primitives, and the world-to-pixel
//! coordinate transform.
//!
//! World coordinates have their origin at the framebuffer's center with y
//! increasing upward, and are measured in device pixels held in 16.16 fixed
//! point. Pixel coordinates have their origin at the top-left with y
//! increasing downward.

use vstd::prelude::*;
use crate::style::Color;
use crate::style::color_of;

verus! {

/// A `width` x `height` row-major framebuffer of RGBA pixels.
///
/// Invariant: the pixel array's length is `width * height`, fixed for the
/// object's lifetime.
pub struct Stage {
    width: usize,
    height: usize,
    framebuf: Vec<[u8; 4]>,
}

/// The linear index of pixel column `x`, row `y` in a row-major grid of
/// width `w`.
pub open spec fn grid_index(w: int, x: int, y: int) -> int {
    y * w + x
}

/// Row-major linear indices are in range for in-bounds coordinates.
pub proof fn lemma_grid_index_bounds(w: int, h: int, x: int, y: int)
    by (nonlinear_arith)
    requires
        0 <= x < w,
        0 <= y < h,
    ensures
        0 <= grid_index(w, x, y) < w * h,
{
}

/// Row-major linear indexing is injective over in-bounds coordinates.
pub proof fn lemma_grid_index_injective(w: int, x1: int, y1: int, x2: int, y2: int)
    by (nonlinear_arith)
    requires
        0 <= x1 < w,
        0 <= x2 < w,
        grid_index(w, x1, y1) == grid_index(w, x2, y2),
    ensures
        x1 == x2 && y1 == y2,
{
}

/// Whether `x` lies in the inclusive span between `x0` and `x1`, in either
/// order.
pub open spec fn in_span(x: int, x0: int, x1: int) -> bool {
    if x0 <= x1 {
        x0 <= x <= x1
    } else {
        x1 <= x <= x0
    }
}

/// Rounds a 16.16 fixed-point value to the nearest integer, halves away
/// from zero.
pub open spec fn fp_round(v: int) -> int {
    if v >= 0 {
        (v + 32768) / 65536
    } else {
        -(((-v) + 32768) / 65536)
    }
}

/// The center offset of a dimension of `d` pixels, `(d - 1) / 2`, in 16.16
/// fixed point.
pub open spec fn center_fp(d: int) -> int {
    (d - 1) * 32768
}

/// The pixel column of world x-coordinate `x_fp` (16.16 fixed point) on a
/// stage of width `w`: `round(x + (w - 1) / 2)`.
pub open spec fn world_x_to_pixel(w: int, x_fp: int) -> int {
    fp_round(x_fp + center_fp(w))
}

/// The pixel row of world y-coordinate `y_fp` (16.16 fixed point) on a
/// stage of height `h`: `round((h - 1) / 2 - y)`.
pub open spec fn world_y_to_pixel(h: int, y_fp: int) -> int {
    fp_round(center_fp(h) - y_fp)
}

/// Rounds a 16.16 fixed-point value to the nearest integer, halves away
/// from zero.
fn fp_round_exec(v: i128) -> (r: i128)
    requires
        -0x1000000000000000000000000 <= v <= 0x1000000000000000000000000,
    ensures
        r == fp_round(v as int),
{
    if v >= 0 {
        let m: u128 = v as u128;
        ((m + 32768) / 65536) as i128
    } else {
        let m: u128 = (-v) as u128;
        -(((m + 32768) / 65536) as i128)
    }
}

/// On stages of odd width and height, the exact world origin maps to the
/// exact center pixel.
pub proof fn lemma_world_origin_maps_to_center(w: int, h: int)
    requires
        1 <= w,
        1 <= h,
        w % 2 == 1,
        h % 2 == 1,
    ensures
        world_x_to_pixel(w, 0) == (w - 1) / 2,
        world_y_to_pixel(h, 0) == (h - 1) / 2,
{
    let m = (w - 1) / 2;
    assert(w == 2 * m + 1);
    assert((w - 1) * 32768 + 32768 == m * 65536 + 32768);
    assert((m * 65536 + 32768) / 65536 == m) by (nonlinear_arith)
        requires
            m >= 0,
    ;
    let n = (h - 1) / 2;
    assert(h == 2 * n + 1);
    assert((h - 1) * 32768 + 32768 == n * 65536 + 32768);
    assert((n * 65536 + 32768) / 65536 == n) by (nonlinear_arith)
        requires
            n >= 0,
    ;
}

impl Stage {
    /// The stage width in pixels.
    pub closed spec fn spec_width(&self) -> int {
        self.width as int
    }

    /// The stage height in pixels.
    pub closed spec fn spec_height(&self) -> int {
        self.height as int
    }

    /// The pixel grid as a sequence of colors, row-major from the top-left.
    pub closed spec fn grid(&self) -> Seq<Color> {
        Seq::new(self.framebuf@.len(), |i: int| color_of(self.framebuf@[i]))
    }

    /// Well-formedness: positive dimensions and a pixel array of exactly
    /// `width * height` entries.
    pub open spec fn wf(&self) -> bool {
        &&& 1 <= self.spec_width()
        &&& 1 <= self.spec_height()
        &&& self.grid().len() == self.spec_width() * self.spec_height()
    }

    /// Whether pixel coordinates `(x, y)` lie on the stage.
    pub open spec fn in_bounds(&self, x: int, y: int) -> bool {
        0 <= x < self.spec_width() && 0 <= y < self.spec_height()
    }

    /// The color of the pixel at in-bounds coordinates `(x, y)`.
    pub open spec fn pix(&self, x: int, y: int) -> Color {
        self.grid()[grid_index(self.spec_width(), x, y)]
    }

    /// Both dimensions equal, as a convenience for frame conditions.
    pub open spec fn same_dims(&self, other: &Stage) -> bool {
        self.spec_width() == other.spec_width() && self.spec_height() == other.spec_height()
    }

    /// Creates a `width` x `height` [`Stage`] that is black and transparent.
    ///
    /// The dimensions must be strictly positive and `width * height` must not
    /// overflow the platform's size type; violating that is a programming
    /// error, not runtime geometry, and is ruled out up front.
    pub fn new(width: usize, height: usize) -> (s: Stage)
        requires
            width >= 1,
            height >= 1,
            width * height <= usize::MAX,
        ensures
            s.wf(),
            s.spec_width() == width,
            s.spec_height() == height,
            forall|x: int, y: int|
                s.in_bounds(x, y) ==> s.pix(x, y) == (Color { r: 0, g: 0, b: 0, a: 0 }),
    {
        let length = width * height;
        let mut framebuf: Vec<[u8; 4]> = Vec::new();
        let mut i: usize = 0;
        while i < length
            invariant
                i <= length,
                framebuf@.len() == i,
                forall|j: int|
                    0 <= j < i ==> color_of(#[trigger] framebuf@[j]) == (Color {
                        r: 0,
                        g: 0,
                        b: 0,
                        a: 0,
                    }),
            decreases length - i,
        {
            framebuf.push([0, 0, 0, 0]);
            i = i + 1;
        }
        let s = Stage { width, height, framebuf };
        proof {
            assert forall|x: int, y: int| s.in_bounds(x, y) implies s.pix(x, y) == (Color {
                r: 0,
                g: 0,
                b: 0,
                a: 0,
            }) by {
                lemma_grid_index_bounds(s.spec_width(), s.spec_height(), x, y);
            }
        }
        s
    }

    /// Returns the width of the [`Stage`].
    pub fn width(&self) -> (w: usize)
        ensures
            w == self.spec_width(),
    {
        self.width
    }

    /// Returns the height of the [`Stage`].
    pub fn height(&self) -> (h: usize)
        ensures
            h == self.spec_height(),
    {
        self.height
    }

    /// Returns the dimensions `(width, height)` of the [`Stage`].
    pub fn dimensions(&self) -> (d: (usize, usize))
        ensures
            d.0 == self.spec_width(),
            d.1 == self.spec_height(),
    {
        (self.width, self.height)
    }

    /// Returns a reference to the [`Stage`] framebuffer.
    pub fn pixels(&self) -> (r: &[[u8; 4]])
        ensures
            r@.len() == self.grid().len(),
            forall|i: int| 0 <= i < r@.len() ==> color_of(#[trigger] r@[i]) == self.grid()[i],
    {
        self.framebuf.as_slice()
    }

    /// Returns a mutable reference to the [`Stage`] framebuffer.
    pub fn pixels_mut(&mut self) -> (r: &mut [[u8; 4]])
        ensures
            r@.len() == old(self).grid().len(),
            forall|i: int| 0 <= i < r@.len() ==> color_of(#[trigger] r@[i]) == old(self).grid()[i],
            final(self).same_dims(old(self)),
            final(self).grid().len() == final(r)@.len(),
            forall|i: int|
                0 <= i < final(r)@.len() ==> color_of(#[trigger] final(r)@[i])
                    == final(self).grid()[i],
    {
        self.framebuf.as_mut_slice()
    }

    /// Gets the color value of the pixel at `(x, y)`.
    ///
    /// Returns `None` if out-of-bounds, otherwise `Some([r, g, b, a])`.
    pub fn get_pixel(&self, x: usize, y: usize) -> (r: Option<[u8; 4]>)
        requires
            self.wf(),
        ensures
            r is Some <==> self.in_bounds(x as int, y as int),
            r matches Some(p) ==> color_of(p) == self.pix(x as int, y as int),
    {
        if x >= self.width || y >= self.height {
            return None;
        }
        let index = self.index(x, y);
        Some(self.framebuf[index])
    }

    /// Returns the number of pixels in the [`Stage`].
    pub fn len(&self) -> (n: usize)
        ensures
            n == self.grid().len(),
    {
        self.framebuf.len()
    }

    /// Returns `true` if the [`Stage`] has no pixels; a well-formed stage
    /// never does.
    pub fn is_empty(&self) -> (b: bool)
        ensures
            b == (self.grid().len() == 0),
            self.wf() ==> !b,
    {
        proof {
            if self.wf() {
                lemma_grid_index_bounds(self.spec_width(), self.spec_height(), 0, 0);
            }
        }
        self.framebuf.len() == 0
    }

    /// Returns the linear framebuffer index for the pixel at `(x, y)`, where
    /// `(0, 0)` is the top-left.
    fn index(&self, x: usize, y: usize) -> (i: usize)
        requires
            self.wf(),
            x < self.spec_width(),
            y < self.spec_height(),
        ensures
            i == grid_index(self.spec_width(), x as int, y as int),
            i < self.grid().len(),
    {
        let n = self.framebuf.len();
        proof {
            lemma_grid_index_bounds(self.spec_width(), self.spec_height(), x as int, y as int);
            assert(grid_index(self.spec_width(), x as int, y as int) < n);
        }
        y * self.width + x
    }

    /// Sets every pixel of the [`Stage`] to the provided `color`.
    pub fn clear(&mut self, color: Color)
        requires
            old(self).wf(),
        ensures
            final(self).wf(),
            final(self).same_dims(old(self)),
            forall|x: int, y: int|
                final(self).in_bounds(x, y) ==> #[trigger] final(self).pix(x, y) == color,
    {
        let rgba = color.rgba();
        let length = self.framebuf.len();
        let mut i: usize = 0;
        while i < length
            invariant
                i <= length,
                self.framebuf@.len() == length,
                self.width == old(self).width,
                self.height == old(self).height,
                color_of(rgba) == color,
                forall|j: int| 0 <= j < i ==> color_of(#[trigger] self.framebuf@[j]) == color,
            decreases length - i,
        {
            self.framebuf[i] = rgba;
            i = i + 1;
        }
        proof {
            assert forall|x: int, y: int| final(self).in_bounds(x, y) implies #[trigger] final(self).pix(x, y) == color by {
                lemma_grid_index_bounds(final(self).spec_width(), final(self).spec_height(), x, y);
            }
        }
    }

    /// Sets the color value of the pixel at `(x, y)`.
    /// If the pixel is out-of-bounds, silently does nothing.
    pub fn set_pixel(&mut self, x: usize, y: usize, color: Color)
        requires
            old(self).wf(),
        ensures
            final(self).wf(),
            final(self).same_dims(old(self)),
            forall|xx: int, yy: int|
                final(self).in_bounds(xx, yy) ==> #[trigger] final(self).pix(xx, yy) == (if xx == x
                    && yy == y {
                    color
                } else {
                    old(self).pix(xx, yy)
                }),
    {
        if x >= self.width || y >= self.height {
            return ;
        }
        let rgba = color.rgba();
        let index = self.index(x, y);
        self.framebuf[index] = rgba;
        proof {
            assert forall|xx: int, yy: int| final(self).in_bounds(xx, yy) implies #[trigger] final(self).pix(xx, yy) == (if xx == x && yy == y {
                color
            } else {
                old(self).pix(xx, yy)
            }) by {
                let w = final(self).spec_width();
                lemma_grid_index_bounds(w, final(self).spec_height(), xx, yy);
                if grid_index(w, xx, yy) == grid_index(w, x as int, y as int) {
                    lemma_grid_index_injective(w, xx, yy, x as int, y as int);
                }
            }
        }
    }

    /// Sets the color value of the signed pixel at `(x, y)`.
    /// If the pixel is out-of-bounds (negative included), silently does
    /// nothing: coordinates never wrap.
    pub fn plot(&mut self, x: isize, y: isize, color: Color)
        requires
            old(self).wf(),
        ensures
            final(self).wf(),
            final(self).same_dims(old(self)),
            forall|xx: int, yy: int|
                final(self).in_bounds(xx, yy) ==> #[trigger] final(self).pix(xx, yy) == (if xx == x
                    && yy == y {
                    color
                } else {
                    old(self).pix(xx, yy)
                }),
    {
        self.plot_wide(x as i64, y as i64, color);
    }

    /// [`Stage::plot`] on 64-bit coordinates, for rasterizers whose stepping
    /// runs in a wider integer type than the pixel coordinates.
    pub(crate) fn plot_wide(&mut self, x: i64, y: i64, color: Color)
        requires
            old(self).wf(),
        ensures
            final(self).wf(),
            final(self).same_dims(old(self)),
            forall|xx: int, yy: int|
                final(self).in_bounds(xx, yy) ==> #[trigger] final(self).pix(xx, yy) == (if xx == x
                    && yy == y {
                    color
                } else {
                    old(self).pix(xx, yy)
                }),
    {
        if x < 0 || y < 0 {
            return ;
        }
        let xw = x as u64;
        let yw = y as u64;
        if xw < self.width as u64 && yw < self.height as u64 {
            self.set_pixel(xw as usize, yw as usize, color);
        }
    }

    /// Fills the contiguous pixels at row `y` between `x0` and `x1`
    /// (inclusive, order-independent) with `color`, clipped to the stage.
    /// A row out of bounds, or a span fully off-canvas, is a silent no-op.
    pub fn fill_span(&mut self, y: isize, x0: isize, x1: isize, color: Color)
        requires
            old(self).wf(),
        ensures
            final(self).wf(),
            final(self).same_dims(old(self)),
            forall|xx: int, yy: int|
                final(self).in_bounds(xx, yy) ==> #[trigger] final(self).pix(xx, yy) == (if yy == y
                    && in_span(xx, x0 as int, x1 as int) {
                    color
                } else {
                    old(self).pix(xx, yy)
                }),
    {
        self.fill_span_wide(y as i128, x0 as i128, x1 as i128, color);
    }

    /// [`Stage::fill_span`] on 128-bit coordinates, for rasterizers whose
    /// span arithmetic runs in a wider integer type than the pixel
    /// coordinates.
    pub(crate) fn fill_span_wide(&mut self, y: i128, x0: i128, x1: i128, color: Color)
        requires
            old(self).wf(),
        ensures
            final(self).wf(),
            final(self).same_dims(old(self)),
            forall|xx: int, yy: int|
                final(self).in_bounds(xx, yy) ==> #[trigger] final(self).pix(xx, yy) == (if yy == y
                    && in_span(xx, x0 as int, x1 as int) {
                    color
                } else {
                    old(self).pix(xx, yy)
                }),
    {
        if y < 0 {
            return ;
        }
        if y as u128 >= self.height as u128 {
            return ;
        }
        let yu = y as usize;
        let (a, b) = if x0 <= x1 {
            (x0, x1)
        } else {
            (x1, x0)
        };
        if b < 0 {
            return ;
        }
        let lo_w: i128 = if a < 0 {
            0
        } else {
            a
        };
        if lo_w as u128 >= self.width as u128 {
            return ;
        }
        let lo = lo_w as usize;
        let hi: usize = if b as u128 >= self.width as u128 {
            self.width - 1
        } else {
            b as usize
        };
        let mut xu: usize = lo;
        while xu <= hi
            invariant
                lo <= xu <= hi + 1,
                hi < self.spec_width(),
                yu < self.spec_height(),
                yu == y,
                a <= b,
                a == (if x0 <= x1 { x0 as int } else { x1 as int }),
                b == (if x0 <= x1 { x1 as int } else { x0 as int }),
                a < 0 ==> lo == 0,
                a >= 0 ==> lo == a,
                hi == (if b < self.spec_width() { b as int } else { self.spec_width() - 1 }),
                self.wf(),
                self.same_dims(old(self)),
                forall|xx: int, yy: int|
                    self.in_bounds(xx, yy) ==> #[trigger] self.pix(xx, yy) == (if yy == y && lo
                        <= xx < xu {
                        color
                    } else {
                        old(self).pix(xx, yy)
                    }),
            decreases hi + 1 - xu,
        {
            self.set_pixel(xu, yu, color);
            xu = xu + 1;
        }
    }

    /// Converts world coordinates (origin at the stage's center, y up, in
    /// device pixels held in 16.16 fixed point) into pixel coordinates
    /// (origin top-left, y down).
    ///
    /// The center offsets are `(width - 1) / 2` and `(height - 1) / 2`, and
    /// the result is rounded to the nearest pixel (halves away from zero).
    /// Returns `None` when a rounded coordinate exceeds the representable
    /// pixel-coordinate range.
    pub fn world_to_pixel(&self, xy: (i64, i64)) -> (r: Option<(i32, i32)>)
        requires
            self.wf(),
        ensures
            ({
                let px = world_x_to_pixel(self.spec_width(), xy.0 as int);
                let py = world_y_to_pixel(self.spec_height(), xy.1 as int);
                &&& (r is Some <==> i32::MIN <= px <= i32::MAX && i32::MIN <= py <= i32::MAX)
                &&& (r matches Some(p) ==> p.0 == px && p.1 == py)
            }),
    {
        let cx: i128 = (self.width as i128 - 1) * 32768;
        let cy: i128 = (self.height as i128 - 1) * 32768;
        let vx: i128 = xy.0 as i128 + cx;
        let vy: i128 = cy - xy.1 as i128;
        let px = fp_round_exec(vx);
        let py = fp_round_exec(vy);
        if px < i32::MIN as i128 || px > i32::MAX as i128 {
            return None;
        }
        if py < i32::MIN as i128 || py > i32::MAX as i128 {
            return None;
        }
        Some((px as i32, py as i32))
    }

    /// Returns the framebuffer as a contiguous vector of RGBA bytes in
    /// row-major order, suitable for encoding: 4 bytes per pixel, length
    /// `width * height * 4`.
    pub fn as_bytes(&self) -> (r: Vec<u8>)
        ensures
            r@.len() == self.grid().len() * 4,
            forall|i: int|
                0 <= i < self.grid().len() ==> {
                    &&& r@[4 * i] == (#[trigger] self.grid()[i]).r
                    &&& r@[4 * i + 1] == self.grid()[i].g
                    &&& r@[4 * i + 2] == self.grid()[i].b
                    &&& r@[4 * i + 3] == self.grid()[i].a
                },
    {
        let length = self.framebuf.len();
        let mut out: Vec<u8> = Vec::new();
        let mut i: usize = 0;
        while i < length
            invariant
                i <= length,
                length == self.grid().len(),
                out@.len() == i * 4,
                forall|j: int|
                    0 <= j < i ==> {
                        &&& out@[4 * j] == (#[trigger] self.grid()[j]).r
                        &&& out@[4 * j + 1] == self.grid()[j].g
                        &&& out@[4 * j + 2] == self.grid()[j].b
                        &&& out@[4 * j + 3] == self.grid()[j].a
                    },
            decreases length - i,
        {
            let p = self.framebuf[i];
            out.push(p[0]);
            out.push(p[1]);
            out.push(p[2]);
            out.push(p[3]);
            i = i + 1;
        }
        out
    }
}

} // verus!

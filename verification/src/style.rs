//! Color, opacity and fill/stroke style descriptors, and the rule that
//! resolves the effective color a rasterizer writes into the framebuffer.
//!
//! A [`Color`] carries an intrinsic alpha; a [`Fill`] or [`Stroke`] pairs a
//! color with an extrinsic [`Opacity`] multiplier. The effective alpha is
//! `(a * opacity + 127) / 255`, computed in a wider integer type.
//!
//! Stroke widths are measured in device pixels and held in 16.16 fixed point
//! (`FP_ONE` is one pixel), so that the half-width roundings the rasterizers
//! need stay exact integer arithmetic.

use vstd::prelude::*;

verus! {

/// One pixel in the 16.16 fixed-point scale used for stroke widths.
pub const FP_ONE: u64 = 65536;

/// An RGBA color; each channel is one byte.
#[derive(Clone, Copy, Debug, PartialEq, Eq, Structural)]
pub struct Color {
    pub r: u8,
    pub g: u8,
    pub b: u8,
    pub a: u8,
}

/// The [`Color`] whose channels are the four bytes of `p`, in R, G, B, A order.
pub open spec fn color_of(p: [u8; 4]) -> Color {
    Color { r: p[0], g: p[1], b: p[2], a: p[3] }
}

impl Color {
    /// Creates a [`Color`] from an RGBA array `[r, g, b, a]`.
    pub fn new(color: [u8; 4]) -> (c: Color)
        ensures
            c == color_of(color),
    {
        Color { r: color[0], g: color[1], b: color[2], a: color[3] }
    }

    /// Returns the RGBA array `[r, g, b, a]` of `self`.
    pub fn rgba(self) -> (p: [u8; 4])
        ensures
            color_of(p) == self,
    {
        [self.r, self.g, self.b, self.a]
    }

    /// Replaces the intrinsic alpha of `self`.
    ///
    /// This sets the *intrinsic* alpha; a [`Fill`]'s or [`Stroke`]'s
    /// [`Opacity`] additionally multiplies it at draw time.
    pub fn with_alpha(self, opacity: Opacity) -> (c: Color)
        ensures
            c == (Color { a: opacity.v, ..self }),
    {
        Color { a: opacity.v, ..self }
    }

    /// Fully transparent black, `(0, 0, 0, 0)`.
    pub fn transparent() -> (c: Color)
        ensures
            c == (Color { r: 0, g: 0, b: 0, a: 0 }),
    {
        Color { r: 0, g: 0, b: 0, a: 0 }
    }

    /// Opaque black.
    pub fn black() -> (c: Color)
        ensures
            c == (Color { r: 0, g: 0, b: 0, a: 255 }),
    {
        Color { r: 0, g: 0, b: 0, a: 255 }
    }

    /// Opaque white.
    pub fn white() -> (c: Color)
        ensures
            c == (Color { r: 255, g: 255, b: 255, a: 255 }),
    {
        Color { r: 255, g: 255, b: 255, a: 255 }
    }

    /// Opaque red.
    pub fn red() -> (c: Color)
        ensures
            c == (Color { r: 255, g: 0, b: 0, a: 255 }),
    {
        Color { r: 255, g: 0, b: 0, a: 255 }
    }

    /// Opaque green.
    pub fn green() -> (c: Color)
        ensures
            c == (Color { r: 0, g: 255, b: 0, a: 255 }),
    {
        Color { r: 0, g: 255, b: 0, a: 255 }
    }

    /// Opaque blue.
    pub fn blue() -> (c: Color)
        ensures
            c == (Color { r: 0, g: 0, b: 255, a: 255 }),
    {
        Color { r: 0, g: 0, b: 255, a: 255 }
    }
}

/// A multiplier in `0..=255` for a color's intrinsic alpha.
#[derive(Clone, Copy, Debug, PartialEq, Eq, Structural)]
pub struct Opacity {
    pub v: u8,
}

impl Opacity {
    /// Creates an [`Opacity`] from a byte in `0..=255`.
    pub fn new(v: u8) -> (o: Opacity)
        ensures
            o.v == v,
    {
        Opacity { v }
    }

    /// The multiplier 0: everything drawn with it has effective alpha 0.
    pub fn transparent() -> (o: Opacity)
        ensures
            o.v == 0,
    {
        Opacity { v: 0 }
    }

    /// The multiplier 255: it leaves intrinsic alphas unchanged.
    pub fn opaque() -> (o: Opacity)
        ensures
            o.v == 255,
    {
        Opacity { v: 255 }
    }

    /// Returns the stored byte in `0..=255`.
    pub fn as_u8(self) -> (v: u8)
        ensures
            v == self.v,
    {
        self.v
    }
}

/// The effective alpha of intrinsic alpha `a` under multiplier `f`:
/// `a * f / 255`, rounded to the nearest byte.
pub open spec fn effective_alpha(a: u8, f: u8) -> u8 {
    ((a * f + 127) / 255) as u8
}

/// `color` with its alpha replaced by the effective alpha under `opacity`;
/// the RGB channels are unchanged.
pub open spec fn effective_color(color: Color, opacity: Opacity) -> Color {
    Color { a: effective_alpha(color.a, opacity.v), ..color }
}

/// An opaque multiplier leaves a color unchanged: the effective alpha of
/// `a` under 255 is `a` itself.
pub proof fn lemma_opaque_preserves_color(color: Color)
    ensures
        effective_color(color, Opacity { v: 255 }) == color,
{
    vstd::arithmetic::div_mod::lemma_div_multiples_vanish_fancy(color.a as int, 127, 255);
    assert(color.a * 255 == 255 * (color.a as int));
}

/// A transparent multiplier blanks every alpha: the effective alpha of any
/// color under 0 is 0.
pub proof fn lemma_transparent_blanks_alpha(color: Color)
    ensures
        effective_color(color, Opacity { v: 0 }).a == 0,
        effective_color(color, Opacity { v: 0 }).r == color.r,
        effective_color(color, Opacity { v: 0 }).g == color.g,
        effective_color(color, Opacity { v: 0 }).b == color.b,
{
}

/// Fill options for a shape's interior: a color and an opacity multiplier.
#[derive(Clone, Copy, Debug, PartialEq, Eq, Structural)]
pub struct Fill {
    pub color: Color,
    pub opacity: Opacity,
}

impl Fill {
    /// Creates a [`Fill`] with the given color and opacity.
    pub fn new(color: Color, opacity: Opacity) -> (f: Fill)
        ensures
            f == (Fill { color, opacity }),
    {
        Fill { color, opacity }
    }

    /// Returns the effective [`Color`] of `self`: RGB unchanged, alpha
    /// multiplied by the opacity and rounded.
    pub fn rgba(self) -> (c: Color)
        ensures
            c == effective_color(self.color, self.opacity),
    {
        let a = self.color.a as u16;
        let f = self.opacity.v as u16;
        proof {
            assert(a * f <= 255 * 255) by (nonlinear_arith)
                requires
                    a <= 255,
                    f <= 255,
            ;
        }
        let eff = ((a * f + 127) / 255) as u8;
        Color { a: eff, ..self.color }
    }
}

/// Stroke options for a shape's boundary: a color, an opacity multiplier,
/// and a width in device pixels, in 16.16 fixed point.
///
/// A width of 0 stands for an invalid (non-positive or non-finite) width;
/// strokes with it draw nothing.
#[derive(Clone, Copy, Debug, PartialEq, Eq, Structural)]
pub struct Stroke {
    pub color: Color,
    pub opacity: Opacity,
    pub width: u64,
}

impl Stroke {
    /// Creates a [`Stroke`] with the given color, opacity, and width
    /// (device pixels in 16.16 fixed point; [`FP_ONE`] is one pixel).
    pub fn new(color: Color, opacity: Opacity, width: u64) -> (s: Stroke)
        ensures
            s == (Stroke { color, opacity, width }),
    {
        Stroke { color, opacity, width }
    }

    /// Returns the effective [`Color`] of `self`: RGB unchanged, alpha
    /// multiplied by the opacity and rounded.
    pub fn rgba(self) -> (c: Color)
        ensures
            c == effective_color(self.color, self.opacity),
    {
        let a = self.color.a as u16;
        let f = self.opacity.v as u16;
        proof {
            assert(a * f <= 255 * 255) by (nonlinear_arith)
                requires
                    a <= 255,
                    f <= 255,
            ;
        }
        let eff = ((a * f + 127) / 255) as u8;
        Color { a: eff, ..self.color }
    }
}

/// Visual options for a shape: an optional interior fill and an optional
/// boundary stroke. With neither present, shape calls are no-ops.
#[derive(Clone, Copy, Debug, PartialEq, Eq, Structural)]
pub struct Style {
    /// If `Some(fill)`, fills the interior using the [`Fill`] args.
    pub fill: Option<Fill>,
    /// If `Some(stroke)`, draws the boundary using the [`Stroke`] args.
    pub stroke: Option<Stroke>,
}

impl Style {
    /// Creates a [`Style`] from optional fill and stroke colors.
    ///
    /// A present color gets an opaque [`Opacity`]; a present stroke gets a
    /// one-pixel width. Other args must be set with the provided setters.
    pub fn new(fill: Option<Color>, stroke: Option<Color>) -> (s: Style)
        ensures
            s.fill == (match fill {
                Some(c) => Some(Fill { color: c, opacity: Opacity { v: 255 } }),
                None => None::<Fill>,
            }),
            s.stroke == (match stroke {
                Some(c) => Some(
                    Stroke { color: c, opacity: Opacity { v: 255 }, width: FP_ONE },
                ),
                None => None::<Stroke>,
            }),
    {
        let f = match fill {
            Some(color) => Some(Fill { color, opacity: Opacity { v: 255 } }),
            None => None,
        };
        let s = match stroke {
            Some(color) => Some(Stroke { color, opacity: Opacity { v: 255 }, width: FP_ONE }),
            None => None,
        };
        Style { fill: f, stroke: s }
    }

    /// Creates a stroke-only [`Style`]: opaque, one pixel wide.
    pub fn make_stroke(stroke_color: Color) -> (s: Style)
        ensures
            s.fill is None,
            s.stroke == Some(
                Stroke { color: stroke_color, opacity: Opacity { v: 255 }, width: FP_ONE },
            ),
    {
        Style {
            fill: None,
            stroke: Some(Stroke { color: stroke_color, opacity: Opacity { v: 255 }, width: FP_ONE }),
        }
    }

    /// Creates a fill-only [`Style`] with an opaque [`Opacity`].
    pub fn make_fill(fill_color: Color) -> (s: Style)
        ensures
            s.fill == Some(Fill { color: fill_color, opacity: Opacity { v: 255 } }),
            s.stroke is None,
    {
        Style { fill: Some(Fill { color: fill_color, opacity: Opacity { v: 255 } }), stroke: None }
    }

    /// Returns `true` if `self` has a fill or a stroke.
    pub fn fill_or_stroke_exists(&self) -> (b: bool)
        ensures
            b == (self.fill is Some || self.stroke is Some),
    {
        self.fill.is_some() || self.stroke.is_some()
    }

    /// Sets the stroke of `self` to the given color: opaque, one pixel wide.
    pub fn set_stroke(&mut self, stroke_color: Color)
        ensures
            final(self).fill == old(self).fill,
            final(self).stroke == Some(
                Stroke { color: stroke_color, opacity: Opacity { v: 255 }, width: FP_ONE },
            ),
    {
        self.stroke = Some(Stroke { color: stroke_color, opacity: Opacity { v: 255 }, width: FP_ONE });
    }

    /// Sets the fill of `self` to the given color with an opaque opacity.
    pub fn set_fill(&mut self, fill_color: Color)
        ensures
            final(self).fill == Some(Fill { color: fill_color, opacity: Opacity { v: 255 } }),
            final(self).stroke == old(self).stroke,
    {
        self.fill = Some(Fill { color: fill_color, opacity: Opacity { v: 255 } });
    }

    /// Sets the fill opacity of `self`. If `self.fill` is `None`, does nothing.
    pub fn set_fill_opacity(&mut self, fill_opacity: Opacity)
        ensures
            final(self).stroke == old(self).stroke,
            final(self).fill == (match old(self).fill {
                Some(f) => Some(Fill { opacity: fill_opacity, ..f }),
                None => None::<Fill>,
            }),
    {
        if let Some(mut f) = self.fill {
            f.opacity = fill_opacity;
            self.fill = Some(f);
        }
    }

    /// Sets the stroke opacity of `self`. If `self.stroke` is `None`, does nothing.
    pub fn set_stroke_opacity(&mut self, stroke_opacity: Opacity)
        ensures
            final(self).fill == old(self).fill,
            final(self).stroke == (match old(self).stroke {
                Some(s) => Some(Stroke { opacity: stroke_opacity, ..s }),
                None => None::<Stroke>,
            }),
    {
        if let Some(mut s) = self.stroke {
            s.opacity = stroke_opacity;
            self.stroke = Some(s);
        }
    }

    /// Sets the stroke width of `self` (device pixels in 16.16 fixed point).
    /// If `self.stroke` is `None`, does nothing.
    pub fn set_stroke_width(&mut self, stroke_width: u64)
        ensures
            final(self).fill == old(self).fill,
            final(self).stroke == (match old(self).stroke {
                Some(s) => Some(Stroke { width: stroke_width, ..s }),
                None => None::<Stroke>,
            }),
    {
        if let Some(mut s) = self.stroke {
            s.width = stroke_width;
            self.stroke = Some(s);
        }
    }
}

} // verus!

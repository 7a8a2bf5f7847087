//! The size of the canvas for a line of glyphs.
//!
//! The canvas is as wide as the line, scaled to pixels, plus a margin on
//! either side, and as high as two bands of one line height each plus a
//! margin above and below, whatever the glyphs' own extents are.

use vstd::prelude::*;
use crate::color::Color;
use crate::glyph::{lemma_caret_bound, sum_advances, total_advance, GlyphRecord};

verus! {

/// The factor by which every length of the standard layout is enlarged.
pub const FACTOR: u32 = 4;

/// The margin of the standard layout, in pixels.
pub const MARGIN: u32 = FACTOR * 100;

/// The height of one band of the standard layout, in pixels.
pub const LINE_HEIGHT: u32 = FACTOR * 160;

/// The type size of the standard layout, in points.
pub const FONT_SIZE: u32 = FACTOR * 80;

/// Pixels per font unit, as the fraction `num / den`.
#[derive(Clone, Copy, Debug, PartialEq, Eq, Structural)]
pub struct Scale {
    pub num: u32,
    pub den: u32,
}

/// The fixed measures and colours of a rendering.
#[derive(Clone, Copy, Debug, PartialEq, Eq, Structural)]
pub struct Layout {
    pub margin: u32,
    pub line_height: u32,
    pub ink: Color,
    pub background: Color,
}

/// The width and height of a canvas, in pixels.
#[derive(Clone, Copy, Debug, PartialEq, Eq, Structural)]
pub struct CanvasSize {
    pub width: u32,
    pub height: u32,
}

/// Why no canvas size could be given.
#[derive(Clone, Copy, Debug, PartialEq, Eq, Structural)]
pub enum LayoutError {
    /// The scale's denominator is zero.
    InvalidScale,
    /// The width or the height does not fit in a `u32`.
    CanvasTooLarge,
}

/// A length in font units as whole pixels, rounded down.
pub open spec fn scaled_spec(units: int, scale: Scale) -> int {
    (units * scale.num) / (scale.den as int)
}

/// The width of a line in pixels, given the sum of its advances in font
/// units. A line whose advances sum to less than nothing has no width.
pub open spec fn line_width_spec(total: int, scale: Scale) -> int {
    if total <= 0 {
        0
    } else {
        scaled_spec(total, scale)
    }
}

/// The width of the canvas for a run of glyphs.
pub open spec fn canvas_width_spec(glyphs: Seq<GlyphRecord>, scale: Scale, layout: Layout) -> int {
    line_width_spec(total_advance(glyphs), scale) + 2 * layout.margin
}

/// The height of the canvas.
pub open spec fn canvas_height_spec(layout: Layout) -> int {
    2 * layout.line_height + 2 * layout.margin
}

/// The size of the canvas for a run of glyphs, where there is one.
pub open spec fn canvas_size_spec(
    glyphs: Seq<GlyphRecord>,
    scale: Scale,
    layout: Layout,
) -> Result<CanvasSize, LayoutError> {
    if scale.den == 0 {
        Err(LayoutError::InvalidScale)
    } else if canvas_width_spec(glyphs, scale, layout) > u32::MAX || canvas_height_spec(layout)
        > u32::MAX {
        Err(LayoutError::CanvasTooLarge)
    } else {
        Ok(
            CanvasSize {
                width: canvas_width_spec(glyphs, scale, layout) as u32,
                height: canvas_height_spec(layout) as u32,
            },
        )
    }
}

/// The width of the canvas without its two margins is the caret at the end
/// of the line, scaled to pixels and rounded down; at a scale of one pixel
/// per font unit it is that caret itself.
pub proof fn lemma_width_matches_final_caret(
    glyphs: Seq<GlyphRecord>,
    scale: Scale,
    layout: Layout,
)
    requires
        scale.den > 0,
        total_advance(glyphs) >= 0,
    ensures
        ({
            let caret = total_advance(glyphs);
            let content = canvas_width_spec(glyphs, scale, layout) - 2 * layout.margin;
            &&& content * scale.den <= caret * scale.num < (content + 1) * scale.den
            &&& scale.num == scale.den ==> content == caret
        }),
{
    let caret = total_advance(glyphs);
    let num = scale.num as int;
    let den = scale.den as int;
    let content = canvas_width_spec(glyphs, scale, layout) - 2 * layout.margin;
    if caret == 0 {
        assert(content == 0);
        assert(caret * num == 0) by (nonlinear_arith)
            requires
                caret == 0,
        ;
        assert(content * den == 0) by (nonlinear_arith)
            requires
                content == 0,
        ;
        assert((content + 1) * den == den) by (nonlinear_arith)
            requires
                content == 0,
        ;
    } else {
        assert(content == (caret * num) / den);
        assert(content * den <= caret * num < (content + 1) * den) by (nonlinear_arith)
            requires
                content == (caret * num) / den,
                den > 0,
        ;
        if num == den {
            assert((caret * den) / den == caret) by (nonlinear_arith)
                requires
                    den > 0,
            ;
        }
    }
}

impl Scale {
    /// The scale of type set at `points` points in a font with
    /// `units_per_em` units to the em: a point is 96/72 of a pixel. `None`
    /// where the font has no units to the em, or where the fraction's terms
    /// do not fit in a `u32`.
    pub fn from_points(points: u32, units_per_em: u32) -> (scale: Option<Scale>)
        ensures
            scale is Some <==> units_per_em > 0 && 4 * points <= u32::MAX && 3 * units_per_em
                <= u32::MAX,
            scale matches Some(s) ==> s.num == 4 * points && s.den == 3 * units_per_em,
    {
        if units_per_em == 0 || points > u32::MAX / 4 || units_per_em > u32::MAX / 3 {
            None
        } else {
            Some(Scale { num: 4 * points, den: 3 * units_per_em })
        }
    }
}

impl Layout {
    /// The standard layout: dark ink on an ivory ground, with the standard
    /// margin and line height.
    pub fn standard() -> (layout: Layout)
        ensures
            layout == (Layout {
                margin: MARGIN,
                line_height: LINE_HEIGHT,
                ink: Color { r: 0x0a, g: 0x0a, b: 0x0a, a: 0xff },
                background: Color { r: 0xff, g: 0xff, b: 0xf2, a: 0xff },
            }),
    {
        Layout {
            margin: MARGIN,
            line_height: LINE_HEIGHT,
            ink: Color { r: 0x0a, g: 0x0a, b: 0x0a, a: 0xff },
            background: Color { r: 0xff, g: 0xff, b: 0xf2, a: 0xff },
        }
    }
}

/// The size of the canvas for a run of glyphs: the line's width in pixels
/// plus two margins, by two line heights plus two margins.
pub fn canvas_size(glyphs: &Vec<GlyphRecord>, scale: Scale, layout: &Layout) -> (size: Result<
    CanvasSize,
    LayoutError,
>)
    ensures
        size == canvas_size_spec(glyphs@, scale, *layout),
{
    if scale.den == 0 {
        return Err(LayoutError::InvalidScale);
    }
    let count = glyphs.len();
    let total = sum_advances(glyphs);
    let line: i128 = if total <= 0 {
        0
    } else {
        proof {
            lemma_caret_bound(glyphs@, glyphs@.len() as int);
            assert(total * scale.num <= 0x7fff_ffff * 0xffff_ffff_ffff_ffff * 0xffff_ffff)
                by (nonlinear_arith)
                requires
                    0 < total <= 0x7fff_ffff * glyphs@.len(),
                    glyphs@.len() == count <= 0xffff_ffff_ffff_ffff,
                    0 <= scale.num <= 0xffff_ffff,
            ;
        }
        (total * scale.num as i128) / scale.den as i128
    };
    proof {
        if total > 0 {
            assert(0 <= (total * scale.num) / (scale.den as int) <= total * scale.num)
                by (nonlinear_arith)
                requires
                    0 <= total * scale.num,
                    scale.den > 0,
            ;
        }
    }
    let width: i128 = line + 2 * layout.margin as i128;
    let height: u64 = 2 * layout.line_height as u64 + 2 * layout.margin as u64;
    if width > 0xffff_ffff || height > 0xffff_ffff {
        Err(LayoutError::CanvasTooLarge)
    } else {
        Ok(CanvasSize { width: width as u32, height: height as u32 })
    }
}

} // verus!

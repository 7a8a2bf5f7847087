//! The comparison image: one line of text as two shapers placed it, the
//! first shaper's glyphs in the upper band and the second's in the lower.

use vstd::prelude::*;
use crate::canvas::{Canvas, CanvasView};
use crate::glyph::GlyphRecord;
use crate::layout::{canvas_size, canvas_size_spec, CanvasSize, Layout, LayoutError, Scale};
use crate::raster::{
    lemma_missed_by_run_unchanged, lemma_rasterize_keeps_size, lemma_rasterize_shifted,
    lemma_empty_outlines_change_nothing, all_outlines_empty, mask_misses, rasterize, GlyphMask,
    MaskPixel,
};

verus! {

/// The comparison image of the given size: the background, then the upper
/// run drawn one margin down, then the lower run drawn one line height
/// further down. Both runs start one margin from the left edge.
pub open spec fn comparison_spec(
    size: CanvasSize,
    layout: Layout,
    upper: Seq<Option<GlyphMask>>,
    lower: Seq<Option<GlyphMask>>,
) -> CanvasView {
    CanvasView::filled(size.width as nat, size.height as nat, layout.background).rasterize(
        upper,
        layout.margin as int,
        layout.margin as int,
        layout.ink,
    ).rasterize(
        lower,
        layout.margin as int,
        layout.margin + layout.line_height,
        layout.ink,
    )
}

/// What `write_in_image` returns: the comparison image at the size that the
/// designated run asks for, or the reason why there is none.
pub open spec fn write_in_image_spec(
    layout: Layout,
    scale: Scale,
    glyphs: Seq<GlyphRecord>,
    upper: Seq<Option<GlyphMask>>,
    lower: Seq<Option<GlyphMask>>,
) -> Result<CanvasView, LayoutError> {
    match canvas_size_spec(glyphs, scale, layout) {
        Err(error) => Err(error),
        Ok(size) => if 4 * size.width * size.height <= isize::MAX {
            Ok(comparison_spec(size, layout, upper, lower))
        } else {
            Err(LayoutError::CanvasTooLarge)
        },
    }
}

/// Whether a mask pixel is seen in the comparison image: drawn with the
/// upper run or with the lower, it falls on the canvas.
pub open spec fn pixel_shows(mask: GlyphMask, p: MaskPixel, size: CanvasSize, layout: Layout) -> bool {
    let column = mask.origin_x() + layout.margin + p.x;
    let row = mask.origin_y() + layout.margin + p.y;
    &&& 0 <= column < size.width
    &&& 0 <= row < size.height || 0 <= row + layout.line_height < size.height
}

/// Whether every mask pixel of a run that is seen in the comparison image
/// lies in the rows of one band: not above the line's first row and less
/// than one line height below it.
pub open spec fn fits_band(
    outlines: Seq<Option<GlyphMask>>,
    size: CanvasSize,
    layout: Layout,
) -> bool {
    forall|i: int|
        0 <= i < outlines.len() ==> match #[trigger] outlines[i] {
            Some(mask) => forall|j: int|
                0 <= j < mask.pixels@.len() ==> {
                    let p = #[trigger] mask.pixels@[j];
                    pixel_shows(mask, p, size, layout) ==> 0 <= mask.origin_y() + p.y
                        < layout.line_height
                },
            None => true,
        }
}

/// Where both shapers give the same glyphs and no glyph shows outside the
/// rows of a band, the two bands of the comparison image are the same picture: each
/// pixel of the upper band has the colour of the pixel one line height
/// below it.
pub proof fn lemma_equal_runs_give_equal_bands(
    size: CanvasSize,
    layout: Layout,
    outlines: Seq<Option<GlyphMask>>,
    x: int,
    y: int,
)
    requires
        fits_band(outlines, size, layout),
        size.height == 2 * layout.line_height + 2 * layout.margin,
        0 <= x < size.width,
        layout.margin <= y < layout.margin + layout.line_height,
    ensures
        comparison_spec(size, layout, outlines, outlines).pixels[(x, y)] == comparison_spec(
            size,
            layout,
            outlines,
            outlines,
        ).pixels[(x, y + layout.line_height)],
{
    let margin = layout.margin as int;
    let height = layout.line_height as int;
    let ink = layout.ink;
    let blank = CanvasView::filled(size.width as nat, size.height as nat, layout.background);
    let upper = blank.rasterize(outlines, margin, margin, ink);
    let both = upper.rasterize(outlines, margin, margin + height, ink);
    lemma_rasterize_keeps_size(blank, outlines, margin, margin, ink);

    // The lower run starts below the pixel at `(x, y)`.
    assert forall|i: int| 0 <= i < outlines.len() implies match #[trigger] outlines[i] {
        Some(mask) => mask_misses(mask, margin, margin + height, x, y),
        None => true,
    } by {
        match outlines[i] {
            Some(mask) => {
                assert forall|j: int| 0 <= j < mask.pixels@.len() implies !({
                    let p = #[trigger] mask.pixels@[j];
                    mask.origin_x() + margin + p.x == x && mask.origin_y() + (margin + height)
                        + p.y == y
                }) by {
                    let p = mask.pixels@[j];
                    if mask.origin_x() + margin + p.x == x && mask.origin_y() + (margin + height)
                        + p.y == y {
                        assert(pixel_shows(mask, p, size, layout));
                    }
                }
            },
            None => {},
        }
    }
    lemma_missed_by_run_unchanged(upper, outlines, margin, margin + height, ink, x, y);
    assert(both.pixels[(x, y)] == upper.pixels[(x, y)]);

    // The upper run ends above the pixel at `(x, y + height)`.
    assert forall|i: int| 0 <= i < outlines.len() implies match #[trigger] outlines[i] {
        Some(mask) => mask_misses(mask, margin, margin, x, y + height),
        None => true,
    } by {
        match outlines[i] {
            Some(mask) => {
                assert forall|j: int| 0 <= j < mask.pixels@.len() implies !({
                    let p = #[trigger] mask.pixels@[j];
                    mask.origin_x() + margin + p.x == x && mask.origin_y() + margin + p.y == y
                        + height
                }) by {
                    let p = mask.pixels@[j];
                    if mask.origin_x() + margin + p.x == x && mask.origin_y() + margin + p.y == y
                        + height {
                        assert(pixel_shows(mask, p, size, layout));
                    }
                }
            },
            None => {},
        }
    }
    lemma_missed_by_run_unchanged(blank, outlines, margin, margin, ink, x, y + height);
    assert(upper.pixels[(x, y + height)] == blank.pixels[(x, y)]);

    lemma_rasterize_shifted(blank, upper, outlines, margin, margin, 0, height, ink, x, y);
}

/// Where no glyph of either run has anything to draw, the comparison image
/// is the plain background.
pub proof fn lemma_empty_runs_give_background(
    size: CanvasSize,
    layout: Layout,
    upper: Seq<Option<GlyphMask>>,
    lower: Seq<Option<GlyphMask>>,
)
    requires
        all_outlines_empty(upper),
        all_outlines_empty(lower),
    ensures
        comparison_spec(size, layout, upper, lower) == CanvasView::filled(
            size.width as nat,
            size.height as nat,
            layout.background,
        ),
{
    let blank = CanvasView::filled(size.width as nat, size.height as nat, layout.background);
    lemma_empty_outlines_change_nothing(
        blank,
        upper,
        layout.margin as int,
        layout.margin as int,
        layout.ink,
    );
    lemma_empty_outlines_change_nothing(
        blank,
        lower,
        layout.margin as int,
        layout.margin + layout.line_height,
        layout.ink,
    );
}

/// Renders the comparison image. The canvas is sized for `glyphs`, the run
/// of the designated shaper, and filled with the background; `upper` holds
/// the outlines of the first shaper's glyphs and `lower` those of the
/// second's, each in the order of its run.
pub fn write_in_image(
    layout: &Layout,
    scale: Scale,
    glyphs: &Vec<GlyphRecord>,
    upper: &Vec<Option<GlyphMask>>,
    lower: &Vec<Option<GlyphMask>>,
) -> (image: Result<Canvas, LayoutError>)
    ensures
        match write_in_image_spec(*layout, scale, glyphs@, upper@, lower@) {
            Ok(view) => image matches Ok(canvas) && canvas@ == view,
            Err(error) => image matches Err(e) && e == error,
        },
{
    let size = match canvas_size(glyphs, scale, layout) {
        Ok(size) => size,
        Err(error) => {
            return Err(error);
        },
    };
    let mut canvas = match Canvas::filled(size.width, size.height, layout.background) {
        Some(canvas) => canvas,
        None => {
            return Err(LayoutError::CanvasTooLarge);
        },
    };
    rasterize(&mut canvas, upper, layout.margin, 0, layout.ink);
    rasterize(&mut canvas, lower, layout.margin, layout.line_height, layout.ink);
    Ok(canvas)
}

} // verus!

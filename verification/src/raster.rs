//! Drawing coverage masks of glyphs onto the canvas.
//!
//! A mask lists the pixels that one glyph's outline touches, relative to the
//! corner of its bounding box, each with a raw coverage. Masks are drawn in
//! the order in which they are given, so a later glyph blends over an earlier
//! one wherever they overlap.

use vstd::prelude::*;
use crate::canvas::{lemma_blend_at_well_formed, Canvas, CanvasView};
use crate::color::{
    channel, clamp_coverage_spec, lemma_blend_by_channel, lemma_blend_channel_darkens,
    lemma_blend_channel_lightens, lemma_blend_extremes, moved_toward, Color,
};

verus! {

/// One pixel of a glyph's coverage mask: a position relative to the corner
/// of the mask, and a raw coverage in units of 1/255.
#[derive(Clone, Copy, Debug, PartialEq, Eq, Structural)]
pub struct MaskPixel {
    pub x: u32,
    pub y: u32,
    pub coverage: i32,
}

/// The coverage mask of one glyph at its pen position.
///
/// `min_x` and `min_y` are the smallest whole-pixel coordinates of the
/// outline's bounding box, in the coordinates of the line. Either may be
/// negative: an outline may reach left of the line's start or above it.
#[derive(Clone, Debug)]
pub struct GlyphMask {
    pub min_x: i64,
    pub min_y: i64,
    pub pixels: Vec<MaskPixel>,
}

impl GlyphMask {
    /// The column of the mask's corner, in the coordinates of the line.
    pub open spec fn origin_x(self) -> int {
        self.min_x as int
    }

    /// The row of the mask's corner, in the coordinates of the line.
    pub open spec fn origin_y(self) -> int {
        self.min_y as int
    }
}

impl CanvasView {
    /// The canvas after the given mask pixels were blended onto it in order,
    /// the mask's corner lying at `(left, top)`.
    pub open spec fn draw_pixels(
        self,
        pixels: Seq<MaskPixel>,
        left: int,
        top: int,
        ink: Color,
    ) -> CanvasView
        decreases pixels.len(),
    {
        if pixels.len() == 0 {
            self
        } else {
            let p = pixels.last();
            self.draw_pixels(pixels.drop_last(), left, top, ink).blend_at(
                left + p.x,
                top + p.y,
                ink,
                p.coverage as int,
            )
        }
    }

    /// The canvas after one glyph's mask was drawn, the line's coordinates
    /// being shifted by `(dx, dy)`.
    pub open spec fn draw_mask(self, mask: GlyphMask, dx: int, dy: int, ink: Color) -> CanvasView {
        self.draw_pixels(mask.pixels@, mask.origin_x() + dx, mask.origin_y() + dy, ink)
    }

    /// The canvas after one glyph was drawn: a glyph without an outline
    /// leaves it as it is.
    pub open spec fn draw_outline(
        self,
        outline: Option<GlyphMask>,
        dx: int,
        dy: int,
        ink: Color,
    ) -> CanvasView {
        match outline {
            Some(mask) => self.draw_mask(mask, dx, dy, ink),
            None => self,
        }
    }

    /// The canvas after a run of glyphs was drawn, first to last.
    pub open spec fn rasterize(
        self,
        outlines: Seq<Option<GlyphMask>>,
        dx: int,
        dy: int,
        ink: Color,
    ) -> CanvasView
        decreases outlines.len(),
    {
        if outlines.len() == 0 {
            self
        } else {
            self.rasterize(outlines.drop_last(), dx, dy, ink).draw_outline(
                outlines.last(),
                dx,
                dy,
                ink,
            )
        }
    }

    /// The mask pixels that fall on the canvas when the mask's corner lies
    /// at `(left, top)`, in their order.
    pub open spec fn visible_pixels(self, pixels: Seq<MaskPixel>, left: int, top: int) -> Seq<
        MaskPixel,
    >
        decreases pixels.len(),
    {
        if pixels.len() == 0 {
            pixels
        } else {
            let rest = self.visible_pixels(pixels.drop_last(), left, top);
            let p = pixels.last();
            if self.contains(left + p.x, top + p.y) {
                rest.push(p)
            } else {
                rest
            }
        }
    }
}

/// Whether no pixel of a mask lands on `(x, y)` when the line's coordinates
/// are shifted by `(dx, dy)`.
pub open spec fn mask_misses(mask: GlyphMask, dx: int, dy: int, x: int, y: int) -> bool {
    forall|j: int|
        0 <= j < mask.pixels@.len() ==> !({
            let p = #[trigger] mask.pixels@[j];
            mask.origin_x() + dx + p.x == x && mask.origin_y() + dy + p.y == y
        })
}

/// Whether no glyph of a run lands on `(x, y)`.
pub open spec fn run_misses(
    outlines: Seq<Option<GlyphMask>>,
    dx: int,
    dy: int,
    x: int,
    y: int,
) -> bool {
    forall|i: int|
        0 <= i < outlines.len() ==> match #[trigger] outlines[i] {
            Some(mask) => mask_misses(mask, dx, dy, x, y),
            None => true,
        }
}

/// Whether a run holds nothing to draw: each glyph has no outline, or an
/// outline that covers no pixel.
pub open spec fn all_outlines_empty(outlines: Seq<Option<GlyphMask>>) -> bool {
    forall|i: int|
        0 <= i < outlines.len() ==> match #[trigger] outlines[i] {
            Some(mask) => mask.pixels@.len() == 0,
            None => true,
        }
}

/// Drawing mask pixels never changes the size of the canvas.
pub proof fn lemma_draw_pixels_keeps_size(
    view: CanvasView,
    pixels: Seq<MaskPixel>,
    left: int,
    top: int,
    ink: Color,
)
    ensures
        view.draw_pixels(pixels, left, top, ink).width == view.width,
        view.draw_pixels(pixels, left, top, ink).height == view.height,
    decreases pixels.len(),
{
    if pixels.len() > 0 {
        lemma_draw_pixels_keeps_size(view, pixels.drop_last(), left, top, ink);
    }
}

/// Drawing a run of glyphs never changes the size of the canvas.
pub proof fn lemma_rasterize_keeps_size(
    view: CanvasView,
    outlines: Seq<Option<GlyphMask>>,
    dx: int,
    dy: int,
    ink: Color,
)
    ensures
        view.rasterize(outlines, dx, dy, ink).width == view.width,
        view.rasterize(outlines, dx, dy, ink).height == view.height,
    decreases outlines.len(),
{
    if outlines.len() > 0 {
        lemma_rasterize_keeps_size(view, outlines.drop_last(), dx, dy, ink);
        let earlier = view.rasterize(outlines.drop_last(), dx, dy, ink);
        match outlines.last() {
            Some(mask) => {
                lemma_draw_pixels_keeps_size(
                    earlier,
                    mask.pixels@,
                    mask.origin_x() + dx,
                    mask.origin_y() + dy,
                    ink,
                );
            },
            None => {},
        }
    }
}

/// Glyphs are drawn in the order of the run: drawing one run and then
/// another gives the same canvas as drawing the two as one run.
pub proof fn lemma_rasterize_in_order(
    view: CanvasView,
    first: Seq<Option<GlyphMask>>,
    second: Seq<Option<GlyphMask>>,
    dx: int,
    dy: int,
    ink: Color,
)
    ensures
        view.rasterize(first + second, dx, dy, ink) == view.rasterize(first, dx, dy, ink).rasterize(
            second,
            dx,
            dy,
            ink,
        ),
    decreases second.len(),
{
    if second.len() == 0 {
        assert(first + second == first);
    } else {
        lemma_rasterize_in_order(view, first, second.drop_last(), dx, dy, ink);
        assert((first + second).drop_last() == first + second.drop_last());
        assert((first + second).last() == second.last());
    }
}

/// A run of glyphs that all have empty outlines leaves the canvas exactly
/// as it was.
pub proof fn lemma_empty_outlines_change_nothing(
    view: CanvasView,
    outlines: Seq<Option<GlyphMask>>,
    dx: int,
    dy: int,
    ink: Color,
)
    requires
        all_outlines_empty(outlines),
    ensures
        view.rasterize(outlines, dx, dy, ink) == view,
    decreases outlines.len(),
{
    if outlines.len() > 0 {
        let earlier = outlines.drop_last();
        assert forall|i: int| 0 <= i < earlier.len() implies match #[trigger] earlier[i] {
            Some(mask) => mask.pixels@.len() == 0,
            None => true,
        } by {
            assert(earlier[i] == outlines[i]);
        }
        lemma_empty_outlines_change_nothing(view, earlier, dx, dy, ink);
        assert(outlines.last() == outlines[outlines.len() - 1]);
    }
}

/// Mask pixels that fall outside the canvas are dropped without a trace:
/// drawing a mask gives the same canvas as drawing only those of its pixels
/// that fall on the canvas.
pub proof fn lemma_clipped_pixels_change_nothing(
    view: CanvasView,
    pixels: Seq<MaskPixel>,
    left: int,
    top: int,
    ink: Color,
)
    ensures
        view.draw_pixels(pixels, left, top, ink) == view.draw_pixels(
            view.visible_pixels(pixels, left, top),
            left,
            top,
            ink,
        ),
    decreases pixels.len(),
{
    if pixels.len() > 0 {
        let earlier = pixels.drop_last();
        let p = pixels.last();
        lemma_clipped_pixels_change_nothing(view, earlier, left, top, ink);
        lemma_draw_pixels_keeps_size(view, earlier, left, top, ink);
        let kept = view.visible_pixels(earlier, left, top);
        if view.contains(left + p.x, top + p.y) {
            assert(kept.push(p).drop_last() == kept);
            assert(kept.push(p).last() == p);
        }
    }
}

/// A pixel on which no pixel of the mask lands keeps its colour.
pub proof fn lemma_missed_by_mask_unchanged(
    view: CanvasView,
    mask: GlyphMask,
    dx: int,
    dy: int,
    ink: Color,
    x: int,
    y: int,
)
    requires
        mask_misses(mask, dx, dy, x, y),
    ensures
        view.draw_mask(mask, dx, dy, ink).pixels[(x, y)] == view.pixels[(x, y)],
{
    lemma_missed_by_pixels_unchanged(view, mask, mask.pixels@.len() as int, dx, dy, ink, x, y);
    assert(mask.pixels@.take(mask.pixels@.len() as int) == mask.pixels@);
}

proof fn lemma_missed_by_pixels_unchanged(
    view: CanvasView,
    mask: GlyphMask,
    n: int,
    dx: int,
    dy: int,
    ink: Color,
    x: int,
    y: int,
)
    requires
        mask_misses(mask, dx, dy, x, y),
        0 <= n <= mask.pixels@.len(),
    ensures
        view.draw_pixels(
            mask.pixels@.take(n),
            mask.origin_x() + dx,
            mask.origin_y() + dy,
            ink,
        ).pixels[(x, y)] == view.pixels[(x, y)],
    decreases n,
{
    if n > 0 {
        lemma_missed_by_pixels_unchanged(view, mask, n - 1, dx, dy, ink, x, y);
        let upto = mask.pixels@.take(n);
        assert(upto.drop_last() == mask.pixels@.take(n - 1));
        assert(upto.last() == mask.pixels@[n - 1]);
    }
}

/// A pixel on which no glyph of the run lands keeps its colour.
pub proof fn lemma_missed_by_run_unchanged(
    view: CanvasView,
    outlines: Seq<Option<GlyphMask>>,
    dx: int,
    dy: int,
    ink: Color,
    x: int,
    y: int,
)
    requires
        run_misses(outlines, dx, dy, x, y),
    ensures
        view.rasterize(outlines, dx, dy, ink).pixels[(x, y)] == view.pixels[(x, y)],
    decreases outlines.len(),
{
    if outlines.len() > 0 {
        let earlier = outlines.drop_last();
        assert forall|i: int| 0 <= i < earlier.len() implies match #[trigger] earlier[i] {
            Some(mask) => mask_misses(mask, dx, dy, x, y),
            None => true,
        } by {
            assert(earlier[i] == outlines[i]);
        }
        lemma_missed_by_run_unchanged(view, earlier, dx, dy, ink, x, y);
        assert(outlines.last() == outlines[outlines.len() - 1]);
        match outlines.last() {
            Some(mask) => {
                lemma_missed_by_mask_unchanged(
                    view.rasterize(earlier, dx, dy, ink),
                    mask,
                    dx,
                    dy,
                    ink,
                    x,
                    y,
                );
            },
            None => {},
        }
    }
}

/// Drawing is the same wherever it happens: where two canvases agree on a
/// pixel and on the pixel that lies `(sx, sy)` away from it, they still
/// agree after the same mask pixels were drawn onto both, the second time
/// moved by `(sx, sy)`.
pub proof fn lemma_draw_pixels_shifted(
    first: CanvasView,
    second: CanvasView,
    pixels: Seq<MaskPixel>,
    left: int,
    top: int,
    sx: int,
    sy: int,
    ink: Color,
    x: int,
    y: int,
)
    requires
        first.contains(x, y),
        second.contains(x + sx, y + sy),
        first.pixels[(x, y)] == second.pixels[(x + sx, y + sy)],
    ensures
        first.draw_pixels(pixels, left, top, ink).pixels[(x, y)] == second.draw_pixels(
            pixels,
            left + sx,
            top + sy,
            ink,
        ).pixels[(x + sx, y + sy)],
    decreases pixels.len(),
{
    if pixels.len() > 0 {
        let earlier = pixels.drop_last();
        lemma_draw_pixels_shifted(first, second, earlier, left, top, sx, sy, ink, x, y);
        lemma_draw_pixels_keeps_size(first, earlier, left, top, ink);
        lemma_draw_pixels_keeps_size(second, earlier, left + sx, top + sy, ink);
    }
}

/// Two runs of the same glyphs, drawn onto canvases that agree on a pixel
/// and on the pixel that lies `(sx, sy)` away from it, the second run moved
/// by `(sx, sy)`, give those two pixels the same colour. With a second
/// canvas that reaches further on every side, this says that clipping
/// leaves each pixel that is drawn at its true place with its true colour.
pub proof fn lemma_rasterize_shifted(
    first: CanvasView,
    second: CanvasView,
    outlines: Seq<Option<GlyphMask>>,
    dx: int,
    dy: int,
    sx: int,
    sy: int,
    ink: Color,
    x: int,
    y: int,
)
    requires
        first.contains(x, y),
        second.contains(x + sx, y + sy),
        first.pixels[(x, y)] == second.pixels[(x + sx, y + sy)],
    ensures
        first.rasterize(outlines, dx, dy, ink).pixels[(x, y)] == second.rasterize(
            outlines,
            dx + sx,
            dy + sy,
            ink,
        ).pixels[(x + sx, y + sy)],
    decreases outlines.len(),
{
    if outlines.len() > 0 {
        let earlier = outlines.drop_last();
        lemma_rasterize_shifted(first, second, earlier, dx, dy, sx, sy, ink, x, y);
        lemma_rasterize_keeps_size(first, earlier, dx, dy, ink);
        lemma_rasterize_keeps_size(second, earlier, dx + sx, dy + sy, ink);
        match outlines.last() {
            Some(mask) => {
                lemma_draw_pixels_shifted(
                    first.rasterize(earlier, dx, dy, ink),
                    second.rasterize(earlier, dx + sx, dy + sy, ink),
                    mask.pixels@,
                    mask.origin_x() + dx,
                    mask.origin_y() + dy,
                    sx,
                    sy,
                    ink,
                    x,
                    y,
                );
                assert(mask.origin_x() + dx + sx == mask.origin_x() + (dx + sx));
                assert(mask.origin_y() + dy + sy == mask.origin_y() + (dy + sy));
            },
            None => {},
        }
    }
}

/// Whether some pixel of a mask whose corner lies at `(left, top)` lands on
/// `(x, y)` with a coverage that is, once clamped, at least `least`.
pub open spec fn lands_on(
    pixels: Seq<MaskPixel>,
    left: int,
    top: int,
    x: int,
    y: int,
    least: int,
) -> bool
    decreases pixels.len(),
{
    if pixels.len() == 0 {
        false
    } else {
        let p = pixels.last();
        ||| left + p.x == x && top + p.y == y && clamp_coverage_spec(p.coverage as int) >= least
        ||| lands_on(pixels.drop_last(), left, top, x, y, least)
    }
}

/// Whether every pixel of a mask is either not covered or fully covered.
pub open spec fn all_or_nothing(pixels: Seq<MaskPixel>) -> bool {
    forall|j: int|
        0 <= j < pixels.len() ==> {
            let coverage = clamp_coverage_spec((#[trigger] pixels[j]).coverage as int);
            coverage == 0 || coverage == 255
        }
}

/// Drawing mask pixels onto a well-formed canvas gives a well-formed canvas.
pub proof fn lemma_draw_pixels_well_formed(
    view: CanvasView,
    pixels: Seq<MaskPixel>,
    left: int,
    top: int,
    ink: Color,
)
    requires
        view.well_formed(),
    ensures
        view.draw_pixels(pixels, left, top, ink).well_formed(),
    decreases pixels.len(),
{
    if pixels.len() > 0 {
        let p = pixels.last();
        lemma_draw_pixels_well_formed(view, pixels.drop_last(), left, top, ink);
        lemma_blend_at_well_formed(
            view.draw_pixels(pixels.drop_last(), left, top, ink),
            left + p.x,
            top + p.y,
            ink,
            p.coverage as int,
        );
    }
}

/// Drawing a run of glyphs onto a well-formed canvas gives a well-formed
/// canvas.
pub proof fn lemma_rasterize_well_formed(
    view: CanvasView,
    outlines: Seq<Option<GlyphMask>>,
    dx: int,
    dy: int,
    ink: Color,
)
    requires
        view.well_formed(),
    ensures
        view.rasterize(outlines, dx, dy, ink).well_formed(),
    decreases outlines.len(),
{
    if outlines.len() > 0 {
        lemma_rasterize_well_formed(view, outlines.drop_last(), dx, dy, ink);
        match outlines.last() {
            Some(mask) => {
                lemma_draw_pixels_well_formed(
                    view.rasterize(outlines.drop_last(), dx, dy, ink),
                    mask.pixels@,
                    mask.origin_x() + dx,
                    mask.origin_y() + dy,
                    ink,
                );
            },
            None => {},
        }
    }
}

/// Whatever is drawn, every channel of every pixel only ever moves towards
/// the ink: drawing the same mask again can take a pixel further towards
/// the ink, never back.
pub proof fn lemma_draw_pixels_toward_ink(
    view: CanvasView,
    pixels: Seq<MaskPixel>,
    left: int,
    top: int,
    ink: Color,
    x: int,
    y: int,
    k: int,
)
    ensures
        moved_toward(
            channel(ink, k),
            channel(view.pixels[(x, y)], k),
            channel(view.draw_pixels(pixels, left, top, ink).pixels[(x, y)], k),
        ),
    decreases pixels.len(),
{
    if pixels.len() > 0 {
        let p = pixels.last();
        let earlier = view.draw_pixels(pixels.drop_last(), left, top, ink);
        lemma_draw_pixels_toward_ink(view, pixels.drop_last(), left, top, ink, x, y, k);
        lemma_blend_by_channel(
            ink,
            earlier.pixels[(x, y)],
            clamp_coverage_spec(p.coverage as int),
            k,
        );
    }
}

/// Where the ink is darker than a pixel in some channel and a mask pixel
/// lands on it with any coverage above zero, drawing the mask makes that
/// channel strictly darker. Drawing the same mask again therefore darkens
/// the pixel again, until it has the ink's value.
pub proof fn lemma_draw_pixels_darkens(
    view: CanvasView,
    pixels: Seq<MaskPixel>,
    left: int,
    top: int,
    ink: Color,
    x: int,
    y: int,
    k: int,
)
    requires
        view.contains(x, y),
        lands_on(pixels, left, top, x, y, 1),
        channel(ink, k) < channel(view.pixels[(x, y)], k),
    ensures
        channel(ink, k) <= channel(view.draw_pixels(pixels, left, top, ink).pixels[(x, y)], k)
            < channel(view.pixels[(x, y)], k),
    decreases pixels.len(),
{
    let p = pixels.last();
    let coverage = clamp_coverage_spec(p.coverage as int);
    let earlier = view.draw_pixels(pixels.drop_last(), left, top, ink);
    lemma_draw_pixels_keeps_size(view, pixels.drop_last(), left, top, ink);
    lemma_draw_pixels_toward_ink(view, pixels.drop_last(), left, top, ink, x, y, k);
    lemma_draw_pixels_toward_ink(view, pixels, left, top, ink, x, y, k);
    lemma_blend_by_channel(ink, earlier.pixels[(x, y)], coverage, k);
    if left + p.x == x && top + p.y == y && coverage >= 1 {
        if channel(ink, k) < channel(earlier.pixels[(x, y)], k) {
            lemma_blend_channel_darkens(
                channel(ink, k),
                channel(earlier.pixels[(x, y)], k),
                coverage,
            );
        }
    } else {
        lemma_draw_pixels_darkens(view, pixels.drop_last(), left, top, ink, x, y, k);
    }
}

/// Where the ink is lighter than a pixel in some channel and a mask pixel
/// lands on it with a coverage that carries the difference over one whole
/// step, drawing the mask makes that channel strictly lighter.
pub proof fn lemma_draw_pixels_lightens(
    view: CanvasView,
    pixels: Seq<MaskPixel>,
    left: int,
    top: int,
    ink: Color,
    x: int,
    y: int,
    k: int,
    least: int,
)
    requires
        view.contains(x, y),
        lands_on(pixels, left, top, x, y, least),
        channel(view.pixels[(x, y)], k) < channel(ink, k),
        (channel(ink, k) - channel(view.pixels[(x, y)], k)) * least >= 255,
    ensures
        channel(view.pixels[(x, y)], k) < channel(
            view.draw_pixels(pixels, left, top, ink).pixels[(x, y)],
            k,
        ) <= channel(ink, k),
    decreases pixels.len(),
{
    let p = pixels.last();
    let coverage = clamp_coverage_spec(p.coverage as int);
    let earlier = view.draw_pixels(pixels.drop_last(), left, top, ink);
    let start = channel(view.pixels[(x, y)], k);
    let middle = channel(earlier.pixels[(x, y)], k);
    let gap = channel(ink, k) - start;
    lemma_draw_pixels_keeps_size(view, pixels.drop_last(), left, top, ink);
    lemma_draw_pixels_toward_ink(view, pixels.drop_last(), left, top, ink, x, y, k);
    lemma_draw_pixels_toward_ink(view, pixels, left, top, ink, x, y, k);
    lemma_blend_by_channel(ink, earlier.pixels[(x, y)], coverage, k);
    if left + p.x == x && top + p.y == y && coverage >= least {
        if middle == start {
            assert(gap * coverage >= 255) by (nonlinear_arith)
                requires
                    gap * least >= 255,
                    coverage >= least,
                    gap > 0,
            ;
            lemma_blend_channel_lightens(channel(ink, k), middle, coverage);
        }
    } else {
        lemma_draw_pixels_lightens(view, pixels.drop_last(), left, top, ink, x, y, k, least);
    }
}

/// Where the ink is lighter than a pixel in some channel and no mask pixel
/// lands on it with a coverage that carries the difference over one whole
/// step, drawing the mask leaves that channel as it was.
pub proof fn lemma_draw_pixels_too_faint(
    view: CanvasView,
    pixels: Seq<MaskPixel>,
    left: int,
    top: int,
    ink: Color,
    x: int,
    y: int,
    k: int,
    least: int,
)
    requires
        !lands_on(pixels, left, top, x, y, least),
        channel(view.pixels[(x, y)], k) < channel(ink, k),
        least >= 1,
        (channel(ink, k) - channel(view.pixels[(x, y)], k)) * (least - 1) < 255,
    ensures
        channel(view.draw_pixels(pixels, left, top, ink).pixels[(x, y)], k) == channel(
            view.pixels[(x, y)],
            k,
        ),
    decreases pixels.len(),
{
    if pixels.len() > 0 {
        let p = pixels.last();
        let coverage = clamp_coverage_spec(p.coverage as int);
        let earlier = view.draw_pixels(pixels.drop_last(), left, top, ink);
        let start = channel(view.pixels[(x, y)], k);
        let gap = channel(ink, k) - start;
        lemma_draw_pixels_too_faint(view, pixels.drop_last(), left, top, ink, x, y, k, least);
        lemma_blend_by_channel(ink, earlier.pixels[(x, y)], coverage, k);
        if left + p.x == x && top + p.y == y {
            assert(gap * coverage < 255) by (nonlinear_arith)
                requires
                    gap * (least - 1) < 255,
                    0 <= coverage <= least - 1,
                    gap > 0,
            ;
            lemma_blend_channel_lightens(channel(ink, k), start, coverage);
        }
    }
}

/// Where every pixel of a mask is either not covered or fully covered, a
/// pixel of the canvas ends as the ink if a fully covered mask pixel lands
/// on it, and as it was if none does.
pub proof fn lemma_draw_all_or_nothing(
    view: CanvasView,
    pixels: Seq<MaskPixel>,
    left: int,
    top: int,
    ink: Color,
    x: int,
    y: int,
)
    requires
        all_or_nothing(pixels),
    ensures
        view.draw_pixels(pixels, left, top, ink).pixels[(x, y)] == if view.contains(x, y)
            && lands_on(pixels, left, top, x, y, 255) {
            ink
        } else {
            view.pixels[(x, y)]
        },
    decreases pixels.len(),
{
    if pixels.len() > 0 {
        let p = pixels.last();
        let earlier = pixels.drop_last();
        assert forall|j: int| 0 <= j < earlier.len() implies {
            let coverage = clamp_coverage_spec((#[trigger] earlier[j]).coverage as int);
            coverage == 0 || coverage == 255
        } by {
            assert(earlier[j] == pixels[j]);
        }
        assert(pixels.last() == pixels[pixels.len() - 1]);
        lemma_draw_all_or_nothing(view, earlier, left, top, ink, x, y);
        lemma_draw_pixels_keeps_size(view, earlier, left, top, ink);
        lemma_blend_extremes(ink, view.draw_pixels(earlier, left, top, ink).pixels[(x, y)]);
    }
}

/// Drawing the same mask twice at the same place gives the same canvas as
/// drawing it once, where every pixel of the mask is either not covered or
/// fully covered.
pub proof fn lemma_draw_twice_all_or_nothing(
    view: CanvasView,
    pixels: Seq<MaskPixel>,
    left: int,
    top: int,
    ink: Color,
)
    requires
        view.well_formed(),
        all_or_nothing(pixels),
    ensures
        view.draw_pixels(pixels, left, top, ink).draw_pixels(pixels, left, top, ink)
            == view.draw_pixels(pixels, left, top, ink),
{
    let once = view.draw_pixels(pixels, left, top, ink);
    let twice = once.draw_pixels(pixels, left, top, ink);
    lemma_draw_pixels_keeps_size(view, pixels, left, top, ink);
    lemma_draw_pixels_keeps_size(once, pixels, left, top, ink);
    lemma_draw_pixels_well_formed(view, pixels, left, top, ink);
    lemma_draw_pixels_well_formed(once, pixels, left, top, ink);
    assert forall|key: (int, int)| #[trigger] twice.pixels.dom().contains(key) implies
        twice.pixels[key] == once.pixels[key] by {
        lemma_draw_all_or_nothing(view, pixels, left, top, ink, key.0, key.1);
        lemma_draw_all_or_nothing(once, pixels, left, top, ink, key.0, key.1);
    }
    assert forall|key: (int, int)|
        twice.pixels.dom().contains(key) <==> once.pixels.dom().contains(key) by {
        assert(twice.pixels.dom().contains((key.0, key.1)) <==> twice.contains(key.0, key.1));
        assert(once.pixels.dom().contains((key.0, key.1)) <==> once.contains(key.0, key.1));
    }
    assert(twice.pixels =~= once.pixels);
}

/// Draws one glyph's mask onto the canvas. The mask's corner is moved right
/// by the margin and down by the margin and the band's offset; pixels that
/// fall outside the canvas, on any side, are dropped.
pub fn draw_mask(canvas: &mut Canvas, mask: &GlyphMask, margin: u32, band: u32, ink: Color)
    ensures
        final(canvas)@ == old(canvas)@.draw_mask(*mask, margin as int, margin + band, ink),
{
    let left: i128 = mask.min_x as i128 + margin as i128;
    let top: i128 = mask.min_y as i128 + margin as i128 + band as i128;
    let ghost before = canvas@;
    let count = mask.pixels.len();
    let mut i: usize = 0;
    while i < count
        invariant
            count == mask.pixels@.len(),
            i <= count,
            left == mask.origin_x() + margin,
            top == mask.origin_y() + margin + band,
            canvas@ == before.draw_pixels(mask.pixels@.take(i as int), left as int, top as int, ink),
        decreases count - i,
    {
        let p = mask.pixels[i];
        let x: i128 = left + p.x as i128;
        let y: i128 = top + p.y as i128;
        if 0 <= x && x <= 0xffff_ffff && 0 <= y && y <= 0xffff_ffff {
            canvas.blend_pixel(x as u64, y as u64, ink, p.coverage);
        }
        proof {
            let upto = mask.pixels@.take(i + 1);
            assert(upto.drop_last() == mask.pixels@.take(i as int));
            assert(upto.last() == p);
        }
        i += 1;
    }
    proof {
        assert(mask.pixels@.take(count as int) == mask.pixels@);
    }
}

/// Draws a run of glyphs onto the canvas, first to last. A glyph without an
/// outline is skipped.
pub fn rasterize(
    canvas: &mut Canvas,
    outlines: &Vec<Option<GlyphMask>>,
    margin: u32,
    band: u32,
    ink: Color,
)
    ensures
        final(canvas)@ == old(canvas)@.rasterize(outlines@, margin as int, margin + band, ink),
{
    let ghost before = canvas@;
    let count = outlines.len();
    let mut i: usize = 0;
    while i < count
        invariant
            count == outlines@.len(),
            i <= count,
            canvas@ == before.rasterize(outlines@.take(i as int), margin as int, margin + band, ink),
        decreases count - i,
    {
        match &outlines[i] {
            Some(mask) => {
                draw_mask(canvas, mask, margin, band, ink);
            },
            None => {},
        }
        proof {
            let upto = outlines@.take(i + 1);
            assert(upto.drop_last() == outlines@.take(i as int));
            assert(upto.last() == outlines@[i as int]);
        }
        i += 1;
    }
    proof {
        assert(outlines@.take(count as int) == outlines@);
    }
}

} // verus!

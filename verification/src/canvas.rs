//! The pixel canvas: an RGBA image buffer, seen as a width, a height and a
//! map from pixel coordinates to colours.

use vstd::prelude::*;
use crate::color::{blend, blend_spec, clamp_coverage, clamp_coverage_spec, Color};

verus! {

/// The canvas that glyphs are drawn into. It owns an `image::RgbaImage`;
/// nothing is known of a canvas but what the functions of this module state.
#[verifier::external_body]
pub struct Canvas {
    image: image::RgbaImage,
}

/// The width of the image that a canvas holds, in pixels.
pub uninterp spec fn canvas_width(canvas: Canvas) -> u32;

/// The height of the image that a canvas holds, in pixels.
pub uninterp spec fn canvas_height(canvas: Canvas) -> u32;

/// The colours of the image that a canvas holds: the pixel in column `x` of
/// row `y` is found under the key `(x, y)`.
pub uninterp spec fn canvas_pixels(canvas: Canvas) -> Map<(int, int), Color>;

/// What a canvas is to the contracts of this crate: its size, and the colour
/// of each of its pixels under the key `(x, y)`.
#[verifier::ext_equal]
pub struct CanvasView {
    pub width: nat,
    pub height: nat,
    pub pixels: Map<(int, int), Color>,
}

impl CanvasView {
    /// Whether `(x, y)` is a pixel of the canvas.
    pub open spec fn contains(self, x: int, y: int) -> bool {
        0 <= x < self.width && 0 <= y < self.height
    }

    /// Whether the map of pixels holds exactly the pixels of the canvas.
    pub open spec fn well_formed(self) -> bool {
        forall|x: int, y: int| #[trigger] self.pixels.dom().contains((x, y)) <==> self.contains(x, y)
    }

    /// The canvas of the given size whose pixels all have one colour.
    pub open spec fn filled(width: nat, height: nat, color: Color) -> CanvasView {
        CanvasView {
            width,
            height,
            pixels: Map::new(
                |p: (int, int)| 0 <= p.0 < width && 0 <= p.1 < height,
                |p: (int, int)| color,
            ),
        }
    }

    /// The canvas after the ink was blended over the pixel at `(x, y)` with
    /// the given raw coverage. A position outside the canvas changes nothing.
    pub open spec fn blend_at(self, x: int, y: int, ink: Color, coverage: int) -> CanvasView {
        if self.contains(x, y) {
            CanvasView {
                width: self.width,
                height: self.height,
                pixels: self.pixels.insert(
                    (x, y),
                    blend_spec(ink, self.pixels[(x, y)], clamp_coverage_spec(coverage)),
                ),
            }
        } else {
            self
        }
    }
}

impl View for Canvas {
    type V = CanvasView;

    open spec fn view(&self) -> CanvasView {
        CanvasView {
            width: canvas_width(*self) as nat,
            height: canvas_height(*self) as nat,
            pixels: Map::new(
                |p: (int, int)|
                    0 <= p.0 < canvas_width(*self) && 0 <= p.1 < canvas_height(*self),
                |p: (int, int)| canvas_pixels(*self)[p],
            ),
        }
    }
}

/// The view of every canvas is well formed.
pub proof fn lemma_canvas_well_formed(canvas: Canvas)
    ensures
        canvas@.well_formed(),
{
}

/// Blending onto a well-formed canvas gives a well-formed canvas.
pub proof fn lemma_blend_at_well_formed(
    view: CanvasView,
    x: int,
    y: int,
    ink: Color,
    coverage: int,
)
    requires
        view.well_formed(),
    ensures
        view.blend_at(x, y, ink, coverage).well_formed(),
{
    let after = view.blend_at(x, y, ink, coverage);
    assert forall|u: int, v: int| #[trigger]
        after.pixels.dom().contains((u, v)) <==> after.contains(u, v) by {
        assert(view.pixels.dom().contains((u, v)) <==> view.contains(u, v));
    }
}

/// `image::ImageBuffer::from_pixel`: an image of the given size in which
/// every pixel has the given colour. The call panics where the buffer would
/// be larger than a vector can be, which the precondition leaves out.
#[verifier::external_body]
fn image_from_pixel(width: u32, height: u32, color: Color) -> (canvas: Canvas)
    requires
        4 * width * height <= isize::MAX,
    ensures
        canvas_width(canvas) == width,
        canvas_height(canvas) == height,
        canvas_pixels(canvas) == CanvasView::filled(width as nat, height as nat, color).pixels,
{
    let pixel = image::Rgba([color.r, color.g, color.b, color.a]);
    Canvas { image: image::RgbaImage::from_pixel(width, height, pixel) }
}

/// `image::ImageBuffer::width`: the image's width.
#[verifier::external_body]
fn image_width(canvas: &Canvas) -> (width: u32)
    ensures
        width == canvas_width(*canvas),
{
    canvas.image.width()
}

/// `image::ImageBuffer::height`: the image's height.
#[verifier::external_body]
fn image_height(canvas: &Canvas) -> (height: u32)
    ensures
        height == canvas_height(*canvas),
{
    canvas.image.height()
}

/// `image::GenericImageView::in_bounds`: whether `x` is below the image's
/// width and `y` below its height.
#[verifier::external_body]
fn image_in_bounds(canvas: &Canvas, x: u32, y: u32) -> (inside: bool)
    ensures
        inside == (x < canvas_width(*canvas) && y < canvas_height(*canvas)),
{
    image::GenericImageView::in_bounds(&canvas.image, x, y)
}

/// `image::ImageBuffer::get_pixel`: the colour of the pixel at `(x, y)`. The
/// call panics outside the image, which the precondition leaves out.
#[verifier::external_body]
fn image_get_pixel(canvas: &Canvas, x: u32, y: u32) -> (color: Color)
    requires
        x < canvas_width(*canvas),
        y < canvas_height(*canvas),
    ensures
        color == canvas_pixels(*canvas)[(x as int, y as int)],
{
    let pixel = canvas.image.get_pixel(x, y);
    Color { r: pixel.0[0], g: pixel.0[1], b: pixel.0[2], a: pixel.0[3] }
}

/// `imageproc::drawing::Canvas::draw_pixel`: sets the pixel at `(x, y)` to
/// the given colour and leaves the size and every other pixel as they were.
/// The call panics outside the image, which the precondition leaves out.
#[verifier::external_body]
fn image_draw_pixel(canvas: &mut Canvas, x: u32, y: u32, color: Color)
    requires
        x < canvas_width(*old(canvas)),
        y < canvas_height(*old(canvas)),
    ensures
        canvas_width(*final(canvas)) == canvas_width(*old(canvas)),
        canvas_height(*final(canvas)) == canvas_height(*old(canvas)),
        canvas_pixels(*final(canvas)) == canvas_pixels(*old(canvas)).insert(
            (x as int, y as int),
            color,
        ),
{
    let pixel = image::Rgba([color.r, color.g, color.b, color.a]);
    imageproc::drawing::Canvas::draw_pixel(&mut canvas.image, x, y, pixel)
}

impl Canvas {
    /// A canvas of the given size, filled with one colour; `None` where the
    /// pixel buffer of such a canvas could not be addressed.
    pub fn filled(width: u32, height: u32, color: Color) -> (made: Option<Canvas>)
        ensures
            made is Some <==> 4 * width * height <= isize::MAX,
            made matches Some(canvas) ==> canvas@ == CanvasView::filled(
                width as nat,
                height as nat,
                color,
            ),
    {
        assert(width * height <= 0xffff_ffff * 0xffff_ffff) by (nonlinear_arith)
            requires
                0 <= width <= 0xffff_ffff,
                0 <= height <= 0xffff_ffff,
        ;
        assert(4 * width * height == 4 * (width * height)) by (nonlinear_arith);
        let area: u64 = (width as u64) * (height as u64);
        let bytes: u128 = 4 * (area as u128);
        if bytes <= isize::MAX as u128 {
            Some(image_from_pixel(width, height, color))
        } else {
            None
        }
    }

    /// The width of the canvas in pixels.
    pub fn width(&self) -> (width: u32)
        ensures
            width == self@.width,
    {
        image_width(self)
    }

    /// The height of the canvas in pixels.
    pub fn height(&self) -> (height: u32)
        ensures
            height == self@.height,
    {
        image_height(self)
    }

    /// The colour of the pixel at `(x, y)`, or `None` outside the canvas.
    pub fn pixel(&self, x: u32, y: u32) -> (found: Option<Color>)
        ensures
            found == if self@.contains(x as int, y as int) {
                Some(self@.pixels[(x as int, y as int)])
            } else {
                None
            },
    {
        if image_in_bounds(self, x, y) {
            Some(image_get_pixel(self, x, y))
        } else {
            None
        }
    }

    /// Blends the ink over the pixel at `(x, y)`, weighted by the coverage
    /// once it is clamped. A position outside the canvas is dropped.
    pub fn blend_pixel(&mut self, x: u64, y: u64, ink: Color, coverage: i32)
        ensures
            final(self)@ == old(self)@.blend_at(x as int, y as int, ink, coverage as int),
    {
        if x <= 0xffff_ffff && y <= 0xffff_ffff {
            let column: u32 = x as u32;
            let row: u32 = y as u32;
            if image_in_bounds(self, column, row) {
                let under = image_get_pixel(self, column, row);
                let mixed = blend(ink, under, clamp_coverage(coverage));
                image_draw_pixel(self, column, row, mixed);
            }
        }
    }
}

} // verus!

use shape_compare::canvas::Canvas;
use shape_compare::color::Color;

const WHITE: Color = Color { r: 255, g: 255, b: 255, a: 255 };
const BLACK: Color = Color { r: 0, g: 0, b: 0, a: 255 };

#[test]
fn filled_canvas_has_the_size_and_colour_asked_for() {
    let ivory = Color { r: 255, g: 255, b: 242, a: 255 };
    let canvas = Canvas::filled(5, 3, ivory).unwrap();
    assert_eq!(canvas.width(), 5);
    assert_eq!(canvas.height(), 3);
    for y in 0..3 {
        for x in 0..5 {
            assert_eq!(canvas.pixel(x, y), Some(ivory));
        }
    }
}

#[test]
fn pixel_outside_the_canvas_is_none() {
    let canvas = Canvas::filled(5, 3, WHITE).unwrap();
    assert_eq!(canvas.pixel(5, 0), None);
    assert_eq!(canvas.pixel(0, 3), None);
    assert_eq!(canvas.pixel(4, 2), Some(WHITE));
    assert_eq!(canvas.pixel(u32::MAX, u32::MAX), None);
}

#[test]
fn empty_canvas_has_no_pixels() {
    let canvas = Canvas::filled(0, 7, WHITE).unwrap();
    assert_eq!(canvas.width(), 0);
    assert_eq!(canvas.height(), 7);
    assert_eq!(canvas.pixel(0, 0), None);
    let canvas = Canvas::filled(7, 0, WHITE).unwrap();
    assert_eq!(canvas.width(), 7);
    assert_eq!(canvas.height(), 0);
    assert_eq!(canvas.pixel(0, 0), None);
}

#[test]
fn canvas_too_large_to_address_is_refused() {
    assert!(Canvas::filled(u32::MAX, u32::MAX, WHITE).is_none());
}

#[test]
fn blend_pixel_changes_one_pixel_only() {
    let mut canvas = Canvas::filled(4, 4, WHITE).unwrap();
    canvas.blend_pixel(2, 1, BLACK, 255);
    for y in 0..4 {
        for x in 0..4 {
            let expected = if (x, y) == (2, 1) { BLACK } else { WHITE };
            assert_eq!(canvas.pixel(x, y), Some(expected));
        }
    }
    assert_eq!(canvas.width(), 4);
    assert_eq!(canvas.height(), 4);
}

#[test]
fn blend_pixel_weights_by_coverage() {
    let mut canvas = Canvas::filled(2, 2, WHITE).unwrap();
    canvas.blend_pixel(0, 0, BLACK, 128);
    // (0 * 128 + 255 * 127) / 255 = 127
    assert_eq!(canvas.pixel(0, 0), Some(Color { r: 127, g: 127, b: 127, a: 255 }));
    canvas.blend_pixel(0, 0, BLACK, 128);
    // (0 * 128 + 127 * 127) / 255 = 16129 / 255 = 63
    assert_eq!(canvas.pixel(0, 0), Some(Color { r: 63, g: 63, b: 63, a: 255 }));
}

#[test]
fn blend_pixel_clamps_coverage() {
    let mut canvas = Canvas::filled(2, 1, WHITE).unwrap();
    canvas.blend_pixel(0, 0, BLACK, 300);
    canvas.blend_pixel(1, 0, BLACK, -5);
    assert_eq!(canvas.pixel(0, 0), Some(BLACK));
    assert_eq!(canvas.pixel(1, 0), Some(WHITE));
}

#[test]
fn blend_pixel_outside_the_canvas_is_dropped() {
    let mut canvas = Canvas::filled(3, 2, WHITE).unwrap();
    canvas.blend_pixel(3, 0, BLACK, 255);
    canvas.blend_pixel(0, 2, BLACK, 255);
    canvas.blend_pixel(u32::MAX as u64 + 1, 0, BLACK, 255);
    canvas.blend_pixel(0, 1 << 32, BLACK, 255);
    canvas.blend_pixel(u64::MAX, u64::MAX, BLACK, 255);
    for y in 0..2 {
        for x in 0..3 {
            assert_eq!(canvas.pixel(x, y), Some(WHITE));
        }
    }
}

#[test]
fn canvas_matches_an_image_buffer_drawn_the_same_way() {
    let mut canvas = Canvas::filled(6, 5, WHITE).unwrap();
    let mut image = image::RgbaImage::from_pixel(6, 5, image::Rgba([255, 255, 255, 255]));
    let red = Color { r: 200, g: 10, b: 20, a: 255 };
    for (x, y) in [(0u32, 0u32), (5, 4), (3, 2), (3, 2), (1, 4)] {
        canvas.blend_pixel(x as u64, y as u64, red, 255);
        imageproc::drawing::Canvas::draw_pixel(&mut image, x, y, image::Rgba([200, 10, 20, 255]));
    }
    assert_eq!(canvas.width(), image.width());
    assert_eq!(canvas.height(), image.height());
    for y in 0..5 {
        for x in 0..6 {
            let ours = canvas.pixel(x, y).unwrap();
            assert_eq!([ours.r, ours.g, ours.b, ours.a], image.get_pixel(x, y).0);
        }
    }
}

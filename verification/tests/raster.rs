use shape_compare::canvas::Canvas;
use shape_compare::color::Color;
use shape_compare::raster::{draw_mask, rasterize, GlyphMask, MaskPixel};

const WHITE: Color = Color { r: 255, g: 255, b: 255, a: 255 };
const BLACK: Color = Color { r: 0, g: 0, b: 0, a: 255 };

fn block(min_x: i64, min_y: i64, width: u32, height: u32, coverage: i32) -> GlyphMask {
    let mut pixels = Vec::new();
    for y in 0..height {
        for x in 0..width {
            pixels.push(MaskPixel { x, y, coverage });
        }
    }
    GlyphMask { min_x, min_y, pixels }
}

fn snapshot(canvas: &Canvas) -> Vec<Color> {
    let mut all = Vec::new();
    for y in 0..canvas.height() {
        for x in 0..canvas.width() {
            all.push(canvas.pixel(x, y).unwrap());
        }
    }
    all
}

#[test]
fn mask_is_moved_by_its_corner_the_margin_and_the_band() {
    let mut canvas = Canvas::filled(10, 12, WHITE).unwrap();
    let mask = block(2, 3, 2, 1, 255);
    draw_mask(&mut canvas, &mask, 1, 5, BLACK);
    for y in 0..12 {
        for x in 0..10 {
            let inked = y == 3 + 1 + 5 && (x == 2 + 1 || x == 2 + 1 + 1);
            assert_eq!(canvas.pixel(x, y), Some(if inked { BLACK } else { WHITE }));
        }
    }
}

#[test]
fn mask_that_starts_left_of_the_line_stands_at_its_true_place() {
    let mut canvas = Canvas::filled(2, 2, WHITE).unwrap();
    // Columns -1 and 0 of row 0: only column 0 is on the canvas.
    let mask = block(-1, 0, 2, 1, 255);
    draw_mask(&mut canvas, &mask, 0, 0, BLACK);
    assert_eq!(snapshot(&canvas), vec![BLACK, WHITE, WHITE, WHITE]);
}

#[test]
fn negative_corner_is_moved_by_the_margin_like_any_other() {
    let mut canvas = Canvas::filled(12, 6, WHITE).unwrap();
    // The box starts 5 columns left of the line and 2 rows above it.
    let mask = block(-5, -2, 2, 1, 255);
    draw_mask(&mut canvas, &mask, 8, 0, BLACK);
    for y in 0..6 {
        for x in 0..12 {
            let inked = y == 6 && (x == 3 || x == 4);
            assert_eq!(canvas.pixel(x, y), Some(if inked { BLACK } else { WHITE }));
        }
    }
    let mut canvas = Canvas::filled(12, 9, WHITE).unwrap();
    draw_mask(&mut canvas, &mask, 8, 0, BLACK);
    for y in 0..9 {
        for x in 0..12 {
            let inked = y == 6 && (x == 3 || x == 4);
            assert_eq!(canvas.pixel(x, y), Some(if inked { BLACK } else { WHITE }));
        }
    }
}

#[test]
fn mask_above_and_left_of_the_canvas_is_clipped() {
    let mut canvas = Canvas::filled(4, 3, WHITE).unwrap();
    // Columns -2..2 and rows -1..2: columns 0, 1 and rows 0, 1 are on the canvas.
    let mask = block(-3, -2, 4, 3, 255);
    draw_mask(&mut canvas, &mask, 1, 0, BLACK);
    for y in 0..3 {
        for x in 0..4 {
            let inked = x < 2 && y < 2;
            assert_eq!(canvas.pixel(x, y), Some(if inked { BLACK } else { WHITE }));
        }
    }
}

#[test]
fn clipped_drawing_agrees_with_drawing_on_a_wider_canvas() {
    // A mask that hangs over every edge of a 4 by 3 canvas, with a coverage
    // that differs from pixel to pixel.
    let mut mask = block(-2, -2, 8, 7, 0);
    for (n, p) in mask.pixels.iter_mut().enumerate() {
        p.coverage = (n as i32 * 37) % 300 - 20;
    }
    let mut clipped = Canvas::filled(4, 3, WHITE).unwrap();
    draw_mask(&mut clipped, &mask, 0, 0, BLACK);
    // The same drawing with ten more columns and rows on every side.
    let shifted = GlyphMask { min_x: mask.min_x + 10, min_y: mask.min_y + 10, pixels: mask.pixels };
    let mut wide = Canvas::filled(24, 23, WHITE).unwrap();
    draw_mask(&mut wide, &shifted, 0, 0, BLACK);
    let mut inked = 0;
    for y in 0..3 {
        for x in 0..4 {
            assert_eq!(clipped.pixel(x, y), wide.pixel(x + 10, y + 10));
            if clipped.pixel(x, y) != Some(WHITE) {
                inked += 1;
            }
        }
    }
    assert!(inked > 0);
}

#[test]
fn mask_across_the_edge_is_clipped() {
    let mut canvas = Canvas::filled(5, 4, WHITE).unwrap();
    // Columns 3..7 and rows 2..6: only columns 3, 4 and rows 2, 3 are on the canvas.
    let mask = block(3, 2, 4, 4, 255);
    draw_mask(&mut canvas, &mask, 0, 0, BLACK);
    for y in 0..4 {
        for x in 0..5 {
            let inked = x >= 3 && y >= 2;
            assert_eq!(canvas.pixel(x, y), Some(if inked { BLACK } else { WHITE }));
        }
    }
    assert_eq!(canvas.width(), 5);
    assert_eq!(canvas.height(), 4);
}

#[test]
fn clipped_pixels_do_not_change_the_pixels_that_are_drawn() {
    let mut whole = Canvas::filled(5, 4, WHITE).unwrap();
    let mut part = Canvas::filled(5, 4, WHITE).unwrap();
    let mask = block(3, 2, 4, 4, 77);
    let visible = GlyphMask {
        min_x: 3,
        min_y: 2,
        pixels: mask.pixels.iter().copied().filter(|p| p.x < 2 && p.y < 2).collect(),
    };
    assert_eq!(visible.pixels.len(), 4);
    draw_mask(&mut whole, &mask, 0, 0, BLACK);
    draw_mask(&mut part, &visible, 0, 0, BLACK);
    assert_eq!(snapshot(&whole), snapshot(&part));
}

#[test]
fn mask_far_outside_the_canvas_is_dropped() {
    let mut canvas = Canvas::filled(3, 3, WHITE).unwrap();
    let mask = GlyphMask {
        min_x: i64::MAX,
        min_y: i64::MAX,
        pixels: vec![MaskPixel { x: u32::MAX, y: u32::MAX, coverage: 255 }],
    };
    draw_mask(&mut canvas, &mask, u32::MAX, u32::MAX, BLACK);
    assert_eq!(snapshot(&canvas), vec![WHITE; 9]);
    let mask = GlyphMask {
        min_x: i64::MIN,
        min_y: i64::MIN,
        pixels: vec![MaskPixel { x: 0, y: 0, coverage: 255 }],
    };
    draw_mask(&mut canvas, &mask, 0, 0, BLACK);
    assert_eq!(snapshot(&canvas), vec![WHITE; 9]);
}

#[test]
fn later_glyph_blends_over_earlier_one() {
    let mut canvas = Canvas::filled(3, 1, WHITE).unwrap();
    let run = vec![Some(block(0, 0, 2, 1, 128)), Some(block(1, 0, 2, 1, 128))];
    rasterize(&mut canvas, &run, 0, 0, BLACK);
    // Once: (255 * 127) / 255 = 127; twice: (127 * 127) / 255 = 63.
    let once = Color { r: 127, g: 127, b: 127, a: 255 };
    let twice = Color { r: 63, g: 63, b: 63, a: 255 };
    assert_eq!(snapshot(&canvas), vec![once, twice, once]);
}

#[test]
fn last_drawn_wins_over_higher_coverage() {
    let mut canvas = Canvas::filled(1, 1, WHITE).unwrap();
    let run = vec![Some(block(0, 0, 1, 1, 255)), Some(block(0, 0, 1, 1, 0))];
    rasterize(&mut canvas, &run, 0, 0, BLACK);
    assert_eq!(canvas.pixel(0, 0), Some(BLACK));
    let mut canvas = Canvas::filled(1, 1, BLACK).unwrap();
    let run = vec![Some(block(0, 0, 1, 1, 255)), Some(block(0, 0, 1, 1, 128))];
    rasterize(&mut canvas, &run, 0, 0, WHITE);
    assert_eq!(canvas.pixel(0, 0), Some(WHITE));
}

#[test]
fn glyphs_without_outline_leave_the_canvas_as_it_was() {
    let ivory = Color { r: 255, g: 255, b: 242, a: 255 };
    let mut canvas = Canvas::filled(7, 5, ivory).unwrap();
    let run = vec![None, Some(GlyphMask { min_x: 1, min_y: 1, pixels: Vec::new() }), None];
    rasterize(&mut canvas, &run, 1, 2, BLACK);
    assert_eq!(snapshot(&canvas), vec![ivory; 35]);
    assert_eq!(canvas.width(), 7);
    assert_eq!(canvas.height(), 5);
}

#[test]
fn empty_run_leaves_the_canvas_as_it_was() {
    let mut canvas = Canvas::filled(2, 2, WHITE).unwrap();
    rasterize(&mut canvas, &Vec::new(), 0, 0, BLACK);
    assert_eq!(snapshot(&canvas), vec![WHITE; 4]);
}

#[test]
fn outline_is_skipped_not_an_end() {
    let mut canvas = Canvas::filled(3, 1, WHITE).unwrap();
    let run = vec![Some(block(0, 0, 1, 1, 255)), None, Some(block(2, 0, 1, 1, 255))];
    rasterize(&mut canvas, &run, 0, 0, BLACK);
    assert_eq!(snapshot(&canvas), vec![BLACK, WHITE, BLACK]);
}

#[test]
fn drawing_twice_changes_nothing_where_coverage_is_all_or_nothing() {
    let mut mask = block(1, 1, 3, 2, 255);
    mask.pixels[1].coverage = 0;
    mask.pixels[4].coverage = -20;
    mask.pixels[5].coverage = 900;
    let mut once = Canvas::filled(6, 4, WHITE).unwrap();
    draw_mask(&mut once, &mask, 0, 0, BLACK);
    let mut twice = Canvas::filled(6, 4, WHITE).unwrap();
    draw_mask(&mut twice, &mask, 0, 0, BLACK);
    draw_mask(&mut twice, &mask, 0, 0, BLACK);
    assert_eq!(snapshot(&once), snapshot(&twice));
    assert_eq!(once.pixel(1, 1), Some(BLACK));
    assert_eq!(once.pixel(2, 1), Some(WHITE));
    assert_eq!(once.pixel(2, 2), Some(WHITE));
    assert_eq!(once.pixel(3, 2), Some(BLACK));
}

#[test]
fn drawing_twice_darkens_where_coverage_is_partial() {
    let mask = block(0, 0, 2, 2, 100);
    let mut canvas = Canvas::filled(2, 2, WHITE).unwrap();
    draw_mask(&mut canvas, &mask, 0, 0, BLACK);
    let once = snapshot(&canvas);
    draw_mask(&mut canvas, &mask, 0, 0, BLACK);
    let twice = snapshot(&canvas);
    // Once: (255 * 155) / 255 = 155; twice: (155 * 155) / 255 = 94.
    assert_eq!(once, vec![Color { r: 155, g: 155, b: 155, a: 255 }; 4]);
    assert_eq!(twice, vec![Color { r: 94, g: 94, b: 94, a: 255 }; 4]);
}

#[test]
fn same_run_in_another_band_gives_the_same_picture_lower_down() {
    let run = vec![
        Some(block(0, 1, 3, 2, 200)),
        None,
        Some(block(2, 0, 2, 3, 90)),
        Some(block(4, 2, 1, 1, 255)),
    ];
    let mut upper = Canvas::filled(8, 12, WHITE).unwrap();
    let mut lower = Canvas::filled(8, 12, WHITE).unwrap();
    rasterize(&mut upper, &run, 1, 0, BLACK);
    rasterize(&mut lower, &run, 1, 6, BLACK);
    for y in 0..6 {
        for x in 0..8 {
            assert_eq!(upper.pixel(x, y), lower.pixel(x, y + 6));
        }
    }
    assert_ne!(snapshot(&upper), vec![WHITE; 96]);
}

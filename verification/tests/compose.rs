use image::{Pixel, Rgba};
use imagekit::canvas::Canvas;
use imagekit::color::HexColor;
use imagekit::compose::{add_watermark, composite};
use imagekit::coverage::Coverage;
use imagekit::metrics::{CoverageSample, PixelBox, PlacedGlyph};
use imagekit::position::WatermarkPosition;

fn sample(x: u32, y: u32, v: f32) -> CoverageSample {
    CoverageSample { x, y, coverage: Coverage::from_bits(v.to_bits()) }
}

/// A glyph of `w` by `h` pixels at `(min_x, min_y)`, all of coverage `v`.
fn block(min_x: i32, min_y: i32, w: u32, h: u32, v: f32) -> PlacedGlyph {
    let mut samples = Vec::new();
    for y in 0..h {
        for x in 0..w {
            samples.push(sample(x, y, v));
        }
    }
    PlacedGlyph {
        bounds: Some(PixelBox { min_x, min_y, max_x: min_x + w as i32, max_y: min_y + h as i32 }),
        samples,
    }
}

fn blend_of(under: [u8; 4], over: [u8; 4]) -> [u8; 4] {
    let mut p = Rgba(under);
    p.blend(&Rgba(over));
    p.0
}

#[test]
fn canvas_construction() {
    let c = Canvas::filled(3, 2, [1, 2, 3, 4]).unwrap();
    assert_eq!(c.width(), 3);
    assert_eq!(c.height(), 2);
    assert_eq!(c.as_bytes().len(), 24);
    assert_eq!(c.get_pixel(2, 1), [1, 2, 3, 4]);
    assert!(Canvas::from_raw(3, 2, vec![0; 24]).is_some());
    assert!(Canvas::from_raw(3, 2, vec![0; 23]).is_none());
    assert!(Canvas::from_raw(3, 2, vec![0; 25]).is_none());
    assert!(Canvas::from_raw(0, 5, Vec::new()).is_some());
    assert!(Canvas::from_raw(u32::MAX, u32::MAX, vec![0; 4]).is_none());
    let empty = Canvas::filled(0, 9, [9, 9, 9, 9]).unwrap();
    assert_eq!(empty.into_raw(), Vec::<u8>::new());
}

#[test]
fn canvas_put_and_get() {
    let mut c = Canvas::filled(4, 3, [0, 0, 0, 255]).unwrap();
    c.put_pixel(1, 2, [10, 20, 30, 40]);
    assert_eq!(c.get_pixel(1, 2), [10, 20, 30, 40]);
    assert_eq!(c.get_pixel(0, 2), [0, 0, 0, 255]);
    assert_eq!(c.get_pixel(2, 2), [0, 0, 0, 255]);
    assert_eq!(c.get_pixel(1, 1), [0, 0, 0, 255]);
    let bytes = c.into_raw();
    assert_eq!(&bytes[36..40], &[10, 20, 30, 40]);
    assert_eq!(bytes.iter().filter(|b| **b == 255).count(), 11);
}

#[test]
fn empty_text_leaves_image_identical() {
    let mut c = Canvas::filled(20, 10, [7, 8, 9, 200]).unwrap();
    let before = c.as_bytes().clone();
    add_watermark(&mut c, &Vec::new(), WatermarkPosition::Center, HexColor([255, 255, 255, 128]));
    assert_eq!(c.as_bytes(), &before);
}

#[test]
fn blank_glyphs_leave_image_identical() {
    let mut c = Canvas::filled(20, 10, [7, 8, 9, 200]).unwrap();
    let before = c.as_bytes().clone();
    let glyphs = vec![
        PlacedGlyph { bounds: None, samples: vec![sample(0, 0, 1.0)] },
        block(0, 0, 3, 3, 0.0),
    ];
    add_watermark(&mut c, &glyphs, WatermarkPosition::Nw, HexColor([255, 255, 255, 255]));
    assert_eq!(c.as_bytes(), &before);
}

#[test]
fn transparent_color_leaves_image_identical() {
    let mut c = Canvas::filled(20, 10, [7, 8, 9, 200]).unwrap();
    let before = c.as_bytes().clone();
    add_watermark(&mut c, &vec![block(0, 0, 4, 4, 1.0)], WatermarkPosition::Center, HexColor([255, 0, 0, 0]));
    assert_eq!(c.as_bytes(), &before);
}

#[test]
fn opaque_ink_replaces_pixels_at_the_anchor() {
    let mut c = Canvas::filled(40, 30, [0, 0, 0, 255]).unwrap();
    // the glyph box starts at column 3 of the line: that column is taken
    // off again, so the ink starts right at the anchor
    let glyphs = vec![block(3, 5, 4, 2, 1.0)];
    add_watermark(&mut c, &glyphs, WatermarkPosition::Se, HexColor([9, 8, 7, 255]));
    // text 4 x 2, padding 10: origin (26, 18); rows start at 18 + min_y
    for y in 0..30u32 {
        for x in 0..40u32 {
            let inside = (26..30).contains(&x) && (23..25).contains(&y);
            let expected = if inside { [9, 8, 7, 255] } else { [0, 0, 0, 255] };
            assert_eq!(c.get_pixel(x, y), expected, "({}, {})", x, y);
        }
    }
}

#[test]
fn partial_coverage_blends_as_alpha_over() {
    let mut c = Canvas::filled(30, 30, [10, 20, 30, 255]).unwrap();
    let glyphs = vec![block(0, 0, 1, 1, 0.5)];
    composite(&mut c, &glyphs, 4, 6, 0, HexColor([255, 255, 255, 128]));
    // opacity 128 * 0.5 = 64
    let expected = blend_of([10, 20, 30, 255], [255, 255, 255, 64]);
    assert_ne!(expected, [10, 20, 30, 255]);
    assert_eq!(c.get_pixel(4, 6), expected);
    assert_eq!(c.get_pixel(5, 6), [10, 20, 30, 255]);
    assert_eq!(c.get_pixel(4, 7), [10, 20, 30, 255]);
}

#[test]
fn blend_onto_transparent_background() {
    let mut c = Canvas::filled(8, 8, [0, 0, 0, 0]).unwrap();
    composite(&mut c, &vec![block(0, 0, 1, 1, 1.0)], 2, 2, 0, HexColor([200, 100, 50, 128]));
    assert_eq!(c.get_pixel(2, 2), blend_of([0, 0, 0, 0], [200, 100, 50, 128]));
    assert_eq!(c.get_pixel(2, 2), [200, 100, 50, 128]);
}

#[test]
fn pixels_off_the_canvas_are_passed_over() {
    let mut c = Canvas::filled(6, 4, [0, 0, 0, 255]).unwrap();
    // a block that hangs over every edge
    let glyphs = vec![block(-2, -2, 10, 8, 1.0)];
    composite(&mut c, &glyphs, 0, 0, 0, HexColor([1, 2, 3, 255]));
    for y in 0..4 {
        for x in 0..6 {
            assert_eq!(c.get_pixel(x, y), [1, 2, 3, 255]);
        }
    }
    // one wholly outside
    let mut c = Canvas::filled(6, 4, [0, 0, 0, 255]).unwrap();
    let before = c.as_bytes().clone();
    composite(&mut c, &vec![block(0, 0, 3, 3, 1.0)], 6, 0, 0, HexColor([1, 2, 3, 255]));
    composite(&mut c, &vec![block(0, 0, 3, 3, 1.0)], 0, 4, 0, HexColor([1, 2, 3, 255]));
    composite(&mut c, &vec![block(-5, 0, 3, 3, 1.0)], 0, 0, 0, HexColor([1, 2, 3, 255]));
    composite(&mut c, &vec![block(0, 0, 3, 3, 1.0)], 0, 0, 3, HexColor([1, 2, 3, 255]));
    composite(&mut c, &vec![block(i32::MAX - 3, i32::MIN, 3, 3, 1.0)], u32::MAX, u32::MAX, i32::MIN, HexColor([1, 2, 3, 255]));
    assert_eq!(c.as_bytes(), &before);
}

#[test]
fn offset_shifts_the_line_left() {
    let mut c = Canvas::filled(10, 3, [0, 0, 0, 255]).unwrap();
    composite(&mut c, &vec![block(5, 0, 1, 1, 1.0)], 4, 1, 5, HexColor([50, 60, 70, 255]));
    assert_eq!(c.get_pixel(4, 1), [50, 60, 70, 255]);
    let mut c = Canvas::filled(10, 3, [0, 0, 0, 255]).unwrap();
    composite(&mut c, &vec![block(-2, 0, 1, 1, 1.0)], 4, 1, -2, HexColor([50, 60, 70, 255]));
    assert_eq!(c.get_pixel(4, 1), [50, 60, 70, 255]);
}

#[test]
fn overlapping_glyphs_blend_in_order() {
    let mut c = Canvas::filled(5, 5, [0, 0, 0, 255]).unwrap();
    let glyphs = vec![block(0, 0, 2, 1, 0.5), block(1, 0, 2, 1, 1.0)];
    composite(&mut c, &glyphs, 0, 0, 0, HexColor([255, 255, 255, 200]));
    let once = blend_of([0, 0, 0, 255], [255, 255, 255, 100]);
    let twice = blend_of(once, [255, 255, 255, 200]);
    assert_eq!(c.get_pixel(0, 0), once);
    assert_eq!(c.get_pixel(1, 0), twice);
    assert_eq!(c.get_pixel(2, 0), blend_of([0, 0, 0, 255], [255, 255, 255, 200]));
    assert_eq!(c.get_pixel(3, 0), [0, 0, 0, 255]);
}

#[test]
fn last_drawn_wins_at_full_opacity() {
    let mut c = Canvas::filled(5, 5, [0, 0, 0, 255]).unwrap();
    let glyphs = vec![block(0, 0, 1, 1, 0.3), block(0, 0, 1, 1, 1.0)];
    composite(&mut c, &glyphs, 1, 1, 0, HexColor([11, 22, 33, 255]));
    assert_eq!(c.get_pixel(1, 1), [11, 22, 33, 255]);
}

#[test]
fn every_anchor_places_a_block() {
    let cases = [
        (WatermarkPosition::Nw, (10, 10)),
        (WatermarkPosition::North, (18, 10)),
        (WatermarkPosition::Ne, (26, 10)),
        (WatermarkPosition::West, (10, 13)),
        (WatermarkPosition::Center, (18, 13)),
        (WatermarkPosition::East, (26, 13)),
        (WatermarkPosition::Sw, (10, 16)),
        (WatermarkPosition::South, (18, 16)),
        (WatermarkPosition::Se, (26, 16)),
    ];
    for (position, (x0, y0)) in cases {
        let mut c = Canvas::filled(40, 30, [0, 0, 0, 255]).unwrap();
        add_watermark(&mut c, &vec![block(0, 0, 4, 4, 1.0)], position, HexColor([255, 255, 255, 255]));
        for y in 0..30u32 {
            for x in 0..40u32 {
                let inside = x >= x0 && x < x0 + 4 && y >= y0 && y < y0 + 4;
                let expected = if inside { [255, 255, 255, 255] } else { [0, 0, 0, 255] };
                assert_eq!(c.get_pixel(x, y), expected, "{:?} ({}, {})", position, x, y);
            }
        }
    }
}

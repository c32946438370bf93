use image::{DynamicImage, Rgba};
use imagekit::canvas::Canvas;
use imagekit::color::HexColor;
use imagekit::compose::add_watermark;
use imagekit::coverage::Coverage;
use imagekit::fit::fit_font_size;
use imagekit::fonts::{plan_layout, resolve_glyph, resolve_text, Kerning, REPLACEMENT};
use imagekit::metrics::{measure_text, CoverageSample, PixelBox, PlacedGlyph};
use imagekit::position::WatermarkPosition;
use rusttype::{point, Font, GlyphId, Scale};

/// A primary font and a fallback font: a proportional Latin face first, a
/// monospaced one with a wider repertoire second.
fn load_test_fonts() -> Vec<Font<'static>> {
    let primary = Font::try_from_vec(epaint_default_fonts::UBUNTU_LIGHT.to_vec()).unwrap();
    let fallback = Font::try_from_vec(epaint_default_fonts::HACK_REGULAR.to_vec()).unwrap();
    vec![primary, fallback]
}

/// Places the glyphs of `text` on one line at the given point size and
/// rasterises them.
fn lay_out(fonts: &[Font<'static>], text: &str, size: u32) -> Vec<PlacedGlyph> {
    let steps = plan_layout(fonts, text);
    let mut placed = Vec::new();
    if fonts.is_empty() {
        return placed;
    }
    let scale = Scale::uniform(size as f32);
    let ascent = fonts[0].v_metrics(scale).ascent;
    let mut caret = 0.0f32;
    for step in &steps {
        let glyph = fonts[step.choice.font].glyph(GlyphId(step.choice.glyph)).scaled(scale);
        if let Some(kerning) = step.kerning {
            caret += fonts[kerning.font].pair_kerning(scale, GlyphId(kerning.before), glyph.id());
        }
        let glyph = glyph.positioned(point(caret, ascent));
        caret += glyph.unpositioned().h_metrics().advance_width;
        let bounds = glyph.pixel_bounding_box().map(|bb| PixelBox {
            min_x: bb.min.x,
            min_y: bb.min.y,
            max_x: bb.max.x,
            max_y: bb.max.y,
        });
        let mut samples = Vec::new();
        glyph.draw(|x, y, v| samples.push(CoverageSample { x, y, coverage: Coverage::from_bits(v.to_bits()) }));
        placed.push(PlacedGlyph { bounds, samples });
    }
    placed
}

/// Lays the text out, shrinks it to the image, and draws it.
fn watermark(
    img: &mut DynamicImage,
    text: &str,
    fonts: &[Font<'static>],
    font_size: u32,
    position: WatermarkPosition,
    color: HexColor,
) -> u32 {
    let rgba = img.to_rgba8();
    let (width, height) = rgba.dimensions();
    let mut canvas = Canvas::from_raw(width, height, rgba.into_raw()).unwrap();
    let measured = measure_text(&lay_out(fonts, text, font_size));
    let size = fit_font_size(font_size, width, height, measured);
    let glyphs = lay_out(fonts, text, size);
    add_watermark(&mut canvas, &glyphs, position, color);
    *img = DynamicImage::ImageRgba8(image::RgbaImage::from_raw(width, height, canvas.into_raw()).unwrap());
    size
}

#[test]
fn test_add_watermark_logic() {
    let mut img = DynamicImage::ImageRgba8(image::RgbaImage::from_pixel(200, 200, Rgba([0, 0, 0, 255])));
    let original_img_bytes = img.as_bytes().to_vec();

    let fonts = load_test_fonts();

    let default_color = HexColor([255, 255, 255, 128]);
    watermark(&mut img, "Test", &fonts, 20, WatermarkPosition::Se, default_color);

    let watermarked_img_bytes = img.as_bytes().to_vec();
    assert_ne!(
        original_img_bytes, watermarked_img_bytes,
        "Image content should have changed after applying watermark"
    );
}

#[test]
fn test_watermark_autoscales_down_when_too_large() {
    let mut img = DynamicImage::ImageRgba8(image::RgbaImage::from_pixel(100, 50, Rgba([0, 0, 0, 255])));
    let original_img_bytes = img.as_bytes().to_vec();

    let fonts = load_test_fonts();

    let size = watermark(
        &mut img,
        "This text is definitely too long",
        &fonts,
        40,
        WatermarkPosition::Center,
        HexColor([255, 255, 255, 128]),
    );
    assert!(1 <= size && size < 40);

    let processed_img_bytes = img.as_bytes().to_vec();
    assert_ne!(original_img_bytes, processed_img_bytes, "Watermark should have been applied");

    let black = Rgba([0, 0, 0, 255]);
    let img = img.to_rgba8();
    assert_eq!(*img.get_pixel(0, 0), black);
    assert_eq!(*img.get_pixel(99, 0), black);
    assert_eq!(*img.get_pixel(0, 49), black);
    assert_eq!(*img.get_pixel(99, 49), black);
}

#[test]
fn test_cjk_watermark_support() {
    let mut img = DynamicImage::ImageRgba8(image::RgbaImage::from_pixel(300, 100, Rgba([255, 255, 255, 255])));
    let original_img_bytes = img.as_bytes().to_vec();

    let fonts = load_test_fonts();

    watermark(
        &mut img,
        "测试 Test 123 テスト",
        &fonts,
        30,
        WatermarkPosition::Center,
        HexColor([0, 0, 0, 128]),
    );

    let watermarked_img_bytes = img.as_bytes().to_vec();
    assert_ne!(
        original_img_bytes, watermarked_img_bytes,
        "CJK watermark should have been applied, changing the image content"
    );
}

#[test]
fn autoscaled_text_stays_within_canvas() {
    let fonts = load_test_fonts();
    let text = "This text is definitely too long";
    let measured = measure_text(&lay_out(&fonts, text, 40));
    assert!(measured.width > 80);
    let size = fit_font_size(40, 100, 50, measured);
    let after = measure_text(&lay_out(&fonts, text, size));
    assert!(after.width <= 100 && after.height <= 50);
}

#[test]
fn empty_string_leaves_image_byte_identical() {
    let mut img = DynamicImage::ImageRgba8(image::RgbaImage::from_pixel(64, 32, Rgba([1, 2, 3, 255])));
    let before = img.as_bytes().to_vec();
    let fonts = load_test_fonts();
    assert!(lay_out(&fonts, "", 20).is_empty());
    watermark(&mut img, "", &fonts, 20, WatermarkPosition::Se, HexColor([255, 255, 255, 128]));
    assert_eq!(img.as_bytes(), &before[..]);
}

#[test]
fn spaces_only_leave_image_byte_identical() {
    let mut img = DynamicImage::ImageRgba8(image::RgbaImage::from_pixel(64, 32, Rgba([1, 2, 3, 255])));
    let before = img.as_bytes().to_vec();
    let fonts = load_test_fonts();
    let glyphs = lay_out(&fonts, "   ", 20);
    assert_eq!(glyphs.len(), 3);
    let m = measure_text(&glyphs);
    assert_eq!((m.width, m.height, m.x_offset), (0, 0, 0));
    watermark(&mut img, "   ", &fonts, 20, WatermarkPosition::Se, HexColor([255, 255, 255, 128]));
    assert_eq!(img.as_bytes(), &before[..]);
}

#[test]
fn empty_font_set_lays_out_nothing() {
    let none: Vec<Font<'static>> = Vec::new();
    assert!(resolve_text(&none, "Test").is_empty());
    let mut img = DynamicImage::ImageRgba8(image::RgbaImage::from_pixel(64, 32, Rgba([1, 2, 3, 255])));
    let before = img.as_bytes().to_vec();
    watermark(&mut img, "Test", &none, 20, WatermarkPosition::Se, HexColor([255, 255, 255, 128]));
    assert_eq!(img.as_bytes(), &before[..]);
}

#[test]
fn nonzero_alpha_changes_a_pixel() {
    let fonts = load_test_fonts();
    for alpha in [1u8, 64, 128, 255] {
        let mut img = DynamicImage::ImageRgba8(image::RgbaImage::from_pixel(120, 60, Rgba([0, 0, 0, 255])));
        let before = img.as_bytes().to_vec();
        watermark(&mut img, "Wg", &fonts, 24, WatermarkPosition::Center, HexColor([255, 255, 255, alpha]));
        if alpha >= 64 {
            assert_ne!(img.as_bytes(), &before[..], "alpha {}", alpha);
        }
    }
}

#[test]
fn first_font_with_a_glyph_wins() {
    let fonts = load_test_fonts();
    let choice = resolve_glyph(&fonts, 'A');
    assert_eq!(choice.font, 0);
    assert_eq!(choice.glyph, fonts[0].glyph('A').id().0);
    assert_ne!(choice.glyph, 0);
    // with the order turned round the other font is the first to have it
    let turned = vec![fonts[1].clone(), fonts[0].clone()];
    let choice = resolve_glyph(&turned, 'A');
    assert_eq!(choice.font, 0);
    assert_eq!(choice.glyph, fonts[1].glyph('A').id().0);
}

#[test]
fn fallback_font_fills_a_gap() {
    let fonts = load_test_fonts();
    // find a character that only the second font has
    let only_second = (0x2190u32..0x2600)
        .filter_map(char::from_u32)
        .find(|c| fonts[0].glyph(*c).id().0 == 0 && fonts[1].glyph(*c).id().0 != 0)
        .unwrap();
    let choice = resolve_glyph(&fonts, only_second);
    assert_eq!(choice.font, 1);
    assert_eq!(choice.glyph, fonts[1].glyph(only_second).id().0);
}

#[test]
fn uncovered_character_gets_replacement_glyph_of_primary() {
    let fonts = load_test_fonts();
    let missing = '测';
    assert_eq!(fonts[0].glyph(missing).id().0, 0);
    assert_eq!(fonts[1].glyph(missing).id().0, 0);
    let choice = resolve_glyph(&fonts, missing);
    assert_eq!(choice.font, 0);
    assert_eq!(choice.glyph, fonts[0].glyph(REPLACEMENT).id().0);
    assert_eq!(REPLACEMENT, '\u{FFFD}');
}

#[test]
fn text_is_read_by_characters_not_bytes() {
    let fonts = load_test_fonts();
    let text = "测试 Test 123 テスト";
    let choices = resolve_text(&fonts, text);
    assert_eq!(choices.len(), text.chars().count());
    assert_eq!(choices.len(), 15);
    for (choice, ch) in choices.iter().zip(text.chars()) {
        assert_eq!(*choice, resolve_glyph(&fonts, ch));
    }
    assert_eq!(choices[3].font, 0);
    assert_eq!(choices[3].glyph, fonts[0].glyph('T').id().0);
}

#[test]
fn kerning_comes_from_the_font_of_the_earlier_glyph() {
    let fonts = load_test_fonts();
    // the arrow is rendered by the second font, the letters by the first
    let arrow = (0x2190u32..0x2600)
        .filter_map(char::from_u32)
        .find(|c| fonts[0].glyph(*c).id().0 == 0 && fonts[1].glyph(*c).id().0 != 0)
        .unwrap();
    let text: String = ['A', arrow, 'V'].iter().collect();
    let steps = plan_layout(&fonts, &text);
    assert_eq!(steps.len(), 3);
    assert_eq!(steps[0].choice, resolve_glyph(&fonts, 'A'));
    assert_eq!(steps[1].choice, resolve_glyph(&fonts, arrow));
    assert_eq!(steps[2].choice, resolve_glyph(&fonts, 'V'));
    assert_eq!(steps[0].kerning, None);
    assert_eq!(steps[1].kerning, Some(Kerning { font: 0, before: steps[0].choice.glyph }));
    assert_eq!(steps[2].kerning, Some(Kerning { font: 1, before: steps[1].choice.glyph }));
    assert!(plan_layout(&fonts, "").is_empty());
    let none: Vec<Font<'static>> = Vec::new();
    assert!(plan_layout(&none, "AV").is_empty());
}

#[test]
fn resize_then_watermark_then_encode_in_memory() {
    let source = DynamicImage::ImageRgba8(image::RgbaImage::from_pixel(200, 200, Rgba([0, 0, 0, 0])));
    let mut original_bytes = Vec::new();
    source.write_to(&mut std::io::Cursor::new(&mut original_bytes), image::ImageFormat::Png).unwrap();

    let plan = imagekit::resize::plan_resize(200, 200, Some(100), Some(80));
    assert!(plan.resample);
    let mut img = source.resize_exact(plan.width, plan.height, image::imageops::FilterType::Lanczos3);
    let fonts = load_test_fonts();
    watermark(&mut img, "Integration Test", &fonts, 16, WatermarkPosition::Center, HexColor([255, 255, 255, 128]));

    let target = imagekit::format::resolve_output(None, Some("png")).unwrap();
    assert_eq!(target.format, imagekit::format::OutputFormat::Png);
    let mut processed_bytes = Vec::new();
    img.write_to(&mut std::io::Cursor::new(&mut processed_bytes), image::ImageFormat::Png).unwrap();
    assert_ne!(original_bytes, processed_bytes, "Image content did not change after processing");

    let output_img = image::load_from_memory(&processed_bytes).unwrap();
    assert_eq!((output_img.width(), output_img.height()), (100, 80), "Image was not resized correctly");
}

//! Blending the glyphs of a watermark onto a canvas.
use vstd::prelude::*;
use crate::canvas::{pixel_of, with_pixel, Canvas};
use crate::color::HexColor;
use crate::fit::PADDING;
use crate::metrics::{measure_text, union_box, CoverageSample, PlacedGlyph, TextMetrics};
use crate::position::{axis_origin, resolve_anchor, WatermarkPosition};

verus! {

/// The pixel that alpha-over compositing of `over` onto `under` computes,
/// both given as red, green, blue and alpha, for an `over` that is neither
/// fully transparent nor fully opaque: per channel, the source weighted by
/// its alpha plus the destination weighted by what is left.
pub uninterp spec fn blended(under: Seq<u8>, over: Seq<u8>) -> Seq<u8>;

/// The pixel that results from laying `over` onto `under`. An `over` of
/// alpha 0 leaves `under` as it is, one of alpha 255 replaces it, and any
/// other is blended with it.
pub open spec fn laid_over(under: Seq<u8>, over: Seq<u8>) -> Seq<u8> {
    if over[3] == 0 {
        under
    } else if over[3] == 255 {
        over
    } else {
        blended(under, over)
    }
}

/// Lays one pixel over another with `Pixel::blend` of the image crate, on
/// `Rgba<u8>`. An `over` of alpha 0 leaves `under` as it is, and one of
/// alpha 255 replaces it. For any other alpha the result is the blend of
/// the two.
#[verifier::external_body]
fn blend(under: [u8; 4], over: [u8; 4]) -> (out: [u8; 4])
    ensures
        out@ == (if over[3] == 0 {
            under@
        } else if over[3] == 255 {
            over@
        } else {
            blended(under@, over@)
        }),
{
    let mut pixel = image::Rgba(under);
    image::Pixel::blend(&mut pixel, &image::Rgba(over));
    pixel.0
}

/// The watermark colour at the given opacity.
pub open spec fn ink(color: HexColor, opacity: int) -> Seq<u8> {
    seq![color.0[0], color.0[1], color.0[2], opacity as u8]
}

/// Whether a sample of a glyph whose box starts at `left`, `top` puts ink
/// on the pixel in column `x` of row `y`.
pub open spec fn lands_on(left: int, top: int, sample: CoverageSample, x: int, y: int) -> bool {
    sample.coverage.is_positive() && left + sample.x == x && top + sample.y == y
}

/// The buffer of a `width` by `height` image after one sample of a glyph
/// whose box starts at `left`, `top` is drawn in `color`. A sample without
/// ink, or one that falls outside the image, changes nothing. Any other
/// blends the colour, at its opacity weighted by the coverage, onto the
/// pixel it falls on.
pub open spec fn stamp_sample(
    data: Seq<u8>,
    width: int,
    height: int,
    left: int,
    top: int,
    sample: CoverageSample,
    color: HexColor,
) -> Seq<u8> {
    let x = left + sample.x;
    let y = top + sample.y;
    if sample.coverage.is_positive() && 0 <= x < width && 0 <= y < height {
        let index = y * width + x;
        with_pixel(
            data,
            index,
            laid_over(pixel_of(data, index), ink(color, sample.coverage.weighted(color.0[3]))),
        )
    } else {
        data
    }
}

/// The buffer after the given samples are drawn one after another.
pub open spec fn stamp_samples(
    data: Seq<u8>,
    width: int,
    height: int,
    left: int,
    top: int,
    samples: Seq<CoverageSample>,
    color: HexColor,
) -> Seq<u8>
    decreases samples.len(),
{
    if samples.len() == 0 {
        data
    } else {
        stamp_sample(
            stamp_samples(data, width, height, left, top, samples.drop_last(), color),
            width,
            height,
            left,
            top,
            samples.last(),
            color,
        )
    }
}

/// The buffer after one glyph is drawn with its line shifted by `dx`,
/// `dy`. A glyph without a box draws nothing.
pub open spec fn stamp_glyph(
    data: Seq<u8>,
    width: int,
    height: int,
    dx: int,
    dy: int,
    glyph: PlacedGlyph,
    color: HexColor,
) -> Seq<u8> {
    match glyph.bounds {
        Some(b) => stamp_samples(data, width, height, b.min_x + dx, b.min_y + dy, glyph.samples@, color),
        None => data,
    }
}

/// The buffer after the given glyphs are drawn one after another. Where
/// two glyphs cover the same pixel, the later is blended onto the result
/// of the earlier.
pub open spec fn stamp_glyphs(
    data: Seq<u8>,
    width: int,
    height: int,
    dx: int,
    dy: int,
    glyphs: Seq<PlacedGlyph>,
    color: HexColor,
) -> Seq<u8>
    decreases glyphs.len(),
{
    if glyphs.len() == 0 {
        data
    } else {
        stamp_glyph(
            stamp_glyphs(data, width, height, dx, dy, glyphs.drop_last(), color),
            width,
            height,
            dx,
            dy,
            glyphs.last(),
            color,
        )
    }
}

/// The buffer of a `width` by `height` image after a laid-out text is
/// drawn on it as a watermark at `position`: the text is measured, its box
/// is anchored with the padding, and the glyphs are drawn shifted so that
/// the leftmost ink, not the start of the line, meets the anchor.
pub open spec fn watermarked(
    data: Seq<u8>,
    width: int,
    height: int,
    glyphs: Seq<PlacedGlyph>,
    position: WatermarkPosition,
    color: HexColor,
) -> Seq<u8> {
    let metrics = TextMetrics::of(union_box(glyphs));
    let x = axis_origin(position.horizontal(), width, metrics.width as int, PADDING as int);
    let y = axis_origin(position.vertical(), height, metrics.height as int, PADDING as int);
    stamp_glyphs(data, width, height, x - metrics.x_offset, y, glyphs, color)
}

/// Draws one sample of a glyph whose box starts at `left`, `top`.
fn draw_sample(canvas: &mut Canvas, left: i64, top: i64, sample: &CoverageSample, color: HexColor)
    requires
        old(canvas).well_formed(),
        -0x1_0000_0000_0000 <= left <= 0x1_0000_0000_0000,
        -0x1_0000_0000_0000 <= top <= 0x1_0000_0000_0000,
    ensures
        final(canvas).well_formed(),
        final(canvas).spec_width() == old(canvas).spec_width(),
        final(canvas).spec_height() == old(canvas).spec_height(),
        final(canvas).bytes() == stamp_sample(
            old(canvas).bytes(),
            old(canvas).spec_width() as int,
            old(canvas).spec_height() as int,
            left as int,
            top as int,
            *sample,
            color,
        ),
        color.0[3] == 0 ==> final(canvas).bytes() == old(canvas).bytes(),
{
    if !sample.coverage.has_ink() {
        return ;
    }
    let x: i64 = left + sample.x as i64;
    let y: i64 = top + sample.y as i64;
    if x < 0 || y < 0 || x >= canvas.width() as i64 || y >= canvas.height() as i64 {
        return ;
    }
    let under = canvas.get_pixel(x as u32, y as u32);
    let opacity: u8 = sample.coverage.weigh(color.0[3]);
    let over = [color.0[0], color.0[1], color.0[2], opacity];
    assert(over@ =~= ink(color, opacity as int));
    let out = blend(under, over);
    let ghost before = canvas.bytes();
    let ghost index = y as int * (canvas.spec_width() as int) + x as int;
    canvas.put_pixel(x as u32, y as u32, out);
    proof {
        if color.0[3] == 0 {
            assert(out@ == pixel_of(before, index));
            crate::canvas::lemma_index_in_range(
                canvas.spec_width() as int,
                canvas.spec_height() as int,
                x as int,
                y as int,
            );
            assert(with_pixel(before, index, pixel_of(before, index)) =~= before);
        }
    }
}

/// Draws all samples of a glyph whose box starts at `left`, `top`.
fn draw_samples(canvas: &mut Canvas, left: i64, top: i64, samples: &Vec<CoverageSample>, color: HexColor)
    requires
        old(canvas).well_formed(),
        -0x1_0000_0000_0000 <= left <= 0x1_0000_0000_0000,
        -0x1_0000_0000_0000 <= top <= 0x1_0000_0000_0000,
    ensures
        final(canvas).well_formed(),
        final(canvas).spec_width() == old(canvas).spec_width(),
        final(canvas).spec_height() == old(canvas).spec_height(),
        final(canvas).bytes() == stamp_samples(
            old(canvas).bytes(),
            old(canvas).spec_width() as int,
            old(canvas).spec_height() as int,
            left as int,
            top as int,
            samples@,
            color,
        ),
        color.0[3] == 0 ==> final(canvas).bytes() == old(canvas).bytes(),
{
    let ghost start = canvas.bytes();
    let ghost width = canvas.spec_width() as int;
    let ghost height = canvas.spec_height() as int;
    let mut i: usize = 0;
    while i < samples.len()
        invariant
            i <= samples@.len(),
            canvas.well_formed(),
            canvas.spec_width() == width,
            canvas.spec_height() == height,
            -0x1_0000_0000_0000 <= left <= 0x1_0000_0000_0000,
            -0x1_0000_0000_0000 <= top <= 0x1_0000_0000_0000,
            canvas.bytes() == stamp_samples(
                start,
                width,
                height,
                left as int,
                top as int,
                samples@.take(i as int),
                color,
            ),
            color.0[3] == 0 ==> canvas.bytes() == start,
        decreases samples@.len() - i,
    {
        assert(samples@.take(i + 1).drop_last() =~= samples@.take(i as int));
        assert(samples@.take(i + 1).last() == samples@[i as int]);
        draw_sample(canvas, left, top, &samples[i], color);
        i += 1;
    }
    assert(samples@.take(i as int) =~= samples@);
}

/// Draws the glyphs of a laid-out text in `color`, with the anchor's
/// corner at `origin_x`, `origin_y` and the line shifted left by
/// `x_offset`, the column of its leftmost ink. Glyphs are drawn in order.
/// Pixels that fall outside the canvas are passed over.
pub fn composite(
    canvas: &mut Canvas,
    glyphs: &Vec<PlacedGlyph>,
    origin_x: u32,
    origin_y: u32,
    x_offset: i32,
    color: HexColor,
)
    requires
        old(canvas).well_formed(),
    ensures
        final(canvas).well_formed(),
        final(canvas).spec_width() == old(canvas).spec_width(),
        final(canvas).spec_height() == old(canvas).spec_height(),
        final(canvas).bytes() == stamp_glyphs(
            old(canvas).bytes(),
            old(canvas).spec_width() as int,
            old(canvas).spec_height() as int,
            origin_x - x_offset,
            origin_y as int,
            glyphs@,
            color,
        ),
        color.0[3] == 0 ==> final(canvas).bytes() == old(canvas).bytes(),
{
    let ghost start = canvas.bytes();
    let ghost width = canvas.spec_width() as int;
    let ghost height = canvas.spec_height() as int;
    let dx: i64 = origin_x as i64 - x_offset as i64;
    let dy: i64 = origin_y as i64;
    let mut i: usize = 0;
    while i < glyphs.len()
        invariant
            i <= glyphs@.len(),
            canvas.well_formed(),
            canvas.spec_width() == width,
            canvas.spec_height() == height,
            dx == origin_x - x_offset,
            dy == origin_y,
            canvas.bytes() == stamp_glyphs(start, width, height, dx as int, dy as int, glyphs@.take(i as int), color),
            color.0[3] == 0 ==> canvas.bytes() == start,
        decreases glyphs@.len() - i,
    {
        assert(glyphs@.take(i + 1).drop_last() =~= glyphs@.take(i as int));
        assert(glyphs@.take(i + 1).last() == glyphs@[i as int]);
        match glyphs[i].bounds {
            Some(b) => {
                draw_samples(canvas, b.min_x as i64 + dx, b.min_y as i64 + dy, &glyphs[i].samples, color);
            },
            None => {},
        }
        i += 1;
    }
    assert(glyphs@.take(i as int) =~= glyphs@);
}

/// Draws a laid-out text on the canvas as a watermark at `position`, in
/// `color`. The text is measured, its box is anchored with the padding,
/// and every glyph pixel that holds ink and lies on the canvas is blended
/// in at the colour's opacity weighted by the pixel's coverage. A text
/// without glyphs and a colour of opacity 0 leave the canvas as it is.
pub fn add_watermark(canvas: &mut Canvas, glyphs: &Vec<PlacedGlyph>, position: WatermarkPosition, color: HexColor)
    requires
        old(canvas).well_formed(),
    ensures
        final(canvas).well_formed(),
        final(canvas).spec_width() == old(canvas).spec_width(),
        final(canvas).spec_height() == old(canvas).spec_height(),
        final(canvas).bytes() == watermarked(
            old(canvas).bytes(),
            old(canvas).spec_width() as int,
            old(canvas).spec_height() as int,
            glyphs@,
            position,
            color,
        ),
        glyphs@.len() == 0 || color.0[3] == 0 ==> final(canvas).bytes() == old(canvas).bytes(),
{
    let metrics = measure_text(glyphs);
    let origin = resolve_anchor(canvas.width(), canvas.height(), metrics.width, metrics.height, PADDING, position);
    composite(canvas, glyphs, origin.0, origin.1, metrics.x_offset, color);
}

/// Whether some sample of the glyph, drawn with its line shifted by `dx`,
/// `dy`, puts ink on the pixel in column `x` of row `y`.
pub open spec fn glyph_inks(dx: int, dy: int, glyph: PlacedGlyph, x: int, y: int) -> bool {
    glyph.bounds matches Some(b) && exists|k: int|
        0 <= k < glyph.samples@.len() && lands_on(b.min_x + dx, b.min_y + dy, #[trigger] glyph.samples@[k], x, y)
}

/// Drawing never changes the size of the buffer.
pub proof fn lemma_stamp_keeps_length(
    data: Seq<u8>,
    width: int,
    height: int,
    dx: int,
    dy: int,
    glyphs: Seq<PlacedGlyph>,
    color: HexColor,
)
    ensures
        stamp_glyphs(data, width, height, dx, dy, glyphs, color).len() == data.len(),
    decreases glyphs.len(),
{
    if glyphs.len() > 0 {
        lemma_stamp_keeps_length(data, width, height, dx, dy, glyphs.drop_last(), color);
        let before = stamp_glyphs(data, width, height, dx, dy, glyphs.drop_last(), color);
        match glyphs.last().bounds {
            Some(b) => {
                lemma_samples_keep_length(
                    before,
                    width,
                    height,
                    b.min_x + dx,
                    b.min_y + dy,
                    glyphs.last().samples@,
                    color,
                );
            },
            None => {},
        }
    }
}

/// Drawing the samples of one glyph never changes the size of the buffer.
pub proof fn lemma_samples_keep_length(
    data: Seq<u8>,
    width: int,
    height: int,
    left: int,
    top: int,
    samples: Seq<CoverageSample>,
    color: HexColor,
)
    ensures
        stamp_samples(data, width, height, left, top, samples, color).len() == data.len(),
    decreases samples.len(),
{
    if samples.len() > 0 {
        lemma_samples_keep_length(data, width, height, left, top, samples.drop_last(), color);
    }
}

/// A watermark of no glyphs, which is what an empty text lays out to,
/// leaves every byte of the image as it is.
pub proof fn lemma_empty_text_changes_nothing(
    data: Seq<u8>,
    width: int,
    height: int,
    position: WatermarkPosition,
    color: HexColor,
)
    ensures
        watermarked(data, width, height, Seq::<PlacedGlyph>::empty(), position, color) == data,
{
}

/// Glyphs without ink, such as spaces, leave every byte of the image as
/// it is: nothing is drawn where no glyph has both a box and a sample of
/// positive coverage.
pub proof fn lemma_inkless_text_changes_nothing(
    data: Seq<u8>,
    width: int,
    height: int,
    dx: int,
    dy: int,
    glyphs: Seq<PlacedGlyph>,
    color: HexColor,
)
    requires
        forall|g: int, k: int|
            0 <= g < glyphs.len() && 0 <= k < glyphs[g].samples@.len() && glyphs[g].bounds is Some
                ==> !(#[trigger] glyphs[g].samples@[k]).coverage.is_positive(),
    ensures
        stamp_glyphs(data, width, height, dx, dy, glyphs, color) == data,
    decreases glyphs.len(),
{
    if glyphs.len() > 0 {
        let front = glyphs.drop_last();
        assert forall|g: int, k: int|
            0 <= g < front.len() && 0 <= k < front[g].samples@.len() && front[g].bounds is Some implies !(
        #[trigger] front[g].samples@[k]).coverage.is_positive() by {
            assert(front[g] == glyphs[g]);
        }
        lemma_inkless_text_changes_nothing(data, width, height, dx, dy, front, color);
        let g = glyphs.len() - 1;
        match glyphs.last().bounds {
            Some(b) => {
                assert(glyphs[g].bounds is Some);
                lemma_inkless_samples_change_nothing(
                    data,
                    width,
                    height,
                    b.min_x + dx,
                    b.min_y + dy,
                    glyphs[g].samples@,
                    color,
                );
            },
            None => {},
        }
    }
}

/// Samples without ink leave every byte of the image as it is.
pub proof fn lemma_inkless_samples_change_nothing(
    data: Seq<u8>,
    width: int,
    height: int,
    left: int,
    top: int,
    samples: Seq<CoverageSample>,
    color: HexColor,
)
    requires
        forall|k: int| 0 <= k < samples.len() ==> !(#[trigger] samples[k]).coverage.is_positive(),
    ensures
        stamp_samples(data, width, height, left, top, samples, color) == data,
    decreases samples.len(),
{
    if samples.len() > 0 {
        let front = samples.drop_last();
        assert forall|k: int| 0 <= k < front.len() implies !(#[trigger] front[k]).coverage.is_positive() by {
            assert(front[k] == samples[k]);
        }
        lemma_inkless_samples_change_nothing(data, width, height, left, top, front, color);
        assert(!samples[samples.len() - 1].coverage.is_positive());
    }
}

/// The samples of one glyph leave a pixel as it is unless one of them
/// puts ink on it.
pub proof fn lemma_samples_keep_other_pixels(
    data: Seq<u8>,
    width: int,
    height: int,
    left: int,
    top: int,
    samples: Seq<CoverageSample>,
    color: HexColor,
    x: int,
    y: int,
)
    requires
        0 <= x < width,
        0 <= y < height,
        data.len() == 4 * width * height,
        forall|k: int| 0 <= k < samples.len() ==> !lands_on(left, top, #[trigger] samples[k], x, y),
    ensures
        pixel_of(stamp_samples(data, width, height, left, top, samples, color), y * width + x) == pixel_of(
            data,
            y * width + x,
        ),
    decreases samples.len(),
{
    if samples.len() > 0 {
        let front = samples.drop_last();
        let last = samples.last();
        assert forall|k: int| 0 <= k < front.len() implies !lands_on(left, top, #[trigger] front[k], x, y) by {
            assert(front[k] == samples[k]);
        }
        lemma_samples_keep_other_pixels(data, width, height, left, top, front, color, x, y);
        lemma_samples_keep_length(data, width, height, left, top, front, color);
        let before = stamp_samples(data, width, height, left, top, front, color);
        let after = stamp_sample(before, width, height, left, top, last, color);
        let sx = left + last.x;
        let sy = top + last.y;
        assert(!lands_on(left, top, samples[samples.len() - 1], x, y));
        crate::canvas::lemma_index_in_range(width, height, x, y);
        if last.coverage.is_positive() && 0 <= sx < width && 0 <= sy < height {
            if sy * width + sx == y * width + x {
                crate::canvas::lemma_index_distinct(width, sx, sy, x, y);
            }
            crate::canvas::lemma_index_in_range(width, height, sx, sy);
            assert(pixel_of(after, y * width + x) =~= pixel_of(before, y * width + x));
        }
    }
}

/// A pixel that no glyph puts ink on is the same after the text is drawn
/// as before.
pub proof fn lemma_untouched_pixel_kept(
    data: Seq<u8>,
    width: int,
    height: int,
    dx: int,
    dy: int,
    glyphs: Seq<PlacedGlyph>,
    color: HexColor,
    x: int,
    y: int,
)
    requires
        0 <= x < width,
        0 <= y < height,
        data.len() == 4 * width * height,
        forall|g: int| 0 <= g < glyphs.len() ==> !glyph_inks(dx, dy, #[trigger] glyphs[g], x, y),
    ensures
        pixel_of(stamp_glyphs(data, width, height, dx, dy, glyphs, color), y * width + x) == pixel_of(
            data,
            y * width + x,
        ),
    decreases glyphs.len(),
{
    if glyphs.len() > 0 {
        let front = glyphs.drop_last();
        let last = glyphs.last();
        assert forall|g: int| 0 <= g < front.len() implies !glyph_inks(dx, dy, #[trigger] front[g], x, y) by {
            assert(front[g] == glyphs[g]);
        }
        lemma_untouched_pixel_kept(data, width, height, dx, dy, front, color, x, y);
        lemma_stamp_keeps_length(data, width, height, dx, dy, front, color);
        let before = stamp_glyphs(data, width, height, dx, dy, front, color);
        assert(!glyph_inks(dx, dy, glyphs[glyphs.len() - 1], x, y));
        match last.bounds {
            Some(b) => {
                lemma_samples_keep_other_pixels(
                    before,
                    width,
                    height,
                    b.min_x + dx,
                    b.min_y + dy,
                    last.samples@,
                    color,
                    x,
                    y,
                );
            },
            None => {},
        }
    }
}

/// Whether a sample of a glyph whose box starts at `left`, `top` falls on
/// the image and covers its pixel so that the colour is laid on at full
/// opacity.
pub open spec fn covers_fully(
    width: int,
    height: int,
    left: int,
    top: int,
    sample: CoverageSample,
    color: HexColor,
) -> bool {
    &&& sample.coverage.is_positive()
    &&& 0 <= left + sample.x < width
    &&& 0 <= top + sample.y < height
    &&& sample.coverage.weighted(color.0[3]) == 255
}

/// A sample that lays the colour on at full opacity sets its pixel to the
/// colour, whatever the pixel held.
pub proof fn lemma_opaque_sample_sets_pixel(
    data: Seq<u8>,
    width: int,
    height: int,
    left: int,
    top: int,
    sample: CoverageSample,
    color: HexColor,
)
    requires
        data.len() == 4 * width * height,
        covers_fully(width, height, left, top, sample, color),
    ensures
        pixel_of(
            stamp_sample(data, width, height, left, top, sample, color),
            (top + sample.y) * width + (left + sample.x),
        ) == ink(color, 255),
{
    let x = left + sample.x;
    let y = top + sample.y;
    let index = y * width + x;
    crate::canvas::lemma_index_in_range(width, height, x, y);
    let over = ink(color, 255);
    assert(laid_over(pixel_of(data, index), over) == over);
    assert(pixel_of(with_pixel(data, index, over), index) =~= over);
}

/// The last sample drawn wins: where the last sample of the last glyph
/// lays the colour on at full opacity, its pixel holds the colour after
/// the text is drawn, whatever was drawn there before.
pub proof fn lemma_last_drawn_wins(
    data: Seq<u8>,
    width: int,
    height: int,
    dx: int,
    dy: int,
    glyphs: Seq<PlacedGlyph>,
    color: HexColor,
)
    requires
        data.len() == 4 * width * height,
        glyphs.len() > 0,
        glyphs.last().bounds is Some,
        glyphs.last().samples@.len() > 0,
        covers_fully(
            width,
            height,
            glyphs.last().bounds.unwrap().min_x + dx,
            glyphs.last().bounds.unwrap().min_y + dy,
            glyphs.last().samples@.last(),
            color,
        ),
    ensures
        pixel_of(
            stamp_glyphs(data, width, height, dx, dy, glyphs, color),
            (glyphs.last().bounds.unwrap().min_y + dy + glyphs.last().samples@.last().y) * width + (
            glyphs.last().bounds.unwrap().min_x + dx + glyphs.last().samples@.last().x),
        ) == ink(color, 255),
{
    let last = glyphs.last();
    let b = last.bounds.unwrap();
    let before = stamp_glyphs(data, width, height, dx, dy, glyphs.drop_last(), color);
    lemma_stamp_keeps_length(data, width, height, dx, dy, glyphs.drop_last(), color);
    let earlier = stamp_samples(
        before,
        width,
        height,
        b.min_x + dx,
        b.min_y + dy,
        last.samples@.drop_last(),
        color,
    );
    lemma_samples_keep_length(before, width, height, b.min_x + dx, b.min_y + dy, last.samples@.drop_last(), color);
    lemma_opaque_sample_sets_pixel(
        earlier,
        width,
        height,
        b.min_x + dx,
        b.min_y + dy,
        last.samples@.last(),
        color,
    );
}

/// A colour of opacity 0 leaves every byte of the image as it is, whatever
/// the text.
pub proof fn lemma_transparent_color_changes_nothing(
    data: Seq<u8>,
    width: int,
    height: int,
    dx: int,
    dy: int,
    glyphs: Seq<PlacedGlyph>,
    color: HexColor,
)
    requires
        data.len() == 4 * width * height,
        color.0[3] == 0,
    ensures
        stamp_glyphs(data, width, height, dx, dy, glyphs, color) == data,
    decreases glyphs.len(),
{
    if glyphs.len() > 0 {
        lemma_transparent_color_changes_nothing(data, width, height, dx, dy, glyphs.drop_last(), color);
        match glyphs.last().bounds {
            Some(b) => {
                lemma_transparent_samples_change_nothing(
                    data,
                    width,
                    height,
                    b.min_x + dx,
                    b.min_y + dy,
                    glyphs.last().samples@,
                    color,
                );
            },
            None => {},
        }
    }
}

/// Samples drawn in a colour of opacity 0 leave every byte of the image
/// as it is.
pub proof fn lemma_transparent_samples_change_nothing(
    data: Seq<u8>,
    width: int,
    height: int,
    left: int,
    top: int,
    samples: Seq<CoverageSample>,
    color: HexColor,
)
    requires
        data.len() == 4 * width * height,
        color.0[3] == 0,
    ensures
        stamp_samples(data, width, height, left, top, samples, color) == data,
    decreases samples.len(),
{
    if samples.len() > 0 {
        lemma_transparent_samples_change_nothing(data, width, height, left, top, samples.drop_last(), color);
        let sample = samples.last();
        let x = left + sample.x;
        let y = top + sample.y;
        if sample.coverage.is_positive() && 0 <= x < width && 0 <= y < height {
            let index = y * width + x;
            crate::canvas::lemma_index_in_range(width, height, x, y);
            assert(sample.coverage.weighted(0) == 0);
            assert(with_pixel(data, index, pixel_of(data, index)) =~= data);
        }
    }
}

/// A watermark whose last sample lays the colour on at full opacity
/// changes the image, unless the pixel under that sample held the colour
/// already.
pub proof fn lemma_opaque_ink_changes_image(
    data: Seq<u8>,
    width: int,
    height: int,
    dx: int,
    dy: int,
    glyphs: Seq<PlacedGlyph>,
    color: HexColor,
)
    requires
        data.len() == 4 * width * height,
        glyphs.len() > 0,
        glyphs.last().bounds is Some,
        glyphs.last().samples@.len() > 0,
        covers_fully(
            width,
            height,
            glyphs.last().bounds.unwrap().min_x + dx,
            glyphs.last().bounds.unwrap().min_y + dy,
            glyphs.last().samples@.last(),
            color,
        ),
        pixel_of(
            data,
            (glyphs.last().bounds.unwrap().min_y + dy + glyphs.last().samples@.last().y) * width + (
            glyphs.last().bounds.unwrap().min_x + dx + glyphs.last().samples@.last().x),
        ) != ink(color, 255),
    ensures
        stamp_glyphs(data, width, height, dx, dy, glyphs, color) != data,
{
    lemma_last_drawn_wins(data, width, height, dx, dy, glyphs, color);
}

} // verus!

//! Shrinking a point size until the laid-out text fits the drawable area
//! of the image.
use vstd::prelude::*;
use vstd::arithmetic::div_mod::{lemma_div_by_multiple, lemma_div_is_ordered, lemma_fundamental_div_mod};
use crate::metrics::{greater, lesser, TextMetrics};
use crate::position::saturating_diff;

verus! {

/// The clearance in pixels kept between the watermark and the edges of
/// the image.
pub const PADDING: u32 = 10;

/// The length left on an axis of length `image` once `padding` is taken
/// off at both ends, or 0 where nothing is left.
pub open spec fn drawable(image: int, padding: int) -> int {
    saturating_diff(image, 2 * padding)
}

/// The point size to which `requested` is cut on one axis: `requested`
/// times `drawable / measured`, without its fractional part. A text that
/// measures 0 on the axis needs no cut there.
pub open spec fn axis_limit(requested: int, drawable: int, measured: int) -> int {
    if measured > 0 {
        requested * drawable / measured
    } else {
        requested
    }
}

/// The point size at which a text that measured `text_width` by
/// `text_height` at `requested` is drawn. A text within the drawable area
/// keeps its size. Otherwise the size is cut by the smaller of the two
/// ratios of drawable to measured length, and is at least 1.
pub open spec fn fitted(
    requested: int,
    drawable_width: int,
    drawable_height: int,
    text_width: int,
    text_height: int,
) -> int {
    if text_width > drawable_width || text_height > drawable_height {
        greater(
            1,
            lesser(
                axis_limit(requested, drawable_width, text_width),
                axis_limit(requested, drawable_height, text_height),
            ),
        )
    } else {
        requested
    }
}

/// The length left on an axis once the padding is taken off at both ends.
pub fn drawable_extent(image: u32, padding: u32) -> (d: u32)
    ensures
        d == drawable(image as int, padding as int),
{
    let margin: u64 = padding as u64 * 2;
    if image as u64 >= margin {
        (image as u64 - margin) as u32
    } else {
        0
    }
}

/// The point size to which `requested` is cut on one axis.
fn limit_on_axis(requested: u32, drawable: u32, measured: u32) -> (l: u64)
    ensures
        l == axis_limit(requested as int, drawable as int, measured as int),
        measured > drawable ==> l <= requested,
{
    if measured > 0 {
        assert(requested as u64 * drawable as u64 <= 0xFFFF_FFFF * 0xFFFF_FFFF) by (nonlinear_arith)
            requires
                requested <= 0xFFFF_FFFF,
                drawable <= 0xFFFF_FFFF,
        ;
        proof {
            lemma_limit_below_requested(requested as int, drawable as int, measured as int);
        }
        requested as u64 * drawable as u64 / measured as u64
    } else {
        requested as u64
    }
}

/// Shrinks `requested` so that a text which measured `text_width` by
/// `text_height` at that size fits a drawable area of `drawable_width` by
/// `drawable_height`. One cut is made and the result is not measured
/// again.
pub fn fit_scale(
    requested: u32,
    drawable_width: u32,
    drawable_height: u32,
    text_width: u32,
    text_height: u32,
) -> (size: u32)
    ensures
        size == fitted(
            requested as int,
            drawable_width as int,
            drawable_height as int,
            text_width as int,
            text_height as int,
        ),
{
    if text_width > drawable_width || text_height > drawable_height {
        let by_width: u64 = limit_on_axis(requested, drawable_width, text_width);
        let by_height: u64 = limit_on_axis(requested, drawable_height, text_height);
        let cut: u64 = if by_width <= by_height {
            by_width
        } else {
            by_height
        };
        if cut >= 1 {
            cut as u32
        } else {
            1
        }
    } else {
        requested
    }
}

/// The point size at which a watermark is drawn on an image of
/// `image_width` by `image_height` pixels, given what its text measured at
/// `font_size`: the size that fits the image less the padding on every
/// side.
pub fn fit_font_size(font_size: u32, image_width: u32, image_height: u32, measured: TextMetrics) -> (size: u32)
    ensures
        size == fitted(
            font_size as int,
            drawable(image_width as int, PADDING as int),
            drawable(image_height as int, PADDING as int),
            measured.width as int,
            measured.height as int,
        ),
{
    fit_scale(
        font_size,
        drawable_extent(image_width, PADDING),
        drawable_extent(image_height, PADDING),
        measured.width,
        measured.height,
    )
}

/// On an axis where the text is longer than the drawable length, the cut
/// size does not pass the requested one.
pub proof fn lemma_limit_below_requested(requested: int, drawable: int, measured: int)
    requires
        0 <= requested,
        0 <= drawable,
        0 < measured,
    ensures
        0 <= axis_limit(requested, drawable, measured),
        drawable < measured ==> axis_limit(requested, drawable, measured) <= requested,
        axis_limit(requested, drawable, measured) * measured <= requested * drawable,
{
    assert(0 <= requested * drawable) by (nonlinear_arith)
        requires
            0 <= requested,
            0 <= drawable,
    ;
    lemma_fundamental_div_mod(requested * drawable, measured);
    let q = requested * drawable / measured;
    assert(0 <= (requested * drawable) % measured < measured);
    assert(measured * q == q * measured) by (nonlinear_arith);
    assert(0 <= q) by (nonlinear_arith)
        requires
            measured * q > -measured,
            measured > 0,
    ;
    if drawable < measured {
        assert(requested * drawable <= requested * measured) by (nonlinear_arith)
            requires
                0 <= requested,
                drawable < measured,
        ;
        lemma_div_is_ordered(requested * drawable, requested * measured, measured);
        lemma_div_by_multiple(requested, measured);
    }
}

/// The fitted size is never above the requested one and, for any
/// requested size of at least 1, never below 1.
pub proof fn lemma_fitted_within_request(
    requested: u32,
    drawable_width: u32,
    drawable_height: u32,
    text_width: u32,
    text_height: u32,
)
    requires
        requested >= 1,
    ensures
        1 <= fitted(
            requested as int,
            drawable_width as int,
            drawable_height as int,
            text_width as int,
            text_height as int,
        ) <= requested,
{
    if text_width > drawable_width {
        lemma_limit_below_requested(requested as int, drawable_width as int, text_width as int);
    }
    if text_height > drawable_height {
        lemma_limit_below_requested(requested as int, drawable_height as int, text_height as int);
    }
}

/// A text that already fits the drawable area keeps the requested size.
pub proof fn lemma_fitting_text_keeps_size(
    requested: u32,
    drawable_width: u32,
    drawable_height: u32,
    text_width: u32,
    text_height: u32,
)
    requires
        text_width <= drawable_width,
        text_height <= drawable_height,
    ensures
        fitted(
            requested as int,
            drawable_width as int,
            drawable_height as int,
            text_width as int,
            text_height as int,
        ) == requested,
{
}

/// Unless the floor of 1 applies, the cut is in proportion: the fitted
/// size times the measured length is at most the requested size times the
/// drawable length, on both axes.
pub proof fn lemma_fitted_in_proportion(
    requested: u32,
    drawable_width: u32,
    drawable_height: u32,
    text_width: u32,
    text_height: u32,
)
    requires
        text_width > drawable_width || text_height > drawable_height,
        axis_limit(requested as int, drawable_width as int, text_width as int) >= 1,
        axis_limit(requested as int, drawable_height as int, text_height as int) >= 1,
    ensures
        fitted(
            requested as int,
            drawable_width as int,
            drawable_height as int,
            text_width as int,
            text_height as int,
        ) * text_width <= requested * drawable_width,
        fitted(
            requested as int,
            drawable_width as int,
            drawable_height as int,
            text_width as int,
            text_height as int,
        ) * text_height <= requested * drawable_height,
{
    let f = fitted(
        requested as int,
        drawable_width as int,
        drawable_height as int,
        text_width as int,
        text_height as int,
    );
    let lw = axis_limit(requested as int, drawable_width as int, text_width as int);
    let lh = axis_limit(requested as int, drawable_height as int, text_height as int);
    assert(f <= lw && f <= lh && f >= 1);
    if text_width > 0 {
        lemma_limit_below_requested(requested as int, drawable_width as int, text_width as int);
        assert(f * text_width <= lw * text_width) by (nonlinear_arith)
            requires
                f <= lw,
                text_width >= 0,
        ;
    } else {
        assert(f * text_width == 0) by (nonlinear_arith)
            requires
                text_width == 0,
        ;
        assert(requested * drawable_width >= 0) by (nonlinear_arith);
    }
    if text_height > 0 {
        lemma_limit_below_requested(requested as int, drawable_height as int, text_height as int);
        assert(f * text_height <= lh * text_height) by (nonlinear_arith)
            requires
                f <= lh,
                text_height >= 0,
        ;
    } else {
        assert(f * text_height == 0) by (nonlinear_arith)
            requires
                text_height == 0,
        ;
        assert(requested * drawable_height >= 0) by (nonlinear_arith);
    }
}

} // verus!

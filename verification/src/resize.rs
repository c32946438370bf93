//! The dimensions an image is resized to.
use vstd::prelude::*;
use vstd::arithmetic::div_mod::lemma_fundamental_div_mod;

verus! {

/// The size an image is brought to before it is watermarked, and whether
/// its pixels have to be resampled for that.
#[derive(Debug, Clone, Copy, PartialEq, Eq, Structural)]
pub struct ResizePlan {
    pub width: u32,
    pub height: u32,
    pub resample: bool,
}

/// The whole number nearest to `n / d`, a half counting upwards.
pub open spec fn rounded_quotient(n: int, d: int) -> int
    recommends
        n >= 0,
        d > 0,
{
    if 2 * (n % d) >= d {
        n / d + 1
    } else {
        n / d
    }
}

/// The length of the side that is not asked for, in proportion to the
/// image as it is: `target * other / this`, rounded to the nearest whole
/// number and kept between 1 and the largest length there is. `this` is
/// the present length of the side asked for and `other` that of the side
/// that follows. Where `this` is 0 there is no proportion, and the other
/// side keeps its length.
pub open spec fn proportional(target: int, this: int, other: int) -> int {
    if this > 0 {
        let r = rounded_quotient(target * other, this);
        if r < 1 {
            1
        } else if r > u32::MAX {
            u32::MAX as int
        } else {
            r
        }
    } else {
        other
    }
}

/// The size to resize to and whether to resample. With only one side
/// asked for the other follows in proportion; with both, the image takes
/// exactly that size; with neither, it keeps its own. Pixels are
/// resampled only where a side was asked for and the size changes.
pub open spec fn planned(width: u32, height: u32, want_width: Option<u32>, want_height: Option<u32>) -> ResizePlan {
    let size: (int, int) = match (want_width, want_height) {
        (Some(w), None) => (w as int, proportional(w as int, width as int, height as int)),
        (None, Some(h)) => (proportional(h as int, height as int, width as int), h as int),
        (Some(w), Some(h)) => (w as int, h as int),
        (None, None) => (width as int, height as int),
    };
    ResizePlan {
        width: size.0 as u32,
        height: size.1 as u32,
        resample: (want_width is Some || want_height is Some) && (size.0 != width || size.1 != height),
    }
}

/// The length of the side that is not asked for, in proportion to the
/// image as it is.
pub fn proportional_side(target: u32, this: u32, other: u32) -> (side: u32)
    ensures
        side == proportional(target as int, this as int, other as int),
{
    if this == 0 {
        return other;
    }
    assert(target as u64 * other as u64 <= 0xFFFF_FFFF * 0xFFFF_FFFF) by (nonlinear_arith)
        requires
            target <= 0xFFFF_FFFF,
            other <= 0xFFFF_FFFF,
    ;
    let product: u64 = target as u64 * other as u64;
    let whole: u64 = product / this as u64;
    let rest: u64 = product % this as u64;
    let rounded: u64 = if 2 * rest >= this as u64 {
        whole + 1
    } else {
        whole
    };
    if rounded < 1 {
        1
    } else if rounded > u32::MAX as u64 {
        u32::MAX
    } else {
        rounded as u32
    }
}

/// Plans the resize of an image of `width` by `height` pixels to the
/// sides asked for.
pub fn plan_resize(width: u32, height: u32, want_width: Option<u32>, want_height: Option<u32>) -> (plan: ResizePlan)
    ensures
        plan == planned(width, height, want_width, want_height),
{
    let (new_width, new_height, asked): (u32, u32, bool) = match (want_width, want_height) {
        (Some(w), None) => (w, proportional_side(w, width, height), true),
        (None, Some(h)) => (proportional_side(h, height, width), h, true),
        (Some(w), Some(h)) => (w, h, true),
        (None, None) => (width, height, false),
    };
    ResizePlan {
        width: new_width,
        height: new_height,
        resample: asked && (new_width != width || new_height != height),
    }
}

/// The rounded quotient is the nearest whole number: it is off from
/// `n / d` by at most a half.
pub proof fn lemma_rounded_quotient_nearest(n: int, d: int)
    requires
        n >= 0,
        d > 0,
    ensures
        2 * (rounded_quotient(n, d) * d - n) <= d,
        2 * (n - rounded_quotient(n, d) * d) < d,
{
    lemma_fundamental_div_mod(n, d);
    let q = n / d;
    let r = n % d;
    assert(d * q == q * d) by (nonlinear_arith);
    assert((q + 1) * d == q * d + d) by (nonlinear_arith);
}

/// Where a side can be kept in exact proportion it is: an image brought
/// to a width that divides evenly gets exactly the matching height.
pub proof fn lemma_exact_proportion(target: u32, this: u32, other: u32, side: u32)
    requires
        this > 0,
        side >= 1,
        target * other == side * this,
    ensures
        proportional(target as int, this as int, other as int) == side,
{
    let n = target * other;
    assert(n == this * side) by (nonlinear_arith)
        requires
            n == side * this,
    ;
    vstd::arithmetic::div_mod::lemma_div_multiples_vanish(side as int, this as int);
    vstd::arithmetic::div_mod::lemma_mod_multiples_basic(side as int, this as int);
    assert(n % (this as int) == 0);
    assert(n / (this as int) == side);
}

/// A plan with no side asked for keeps the image as it is.
pub proof fn lemma_nothing_asked_keeps_size(width: u32, height: u32)
    ensures
        planned(width, height, None, None) == (ResizePlan { width, height, resample: false }),
{
}

} // verus!

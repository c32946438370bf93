//! The ink density of a rasterised glyph pixel and the opacity a watermark
//! gets from it.
//!
//! A rasteriser reports coverage as a single-precision number between 0
//! and 1. It is kept here in its binary encoding, so that nothing is lost
//! on the way in, and every step on it is integer arithmetic.
use vstd::prelude::*;
use vstd::arithmetic::power2::{pow2, lemma_pow2_adds, lemma_pow2_pos, lemma_pow2_unfold, lemma2_to64, lemma_pow2_strictly_increases};
use vstd::arithmetic::div_mod::{lemma_basic_div, lemma_div_denominator, lemma_fundamental_div_mod};

verus! {

/// The number of values the fraction field of a single can take: 2^23.
pub const FRACTION_RANGE: u32 = 8388608;

/// The smallest number that needs more than 24 binary digits: 2^24.
pub const SIGNIFICAND_RANGE: u64 = 16777216;

/// A coverage value, held as the 32 bits of its single-precision encoding:
/// one sign bit, eight exponent bits, 23 fraction bits.
#[derive(Debug, Clone, Copy, PartialEq, Eq, Structural)]
pub struct Coverage {
    pub bits: u32,
}

/// How many binary digits `p` has beyond 24.
pub open spec fn excess_digits(p: nat) -> nat
    decreases p,
{
    if p < 16777216 {
        0
    } else {
        1 + excess_digits(p / 2)
    }
}

/// The nearest number to `p` that 24 binary digits can write, which is
/// what a single-precision product is rounded to. Of two equally near
/// numbers the one with an even last digit is taken.
pub open spec fn round_to_single(p: nat) -> nat {
    let unit = pow2(excess_digits(p));
    let q = p / unit;
    let r = p % unit;
    if 2 * r > unit || (2 * r == unit && q % 2 == 1) {
        (q + 1) * unit
    } else {
        q * unit
    }
}

/// The whole part of `r * 2^e`.
pub open spec fn scaled_floor(r: nat, e: int) -> nat {
    if e >= 0 {
        r * pow2(e as nat)
    } else {
        r / pow2((-e) as nat)
    }
}

impl Coverage {
    /// Whether the sign bit is set.
    pub open spec fn negative(self) -> bool {
        self.bits >= 2147483648
    }

    /// The eight exponent bits as a number.
    pub open spec fn exponent_field(self) -> int {
        (self.bits as int / 8388608) % 256
    }

    /// The 23 fraction bits as a number.
    pub open spec fn fraction(self) -> int {
        self.bits as int % 8388608
    }

    /// Whether the encoding is one of "not a number".
    pub open spec fn is_nan(self) -> bool {
        self.exponent_field() == 255 && self.fraction() != 0
    }

    /// Whether the encoding is one of the two infinities.
    pub open spec fn is_infinite(self) -> bool {
        self.exponent_field() == 255 && self.fraction() == 0
    }

    /// The whole number `m` of a finite value `m * 2^e`.
    pub open spec fn significand(self) -> nat {
        if self.exponent_field() == 0 {
            self.fraction() as nat
        } else {
            (self.fraction() + 8388608) as nat
        }
    }

    /// The power `e` of a finite value `m * 2^e`.
    pub open spec fn exponent(self) -> int {
        if self.exponent_field() == 0 {
            -149
        } else {
            self.exponent_field() - 150
        }
    }

    /// Whether the value is greater than zero. Only such a pixel holds ink.
    pub open spec fn is_positive(self) -> bool {
        !self.negative() && !self.is_nan() && self.significand() > 0
    }

    /// The opacity of a watermark of nominal opacity `alpha` on a pixel of
    /// this coverage: the product of the two, rounded as a single-precision
    /// product is, then cut to its whole part and to at most 255. A pixel
    /// without ink gives 0.
    pub open spec fn weighted(self, alpha: u8) -> int {
        if !self.is_positive() || alpha == 0 {
            0
        } else if self.is_infinite() {
            255
        } else {
            let whole = scaled_floor(round_to_single(alpha as nat * self.significand()), self.exponent());
            if whole > 255 {
                255
            } else {
                whole as int
            }
        }
    }

    /// The coverage with the given encoding.
    pub fn from_bits(bits: u32) -> (c: Coverage)
        ensures
            c.bits == bits,
    {
        Coverage { bits }
    }

    /// Whether the value is greater than zero.
    pub fn has_ink(&self) -> (b: bool)
        ensures
            b == self.is_positive(),
    {
        let bits: u32 = self.bits;
        if bits >= 2147483648 {
            return false;
        }
        let field: u32 = bits / FRACTION_RANGE;
        let fraction: u32 = bits % FRACTION_RANGE;
        assert(field < 256);
        if field == 255 {
            fraction == 0
        } else if field == 0 {
            fraction != 0
        } else {
            true
        }
    }

    /// The opacity of a watermark of nominal opacity `alpha` on a pixel of
    /// this coverage.
    pub fn weigh(&self, alpha: u8) -> (w: u8)
        ensures
            w == self.weighted(alpha),
    {
        if alpha == 0 || !self.has_ink() {
            return 0;
        }
        let field: u32 = self.bits / FRACTION_RANGE;
        let fraction: u32 = self.bits % FRACTION_RANGE;
        assert(field < 256);
        if field == 255 {
            return 255;
        }
        let significand: u64 = if field == 0 {
            fraction as u64
        } else {
            fraction as u64 + 8388608
        };
        assert(significand < 16777216);
        assert(alpha as u64 * significand < 4294967296) by (nonlinear_arith)
            requires
                alpha < 256,
                significand < 16777216,
        ;
        let product: u64 = alpha as u64 * significand;
        let rounded: u64 = round_product(product);
        proof {
            lemma_round_to_single_bounds(product as nat);
            lemma2_to64();
        }
        if field >= 150 {
            proof {
                let e: nat = (field - 150) as nat;
                lemma_pow2_pos(e);
                assert(product >= significand) by (nonlinear_arith)
                    requires
                        product == alpha as u64 * significand,
                        alpha >= 1,
                ;
                assert(rounded as nat * pow2(e) >= rounded) by (nonlinear_arith)
                    requires
                        pow2(e) >= 1,
                ;
            }
            return 255;
        }
        let shift: u32 = if field == 0 {
            149
        } else {
            150 - field
        };
        assert(self.exponent() == -(shift as int));
        if shift > 32 {
            proof {
                lemma_pow2_strictly_increases(32, shift as nat);
                lemma_basic_div(rounded as int, pow2(shift as nat) as int);
            }
            return 0;
        }
        let divisor: u64 = power_of_two(shift);
        let whole: u64 = rounded / divisor;
        if whole > 255 {
            255
        } else {
            whole as u8
        }
    }
}

/// 2 to the power `n`.
pub fn power_of_two(n: u32) -> (p: u64)
    requires
        n <= 32,
    ensures
        p == pow2(n as nat),
        p <= 4294967296,
{
    let mut p: u64 = 1;
    let mut i: u32 = 0;
    proof {
        lemma2_to64();
    }
    while i < n
        invariant
            i <= n,
            n <= 32,
            p == pow2(i as nat),
            p <= pow2(32),
            pow2(32) == 4294967296,
        decreases n - i,
    {
        proof {
            lemma_pow2_unfold((i + 1) as nat);
            if i + 1 < 32 {
                lemma_pow2_strictly_increases((i + 1) as nat, 32);
            }
        }
        p = p * 2;
        i += 1;
    }
    p
}

/// Rounds a product of an opacity and a significand to 24 binary digits.
pub fn round_product(p: u64) -> (r: u64)
    requires
        p < 4294967296,
    ensures
        r == round_to_single(p as nat),
{
    let mut unit: u64 = 1;
    let ghost mut k: nat = 0;
    proof {
        lemma2_to64();
    }
    while p / unit >= SIGNIFICAND_RANGE
        invariant
            unit == pow2(k),
            1 <= unit <= 256,
            k <= 8,
            p < 4294967296,
            excess_digits(p as nat) == k + excess_digits((p / unit) as nat),
        decreases 256 - unit,
    {
        proof {
            lemma2_to64();
            lemma_pow2_unfold(k + 1);
            lemma_div_denominator(p as int, unit as int, 2);
            if unit == 256 {
                assert(p / 256 < 16777216);
            }
            assert(unit < 256);
            assert(k < 8);
            if k + 1 < 8 {
                lemma_pow2_strictly_increases(k + 1, 8);
            }
            assert(pow2(k + 1) <= 256);
            k = k + 1;
        }
        unit = unit * 2;
    }
    let q: u64 = p / unit;
    let rest: u64 = p % unit;
    assert(excess_digits((p / unit) as nat) == 0);
    if 2 * rest > unit || (2 * rest == unit && q % 2 == 1) {
        assert((q + 1) * unit <= 4294967296 + 256) by (nonlinear_arith)
            requires
                q < 16777216,
                unit <= 256,
        ;
        (q + 1) * unit
    } else {
        assert(q * unit <= p) by {
            lemma_fundamental_div_mod(p as int, unit as int);
            assert(unit * q == q * unit) by (nonlinear_arith);
        }
        q * unit
    }
}

/// Rounding moves a product by less than one unit of its last kept digit:
/// a product below 2^32 rounds to at most 2^32, one of at least 2^23 stays
/// at least 2^23, and one below 2^24 is kept as it is.
pub proof fn lemma_round_to_single_bounds(p: nat)
    requires
        p < 4294967296,
    ensures
        round_to_single(p) <= 4294967296,
        p >= 8388608 ==> round_to_single(p) >= 8388608,
        p < 16777216 ==> round_to_single(p) == p,
{
    lemma_excess_digits(p);
    let k = excess_digits(p);
    let unit = pow2(k);
    let q = p / unit;
    lemma_pow2_pos(k);
    lemma2_to64();
    lemma_fundamental_div_mod(p as int, unit as int);
    assert(unit * q == q * unit) by (nonlinear_arith);
    assert(q * unit <= p);
    assert((q + 1) * unit == q * unit + unit) by (nonlinear_arith);
    lemma_excess_digits_range(p);
    if p < 16777216 {
        assert(unit == 1);
        assert(p / 1 == p && p % 1 == 0);
        assert(q == p);
        assert(p % unit == 0);
        assert(q * unit == p);
    } else {
        assert(q >= 8388608);
        assert(q * unit >= 8388608) by (nonlinear_arith)
            requires
                q >= 8388608,
                unit >= 1,
        ;
    }
}

/// A number of 25 binary digits or more, cut by its digits beyond 24, has
/// exactly 24 digits left. A number below 2^32 has at most 8 digits
/// beyond 24.
pub proof fn lemma_excess_digits(p: nat)
    ensures
        p < 16777216 ==> excess_digits(p) == 0,
        p >= 16777216 ==> 8388608 <= p / pow2(excess_digits(p)) < 16777216,
        p < 4294967296 ==> excess_digits(p) <= 8,
    decreases p,
{
    lemma2_to64();
    if p >= 16777216 {
        lemma_excess_digits(p / 2);
        let k = excess_digits(p / 2);
        lemma_pow2_unfold(k + 1);
        lemma_pow2_pos(k);
        lemma_div_denominator(p as int, 2, pow2(k) as int);
        assert(2 * pow2(k) == pow2(k + 1));
        if p / 2 < 16777216 {
            assert(k == 0);
            assert(pow2(1) == 2);
        }
        if p < 4294967296 {
            let e = excess_digits(p);
            let unit = pow2(e);
            let q = p / unit;
            lemma_pow2_pos(e);
            lemma_fundamental_div_mod(p as int, unit as int);
            assert(unit * q == q * unit) by (nonlinear_arith);
            if e >= 9 {
                if e > 9 {
                    lemma_pow2_strictly_increases(9, e);
                }
                assert(pow2(9) == 512);
                assert(q * unit >= 8388608 * 512) by (nonlinear_arith)
                    requires
                        q >= 8388608,
                        unit >= 512,
                ;
            }
        }
    }
}

/// Rounding up a product below 2^32 cannot pass 2^32.
pub proof fn lemma_excess_digits_range(p: nat)
    requires
        p < 4294967296,
    ensures
        (p / pow2(excess_digits(p)) + 1) * pow2(excess_digits(p)) <= 4294967296,
{
    lemma_excess_digits(p);
    lemma2_to64();
    let k = excess_digits(p);
    let unit = pow2(k);
    let q = p / unit;
    lemma_pow2_pos(k);
    lemma_fundamental_div_mod(p as int, unit as int);
    assert(unit * q == q * unit) by (nonlinear_arith);
    if p < 16777216 {
        assert(unit == 1);
        assert(p / 1 == p);
        assert(q == p);
        assert((q + 1) * 1 == q + 1) by (nonlinear_arith);
    } else {
        let top: nat = pow2((32 - k) as nat);
        lemma_pow2_adds((32 - k) as nat, k);
        assert(top * unit == 4294967296);
        if q >= top {
            assert(q * unit >= top * unit) by (nonlinear_arith)
                requires
                    q >= top,
                    unit >= 1,
            ;
        }
        assert((q + 1) * unit <= top * unit) by (nonlinear_arith)
            requires
                q + 1 <= top,
                unit >= 1,
        ;
    }
}

/// Rounding never carries a product past a multiple of 256 that lies at
/// or above it: such a multiple can be written with the digits that are
/// kept.
pub proof fn lemma_round_stays_below_multiple(p: nat, m: nat)
    requires
        p < 4294967296,
        p <= m,
        m % 256 == 0,
    ensures
        round_to_single(p) <= m,
{
    lemma_excess_digits(p);
    lemma2_to64();
    let k = excess_digits(p);
    let unit = pow2(k);
    let q = p / unit;
    lemma_pow2_pos(k);
    lemma_pow2_pos((8 - k) as nat);
    lemma_pow2_adds((8 - k) as nat, k);
    lemma_fundamental_div_mod(p as int, unit as int);
    lemma_fundamental_div_mod(m as int, 256);
    assert(unit * q == q * unit) by (nonlinear_arith);
    let parts: nat = (m / 256) * pow2((8 - k) as nat);
    assert(parts * unit == m) by (nonlinear_arith)
        requires
            parts == (m / 256) * pow2((8 - k) as nat),
            pow2((8 - k) as nat) * unit == 256,
            m == 256 * (m / 256),
    ;
    assert((q + 1) * unit == q * unit + unit) by (nonlinear_arith);
    if p < m {
        if q >= parts {
            assert(q * unit >= parts * unit) by (nonlinear_arith)
                requires
                    q >= parts,
                    unit >= 1,
            ;
        }
        assert((q + 1) * unit <= parts * unit) by (nonlinear_arith)
            requires
                q + 1 <= parts,
                unit >= 1,
        ;
    } else {
        vstd::arithmetic::div_mod::lemma_div_by_multiple(parts as int, unit as int);
        vstd::arithmetic::div_mod::lemma_mod_multiples_basic(parts as int, unit as int);
        assert(q == parts);
        assert(p % unit == 0);
    }
}

/// On a pixel that is covered in full, coverage 1, a watermark keeps its
/// nominal opacity.
pub proof fn lemma_full_coverage_keeps_opacity(alpha: u8)
    ensures
        (Coverage { bits: 1065353216 }).weighted(alpha) == alpha,
{
    let c = Coverage { bits: 1065353216 };
    assert(c.exponent_field() == 127 && c.fraction() == 0);
    if alpha > 0 {
        let p: nat = alpha as nat * 8388608;
        assert(c.significand() == 8388608);
        assert(c.exponent() == -23);
        lemma2_to64();
        assert(p % 256 == 0 && p < 4294967296);
        lemma_round_stays_below_multiple(p, p);
        lemma_round_to_single_bounds(p);
        lemma_round_not_below_multiple(p, p);
        assert(round_to_single(p) == p);
        assert(pow2(23) == 8388608);
        assert(p / 8388608 == alpha);
    }
}

/// Rounding never carries a product below a multiple of 256 that lies at
/// or below it.
pub proof fn lemma_round_not_below_multiple(p: nat, m: nat)
    requires
        p < 4294967296,
        m <= p,
        m % 256 == 0,
    ensures
        round_to_single(p) >= m,
{
    lemma_excess_digits(p);
    lemma2_to64();
    let k = excess_digits(p);
    let unit = pow2(k);
    let q = p / unit;
    lemma_pow2_pos(k);
    lemma_pow2_pos((8 - k) as nat);
    lemma_pow2_adds((8 - k) as nat, k);
    lemma_fundamental_div_mod(p as int, unit as int);
    lemma_fundamental_div_mod(m as int, 256);
    assert(unit * q == q * unit) by (nonlinear_arith);
    let parts: nat = (m / 256) * pow2((8 - k) as nat);
    assert(parts * unit == m) by (nonlinear_arith)
        requires
            parts == (m / 256) * pow2((8 - k) as nat),
            pow2((8 - k) as nat) * unit == 256,
            m == 256 * (m / 256),
    ;
    assert((q + 1) * unit == q * unit + unit) by (nonlinear_arith);
    if q < parts {
        assert((q + 1) * unit <= parts * unit) by (nonlinear_arith)
            requires
                q + 1 <= parts,
                unit >= 1,
        ;
    } else {
        assert(q * unit >= parts * unit) by (nonlinear_arith)
            requires
                q >= parts,
                unit >= 1,
        ;
    }
}

/// Coverage between 0 and 1 never raises the opacity of a watermark above
/// its nominal one. The encodings of the numbers from 0 to 1 are those up
/// to the encoding of 1.
pub proof fn lemma_weighted_at_most_alpha(c: Coverage, alpha: u8)
    requires
        c.bits <= 1065353216,
    ensures
        0 <= c.weighted(alpha) <= alpha,
{
    lemma2_to64();
    if c.is_positive() && alpha > 0 {
        let field = c.exponent_field();
        assert(field <= 127);
        assert(field == 127 ==> c.fraction() == 0);
        let sig = c.significand();
        let p: nat = alpha as nat * sig;
        let shift: nat = (-c.exponent()) as nat;
        assert(shift >= 23);
        let m: nat = if field == 127 {
            alpha as nat * 8388608
        } else {
            alpha as nat * 16777216
        };
        assert(p <= m && p < 4294967296) by (nonlinear_arith)
            requires
                p == alpha as nat * sig,
                m == (if field == 127 {
                    alpha as nat * 8388608
                } else {
                    alpha as nat * 16777216
                }),
                field == 127 ==> sig == 8388608,
                sig < 16777216,
                alpha < 256,
        ;
        lemma_round_stays_below_multiple(p, m);
        let r = round_to_single(p);
        let d: nat = if field == 127 {
            8388608
        } else {
            16777216
        };
        assert(pow2(23) == 8388608 && pow2(24) == 16777216);
        if field == 127 {
            assert(shift == 23);
        } else {
            assert(shift >= 24);
            if shift > 24 {
                lemma_pow2_strictly_increases(24, shift);
            }
        }
        assert(pow2(shift) >= d);
        lemma_pow2_pos(shift);
        // r <= alpha * d <= alpha * 2^shift
        assert(r <= alpha * pow2(shift)) by (nonlinear_arith)
            requires
                r <= alpha * d,
                pow2(shift) >= d,
                alpha >= 0,
        ;
        vstd::arithmetic::div_mod::lemma_div_is_ordered(
            r as int,
            alpha as int * pow2(shift) as int,
            pow2(shift) as int,
        );
        vstd::arithmetic::div_mod::lemma_div_by_multiple(alpha as int, pow2(shift) as int);
        assert(scaled_floor(r, c.exponent()) == r / pow2(shift));
    }
}

} // verus!

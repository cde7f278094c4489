//! Positions in the frame sequence as exact binary fractions.
//!
//! A position is a real number: its integer part picks the primary frame, its
//! distance to the nearest integer is the weight of the neighbouring frame.
//! Positions arrive as IEEE 754 binary64 bit patterns and are decoded here
//! without rounding, so every decision taken on them is exact.

use vstd::arithmetic::div_mod::*;
use vstd::arithmetic::power2::*;
use vstd::bits::*;
use vstd::prelude::*;

verus! {

/// The sign bit of a binary64 pattern.
pub const SIGN_BIT: u64 = 0x8000_0000_0000_0000;

/// The implicit leading bit of a normal binary64 significand, `2^52`.
pub const HIDDEN_BIT: u64 = 0x10_0000_0000_0000;

/// The exponent field of infinities and NaNs.
pub const EXPONENT_SPECIAL: u64 = 0x7ff;

/// The exponent field of values whose unit in the last place is one.
pub const EXPONENT_UNIT: u64 = 1075;

/// The largest number of fractional binary digits of a binary64 value.
pub const MAX_SCALE: u32 = 1074;

/// Positions keep fractional parts below `2^117`: the product of a
/// significand and a frame count.
pub const PART_BITS: u32 = 117;

/// The largest power of two that the arithmetic on fractional parts forms.
pub const MAX_SHIFT: u32 = 125;

/// The alpha that stands for a blend weight of one half.
pub const HALF_ALPHA: u8 = 128;

/// A non-negative rational number `num / den` with `den > 0`.
pub struct Ratio {
    pub num: nat,
    pub den: nat,
}

impl Ratio {
    /// The largest integer that is not above the number.
    pub open spec fn floor(self) -> nat {
        self.num / self.den
    }

    /// The numerator of the fractional part over `den`.
    pub open spec fn excess(self) -> nat {
        self.num % self.den
    }

    /// Whether the number lies strictly above the integer nearest to it,
    /// halves counting as nearest to the integer above them.
    pub open spec fn above_nearest(self) -> bool {
        0 < 2 * self.excess() < self.den
    }

    /// The numerator, over `den`, of the distance to the nearest integer.
    pub open spec fn gap(self) -> nat {
        if 2 * self.excess() < self.den {
            self.excess()
        } else {
            (self.den - self.excess()) as nat
        }
    }

    /// The frame to blend with: the one below the primary frame where the
    /// number lies above its nearest integer, else the one above.
    pub open spec fn neighbor(self) -> int {
        if self.above_nearest() {
            self.floor() - 1
        } else {
            self.floor() as int + 1
        }
    }

    /// The distance to the nearest integer in 256ths, rounded down.
    pub open spec fn blend_alpha(self) -> nat {
        (256 * self.gap()) / self.den
    }
}

/// Whether the sign bit of the pattern is set.
pub open spec fn binary64_sign(bits: u64) -> bool {
    bits >= SIGN_BIT
}

/// The biased exponent field of the pattern.
pub open spec fn binary64_exponent(bits: u64) -> nat {
    ((bits / HIDDEN_BIT) % 0x800) as nat
}

/// The significand of the pattern: its fraction field, with the hidden bit
/// for a normal number.
pub open spec fn binary64_significand(bits: u64) -> nat {
    if binary64_exponent(bits) == 0 {
        (bits % HIDDEN_BIT) as nat
    } else {
        (HIDDEN_BIT + bits % HIDDEN_BIT) as nat
    }
}

/// Whether the pattern is a finite number that is not negative; both zeros
/// are.
pub open spec fn binary64_is_magnitude(bits: u64) -> bool {
    &&& binary64_exponent(bits) != EXPONENT_SPECIAL
    &&& binary64_sign(bits) ==> binary64_significand(bits) == 0
}

/// The absolute value of a finite pattern: `significand * 2^(exponent - 1075)`,
/// a subnormal pattern having the exponent of the smallest normal one.
pub open spec fn binary64_ratio(bits: u64) -> Ratio {
    let exponent = binary64_exponent(bits);
    let significand = binary64_significand(bits);
    if exponent >= EXPONENT_UNIT {
        Ratio { num: significand * pow2((exponent - EXPONENT_UNIT) as nat), den: 1 }
    } else if exponent == 0 {
        Ratio { num: significand, den: pow2(MAX_SCALE as nat) }
    } else {
        Ratio { num: significand, den: pow2((EXPONENT_UNIT - exponent) as nat) }
    }
}

/// The blend weight never exceeds one half: the alpha of a position is at
/// most 128.
pub proof fn lemma_alpha_at_most_half(position: Ratio)
    requires
        position.den > 0,
    ensures
        position.blend_alpha() <= HALF_ALPHA,
{
    let gap = position.gap() as int;
    let den = position.den as int;
    lemma_mod_pos_bound(position.num as int, den);
    assert((256 * gap) / den <= 128) by (nonlinear_arith)
        requires
            2 * gap <= den,
            den > 0,
    ;
}

/// At the integer position `k` the primary frame is `k`, the frame to blend
/// with is the next one, and its weight is zero.
pub proof fn lemma_integer_position(position: Ratio, k: nat)
    requires
        position.den > 0,
        position.num == k * position.den,
    ensures
        position.floor() == k,
        position.neighbor() == k + 1,
        position.blend_alpha() == 0,
{
    lemma_fundamental_div_mod_converse(position.num as int, position.den as int, k as int, 0);
}

/// Exactly halfway between the integers `k` and `k + 1` the primary frame is
/// `k`, the frame to blend with is `k + 1`, and the weight is one half.
pub proof fn lemma_midpoint_position(position: Ratio, k: nat)
    requires
        position.den > 0,
        2 * position.num == (2 * k + 1) * position.den,
    ensures
        position.floor() == k,
        position.neighbor() == k + 1,
        position.blend_alpha() == HALF_ALPHA,
{
    let num = position.num as int;
    let den = position.den as int;
    let half = num - k * den;
    assert((2 * k + 1) * den == 2 * (k * den) + den) by (nonlinear_arith);
    assert(2 * half == den);
    lemma_fundamental_div_mod_converse(num, den, k as int, half);
    assert(position.gap() == half);
    assert((256 * half) / den == 128) by (nonlinear_arith)
        requires
            2 * half == den,
            den > 0,
    ;
}

/// Strictly between zero and one half the primary frame is the first one
/// and the frame to blend with would lie before it.
pub proof fn lemma_below_first_half(position: Ratio)
    requires
        0 < 2 * position.num < position.den,
    ensures
        position.floor() == 0,
        position.neighbor() == -1,
{
    lemma_fundamental_div_mod_converse(
        position.num as int,
        position.den as int,
        0,
        position.num as int,
    );
}

/// From `count - 1/2` up to `count` the primary frame is the last of `count`
/// frames and the frame to blend with would lie after it.
pub proof fn lemma_within_last_half(position: Ratio, count: nat)
    requires
        position.den > 0,
        count >= 1,
        (2 * count - 1) * position.den <= 2 * position.num < 2 * count * position.den,
    ensures
        position.floor() == count - 1,
        position.neighbor() == count,
{
    let num = position.num as int;
    let den = position.den as int;
    let rest = num - (count - 1) * den;
    assert((2 * count - 1) * den == 2 * ((count - 1) * den) + den && 2 * count * den == 2 * ((count
        - 1) * den) + 2 * den) by (nonlinear_arith);
    lemma_fundamental_div_mod_converse(num, den, count - 1, rest);
}

/// Powers of two grow with the exponent.
pub proof fn lemma_pow2_monotonic(lo: nat, hi: nat)
    requires
        lo <= hi,
    ensures
        0 < pow2(lo) <= pow2(hi),
{
    lemma_pow2_pos(lo);
    if lo < hi {
        lemma_pow2_strictly_increases(lo, hi);
    }
}

pub(crate) proof fn lemma_pow2_values()
    ensures
        pow2(0) == 1,
        pow2(8) == 0x100,
        pow2(11) == 0x800,
        pow2(12) == 0x1000,
        pow2(53) == 0x20_0000_0000_0000,
        pow2(62) == 0x4000_0000_0000_0000,
        pow2(63) == 0x8000_0000_0000_0000,
        pow2(64) == 0x1_0000_0000_0000_0000,
        pow2(117) == 0x20_0000_0000_0000_0000_0000_0000_0000,
        pow2(125) == 0x2000_0000_0000_0000_0000_0000_0000_0000,
{
    lemma2_to64();
    lemma2_to64_rest();
    lemma_pow2_adds(64, 53);
    lemma_pow2_adds(117, 8);
}

fn pow2_u64(e: u32) -> (out: u64)
    requires
        e < 64,
    ensures
        out == pow2(e as nat),
        out > 0,
{
    proof {
        lemma_u64_pow2_no_overflow(e as nat);
        lemma_u64_shl_is_mul(1, e as u64);
    }
    1u64 << (e as u64)
}

pub(crate) fn pow2_u128(e: u32) -> (out: u128)
    requires
        e <= MAX_SHIFT,
    ensures
        out == pow2(e as nat),
        out > 0,
{
    let low: u32 = if e > 63 {
        63
    } else {
        e
    };
    let high: u32 = e - low;
    let a = pow2_u64(low);
    let b = pow2_u64(high);
    proof {
        lemma_pow2_adds(low as nat, high as nat);
        lemma_pow2_monotonic(low as nat, 63);
        lemma_pow2_monotonic(high as nat, 62);
        lemma_pow2_values();
        assert(a * b <= 0x8000_0000_0000_0000 * 0x4000_0000_0000_0000) by (nonlinear_arith)
            requires
                a <= 0x8000_0000_0000_0000,
                b <= 0x4000_0000_0000_0000,
        ;
    }
    a as u128 * b as u128
}

/// A finite binary64 magnitude taken apart: `significand * 2^up / 2^scale`,
/// where `up` and `scale` are not both positive.
pub(crate) struct Binary64 {
    pub significand: u64,
    pub up: u32,
    pub scale: u32,
}

impl Binary64 {
    pub(crate) open spec fn describes(self, bits: u64) -> bool {
        &&& self.significand < HIDDEN_BIT * 2
        &&& self.up <= 971
        &&& self.scale <= MAX_SCALE
        &&& self.up == 0 || self.scale == 0
        &&& self.up > 0 ==> self.significand >= HIDDEN_BIT
        &&& binary64_ratio(bits) == if self.scale == 0 {
            Ratio { num: self.significand as nat * pow2(self.up as nat), den: 1 }
        } else {
            Ratio { num: self.significand as nat, den: pow2(self.scale as nat) }
        }
    }
}

/// Takes a bit pattern apart, if it is a finite number that is not negative.
pub(crate) fn decode(bits: u64) -> (out: Option<Binary64>)
    ensures
        out.is_some() <==> binary64_is_magnitude(bits),
        out matches Some(parts) ==> parts.describes(bits),
{
    let exponent = (bits / HIDDEN_BIT) % 0x800;
    let fraction = bits % HIDDEN_BIT;
    if exponent == EXPONENT_SPECIAL {
        return None;
    }
    let significand = if exponent == 0 {
        fraction
    } else {
        HIDDEN_BIT + fraction
    };
    if bits >= SIGN_BIT && significand != 0 {
        return None;
    }
    proof {
        lemma_pow2_values();
    }
    if exponent >= EXPONENT_UNIT {
        Some(Binary64 { significand, up: (exponent - EXPONENT_UNIT) as u32, scale: 0 })
    } else if exponent == 0 {
        Some(Binary64 { significand, up: 0, scale: MAX_SCALE })
    } else {
        Some(Binary64 { significand, up: 0, scale: (EXPONENT_UNIT - exponent) as u32 })
    }
}

/// Whether the bit pattern is a finite number that is not negative.
pub fn is_magnitude(bits: u64) -> (out: bool)
    ensures
        out == binary64_is_magnitude(bits),
{
    decode(bits).is_some()
}

/// A position in a frame sequence: `whole + part / 2^scale`.
#[derive(Clone, Copy, Debug)]
pub struct SourcePosition {
    whole: usize,
    part: u128,
    scale: u32,
}

impl View for SourcePosition {
    type V = Ratio;

    closed spec fn view(&self) -> Ratio {
        Ratio {
            num: self.whole as nat * pow2(self.scale as nat) + self.part as nat,
            den: pow2(self.scale as nat),
        }
    }
}

impl SourcePosition {
    #[verifier::type_invariant]
    spec fn well_formed(self) -> bool {
        &&& self.scale <= MAX_SCALE
        &&& self.part < pow2(PART_BITS as nat)
        &&& self.part < pow2(self.scale as nat)
    }

    proof fn lemma_parts(self)
        requires
            self.well_formed(),
        ensures
            self@.den > 0,
            self@.floor() == self.whole,
            self@.excess() == self.part,
    {
        let den = pow2(self.scale as nat);
        lemma_pow2_pos(self.scale as nat);
        lemma_fundamental_div_mod_converse(
            self@.num as int,
            den as int,
            self.whole as int,
            self.part as int,
        );
    }

    /// The position `whole + part / 2^scale`.
    pub(crate) fn from_parts(whole: usize, part: u128, scale: u32) -> (out: SourcePosition)
        requires
            scale <= MAX_SCALE,
            part < pow2(PART_BITS as nat),
            part < pow2(scale as nat),
        ensures
            out@ == (Ratio {
                num: whole as nat * pow2(scale as nat) + part as nat,
                den: pow2(scale as nat),
            }),
            out@.den > 0,
            out@.floor() == whole,
            out@.excess() == part,
    {
        let out = SourcePosition { whole, part, scale };
        proof {
            out.lemma_parts();
        }
        out
    }

    /// Decodes a binary64 bit pattern into a position of a sequence of
    /// `frame_count` frames. The pattern has to be a finite number in
    /// `[0, frame_count)`; its value is kept exactly.
    pub fn from_bits(bits: u64, frame_count: usize) -> (out: Option<SourcePosition>)
        ensures
            out.is_some() <==> binary64_is_magnitude(bits) && binary64_ratio(bits).floor()
                < frame_count,
            out matches Some(position) ==> position@ == binary64_ratio(bits),
    {
        let parts = match decode(bits) {
            Some(parts) => parts,
            None => {
                return None;
            },
        };
        let significand = parts.significand;
        proof {
            lemma_pow2_values();
        }
        if parts.scale == 0 {
            if parts.up > 11 {
                proof {
                    lemma_pow2_monotonic(12, parts.up as nat);
                    assert(significand * pow2(parts.up as nat) >= 0x1_0000_0000_0000_0000)
                        by (nonlinear_arith)
                        requires
                            significand >= 0x10_0000_0000_0000,
                            pow2(parts.up as nat) >= 0x1000,
                    ;
                }
                return None;
            }
            let factor = pow2_u64(parts.up);
            proof {
                lemma_pow2_monotonic(parts.up as nat, 11);
                assert(significand * factor <= 0xffff_ffff_ffff_ffff) by (nonlinear_arith)
                    requires
                        significand < 0x20_0000_0000_0000,
                        factor <= 0x800,
                ;
            }
            let whole = significand * factor;
            if whole >= frame_count as u64 {
                return None;
            }
            Some(SourcePosition::from_parts(whole as usize, 0, 0))
        } else if parts.scale >= 64 {
            proof {
                lemma_pow2_monotonic(64, parts.scale as nat);
                lemma_basic_div(significand as int, pow2(parts.scale as nat) as int);
            }
            if frame_count == 0 {
                return None;
            }
            Some(SourcePosition::from_parts(0, significand as u128, parts.scale))
        } else {
            let den = pow2_u64(parts.scale);
            let whole = significand / den;
            let part = significand % den;
            if whole >= frame_count as u64 {
                return None;
            }
            proof {
                lemma_fundamental_div_mod(significand as int, den as int);
                assert(den * whole == whole * den) by (nonlinear_arith);
            }
            Some(SourcePosition::from_parts(whole as usize, part as u128, parts.scale))
        }
    }

    /// The primary frame: the integer part of the position.
    pub fn primary(&self) -> (out: usize)
        ensures
            out == self@.floor(),
    {
        proof {
            use_type_invariant(self);
            self.lemma_parts();
        }
        self.whole
    }

    /// Whether the position lies strictly above the integer nearest to it.
    pub fn above_nearest(&self) -> (out: bool)
        ensures
            out == self@.above_nearest(),
    {
        proof {
            use_type_invariant(self);
            self.lemma_parts();
            lemma_pow2_values();
        }
        if self.part == 0 {
            false
        } else if self.scale > MAX_SHIFT {
            proof {
                lemma_pow2_monotonic(125, self.scale as nat);
            }
            true
        } else {
            let den = pow2_u128(self.scale);
            self.part < den - self.part
        }
    }

    /// The frame to blend with, if the sequence of `frame_count` frames has
    /// it: the primary frame's lower neighbour where the position lies above
    /// its nearest integer, else its upper neighbour.
    pub fn neighbor(&self, frame_count: usize) -> (out: Option<usize>)
        ensures
            out == if 0 <= self@.neighbor() < frame_count {
                Some(self@.neighbor() as usize)
            } else {
                None
            },
    {
        let primary = self.primary();
        if self.above_nearest() {
            if primary == 0 || primary - 1 >= frame_count {
                None
            } else {
                Some(primary - 1)
            }
        } else {
            if primary >= frame_count || primary + 1 >= frame_count {
                None
            } else {
                Some(primary + 1)
            }
        }
    }

    /// The blend weight scaled to the alpha range: the distance to the
    /// nearest integer in 256ths, rounded down.
    pub fn blend_alpha(&self) -> (out: u8)
        ensures
            out == self@.blend_alpha(),
            out <= HALF_ALPHA,
    {
        proof {
            use_type_invariant(self);
            self.lemma_parts();
            lemma_pow2_values();
        }
        if self.scale > MAX_SHIFT {
            proof {
                lemma_pow2_monotonic(125, self.scale as nat);
                lemma_basic_div(256 * self.part as int, pow2(self.scale as nat) as int);
            }
            0
        } else {
            let den = pow2_u128(self.scale);
            let gap = if self.part < den - self.part {
                self.part
            } else {
                den - self.part
            };
            proof {
                assert((256 * gap) / (den as int) <= 128) by (nonlinear_arith)
                    requires
                        2 * gap <= den,
                        den > 0,
                ;
            }
            ((256 * gap) / den) as u8
        }
    }
}

} // verus!

//! From a pixel's angle and an output index to a position in the sequence.
//!
//! Angles are measured in turns: the angle divided by a full circle. Output
//! frame `index` of `count` rotates the angular reference by `index / count`
//! of a turn, so that over the whole output the seam sweeps the circle once.

use crate::position::{
    binary64_is_magnitude, binary64_ratio, decode, lemma_pow2_monotonic, lemma_pow2_values,
    pow2_u128, Ratio, SourcePosition, PART_BITS,
};
use vstd::arithmetic::div_mod::*;
use vstd::arithmetic::power2::*;
use vstd::prelude::*;

verus! {

/// The position that a pixel at angle `turn` samples in output frame
/// `index` of `count`: the fractional part of `turn + index / count`, times
/// `count`.
pub open spec fn resolve_spec(turn: Ratio, index: nat, count: nat) -> Ratio {
    Ratio { num: (turn.num * count + index * turn.den) % (count * turn.den), den: turn.den }
}

/// The resolved position has the integer part
/// `(floor(turn * count) + index) mod count` and the fractional part of
/// `turn * count`.
pub proof fn lemma_resolve_parts(turn: Ratio, index: nat, count: nat)
    requires
        turn.den > 0,
        count > 0,
    ensures
        resolve_spec(turn, index, count).floor() == ((turn.num * count) / turn.den + index)
            % count,
        resolve_spec(turn, index, count).excess() == (turn.num * count) % turn.den,
        resolve_spec(turn, index, count).num == (((turn.num * count) / turn.den + index) % count)
            * turn.den + (turn.num * count) % turn.den,
{
    let den = turn.den as int;
    let n = count as int;
    let product = (turn.num * count) as int;
    let q = product / den;
    let r = product % den;
    let t = q + index;
    let k = t / n;
    let w = t % n;
    let x = product + index * den;
    lemma_fundamental_div_mod(product, den);
    lemma_fundamental_div_mod(t, n);
    lemma_mod_pos_bound(product, den);
    lemma_mod_pos_bound(t, n);
    assert(x == k * (n * den) + (w * den + r)) by (nonlinear_arith)
        requires
            x == product + index * den,
            product == den * q + r,
            t == q + index,
            t == n * k + w,
    ;
    assert(0 <= w * den + r < n * den) by (nonlinear_arith)
        requires
            0 <= w < n,
            0 <= r < den,
    ;
    lemma_fundamental_div_mod_converse(x, n * den, k, w * den + r);
    lemma_fundamental_div_mod_converse(w * den + r, den, w, r);
}

/// Every resolved position lies in `[0, count)`.
pub proof fn lemma_resolved_in_range(turn: Ratio, index: nat, count: nat)
    requires
        turn.den > 0,
        count > 0,
    ensures
        resolve_spec(turn, index, count).floor() < count,
        resolve_spec(turn, index, count).num < count * turn.den,
{
    lemma_resolve_parts(turn, index, count);
    lemma_mod_pos_bound(((turn.num * count) / turn.den + index) as int, count as int);
    assert(count * turn.den > 0) by (nonlinear_arith)
        requires
            count > 0,
            turn.den > 0,
    ;
    lemma_mod_pos_bound((turn.num * count + index * turn.den) as int, (count * turn.den) as int);
}

/// The next output frame moves every pixel on by one source frame, around
/// the end of the sequence, and keeps its blend weight.
pub proof fn lemma_next_index_advances(turn: Ratio, index: nat, count: nat)
    requires
        turn.den > 0,
        count > 0,
    ensures
        resolve_spec(turn, index + 1, count).floor() == (resolve_spec(turn, index, count).floor()
            + 1) % count,
        resolve_spec(turn, index + 1, count).excess() == resolve_spec(turn, index, count).excess(),
{
    lemma_resolve_parts(turn, index, count);
    lemma_resolve_parts(turn, index + 1, count);
    let t = ((turn.num * count) / turn.den + index) as int;
    lemma_add_mod_noop_right(1, t, count as int);
}

/// After `count` output frames every pixel is back where it started.
pub proof fn lemma_full_sweep_returns(turn: Ratio, index: nat, count: nat)
    requires
        turn.den > 0,
        count > 0,
    ensures
        resolve_spec(turn, index + count, count) == resolve_spec(turn, index, count),
{
    let m = (count * turn.den) as int;
    let x = (turn.num * count + index * turn.den) as int;
    assert(m > 0 && (turn.num * count + (index + count) * turn.den) == m + x) by (nonlinear_arith)
        requires
            count > 0,
            turn.den > 0,
            m == count * turn.den,
            x == turn.num * count + index * turn.den,
    ;
    lemma_mod_add_multiples_vanish(x, m);
}

/// Resolves the position that a pixel samples in output frame
/// `output_index` of `frame_count`. The pixel's angle is given in turns as a
/// binary64 bit pattern, which has to be a finite number that is not
/// negative; the position is computed without rounding.
pub fn resolve(turn_bits: u64, output_index: usize, frame_count: usize) -> (out: Option<
    SourcePosition,
>)
    ensures
        out.is_some() <==> binary64_is_magnitude(turn_bits) && frame_count > 0,
        out matches Some(position) ==> {
            &&& position@ == resolve_spec(
                binary64_ratio(turn_bits),
                output_index as nat,
                frame_count as nat,
            )
            &&& position@.floor() < frame_count
        },
{
    if frame_count == 0 {
        return None;
    }
    let parts = match decode(turn_bits) {
        Some(parts) => parts,
        None => {
            return None;
        },
    };
    let ghost turn = binary64_ratio(turn_bits);
    proof {
        lemma_pow2_values();
        lemma_pow2_pos(parts.scale as nat);
        lemma_resolve_parts(turn, output_index as nat, frame_count as nat);
        lemma_resolved_in_range(turn, output_index as nat, frame_count as nat);
    }
    if parts.scale == 0 {
        proof {
            lemma_mod_multiples_vanish(turn.num as int, output_index as int, frame_count as int);
            assert(frame_count * turn.num == turn.num * frame_count) by (nonlinear_arith);
            assert(resolve_spec(turn, output_index as nat, frame_count as nat).num
                == output_index % frame_count);
        }
        Some(SourcePosition::from_parts(output_index % frame_count, 0, 0))
    } else {
        let count = frame_count as u128;
        assert(parts.significand * count < 0x20_0000_0000_0000 * 0x1_0000_0000_0000_0000)
            by (nonlinear_arith)
            requires
                parts.significand < 0x20_0000_0000_0000,
                count < 0x1_0000_0000_0000_0000,
        ;
        let product = parts.significand as u128 * count;
        let (quotient, rest) = if parts.scale > PART_BITS {
            proof {
                lemma_pow2_monotonic(117, parts.scale as nat);
                lemma_basic_div(product as int, pow2(parts.scale as nat) as int);
                lemma_small_mod(product as nat, pow2(parts.scale as nat));
            }
            (0, product)
        } else {
            let den = pow2_u128(parts.scale);
            proof {
                lemma_mod_pos_bound(product as int, den as int);
                lemma_mod_decreases(product as nat, den as nat);
            }
            (product / den, product % den)
        };
        let whole = (quotient + output_index as u128) % count;
        Some(SourcePosition::from_parts(whole as usize, rest, parts.scale))
    }
}

} // verus!

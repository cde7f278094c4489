//! Sampling the frame sequence at a fractional position.

use crate::frame::Raster;
use crate::pixel::{composite, composite_spec, Rgb};
use crate::position::{
    lemma_below_first_half, lemma_midpoint_position, lemma_within_last_half, Ratio,
    SourcePosition, HALF_ALPHA,
};
use crate::sequence::FrameSequence;
use vstd::prelude::*;

verus! {

/// The colour of pixel `(x, y)` at `position` in the sequence: the primary
/// frame's pixel, with the neighbouring frame's pixel laid over it at the
/// blend weight where the sequence has that neighbour.
pub open spec fn sample_spec(frames: Seq<Raster>, position: Ratio, x: int, y: int) -> Rgb {
    let primary = frames[position.floor() as int].pixel(x, y);
    let neighbor = position.neighbor();
    if 0 <= neighbor < frames.len() {
        composite_spec(primary, frames[neighbor].pixel(x, y), position.blend_alpha() as u8)
    } else {
        primary
    }
}

/// Samples pixel `(x, y)` of the sequence at `position`.
///
/// The integer part of the position selects the primary frame. The frame to
/// blend with is the one below it where the position lies above its nearest
/// integer, else the one above it; where that frame is outside the sequence
/// the primary pixel is returned as it is, so nothing is blended across the
/// ends of the sequence.
pub fn sample(frames: &FrameSequence, position: &SourcePosition, x: u32, y: u32) -> (out: Rgb)
    requires
        position@.floor() < frames@.len(),
        frames.size().contains(x as int, y as int),
    ensures
        out == sample_spec(frames@, position@, x as int, y as int),
{
    let count = frames.len();
    let primary = frames.get_pixel(position.primary(), x, y);
    match position.neighbor(count) {
        Some(index) => {
            let alpha = position.blend_alpha();
            composite(primary, frames.get_pixel(index, x, y), alpha)
        },
        None => primary,
    }
}

/// Nothing is blended across the ends of the sequence: a position strictly
/// between zero and one half yields the first frame's pixel unchanged, and a
/// position from `count - 1/2` up to `count`, for `count` frames, yields the
/// last frame's pixel unchanged.
pub proof fn lemma_sample_keeps_ends(frames: Seq<Raster>, position: Ratio, x: int, y: int)
    requires
        position.den > 0,
        frames.len() >= 1,
    ensures
        0 < 2 * position.num < position.den ==> sample_spec(frames, position, x, y)
            == frames[0].pixel(x, y),
        (2 * frames.len() - 1) * position.den <= 2 * position.num < 2 * frames.len()
            * position.den ==> sample_spec(frames, position, x, y) == frames[frames.len()
            - 1].pixel(x, y),
{
    if 0 < 2 * position.num < position.den {
        lemma_below_first_half(position);
    }
    if (2 * frames.len() - 1) * position.den <= 2 * position.num < 2 * frames.len()
        * position.den {
        lemma_within_last_half(position, frames.len());
    }
}

/// Exactly halfway between frame `k` and frame `k + 1` the sample is frame
/// `k`'s pixel with frame `k + 1`'s pixel laid over it at weight one half.
pub proof fn lemma_sample_midpoint(frames: Seq<Raster>, position: Ratio, k: nat, x: int, y: int)
    requires
        position.den > 0,
        2 * position.num == (2 * k + 1) * position.den,
        k + 1 < frames.len(),
    ensures
        sample_spec(frames, position, x, y) == composite_spec(
            frames[k as int].pixel(x, y),
            frames[k as int + 1].pixel(x, y),
            HALF_ALPHA,
        ),
{
    lemma_midpoint_position(position, k);
}

} // verus!

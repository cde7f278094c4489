//! Assembling one output frame from the source frames.

use crate::frame::OutputFrame;
use crate::pixel::Rgb;
use crate::position::{binary64_is_magnitude, binary64_ratio};
use crate::resolver::{resolve, resolve_spec};
use crate::sampler::{sample, sample_spec};
use crate::sequence::FrameSequence;
use vstd::arithmetic::div_mod::*;
use vstd::prelude::*;

verus! {

/// The colour of pixel `(x, y)` of output frame `index`, for a pixel whose
/// angle is `turn_bits`: the sample of the sequence at the position that the
/// angle and the index resolve to.
pub open spec fn spiral_pixel_spec(
    frames: Seq<crate::frame::Raster>,
    turn_bits: u64,
    index: nat,
    x: int,
    y: int,
) -> Rgb {
    sample_spec(frames, resolve_spec(binary64_ratio(turn_bits), index, frames.len()), x, y)
}

/// Assembles output frame `output_index`. The angles of the pixels come in
/// row-major order, one for each pixel, in turns as binary64 bit patterns
/// that are finite and not negative. Pixel `(x, y)` of the result is the
/// sample of the sequence at the position that its angle resolves to.
pub fn spiralize_frame(frames: &FrameSequence, turns: &[u64], output_index: usize) -> (out:
    OutputFrame)
    requires
        turns@.len() == frames.size().pixels(),
        forall|k: int| 0 <= k < turns@.len() ==> binary64_is_magnitude(#[trigger] turns@[k]),
    ensures
        out@.size == frames.size(),
        forall|x: int, y: int|
            frames.size().contains(x, y) ==> #[trigger] out@.pixel(x, y) == spiral_pixel_spec(
                frames@,
                turns@[frames.size().index(x, y)],
                output_index as nat,
                x,
                y,
            ),
{
    let size = frames.dimensions();
    let count = frames.len();
    let total = turns.len();
    let width = size.width as usize;
    let mut data: Vec<u8> = Vec::new();
    let mut k: usize = 0;
    while k < total
        invariant
            k <= total,
            total == turns@.len(),
            total == frames.size().pixels(),
            size == frames.size(),
            width == size.width,
            count == frames@.len(),
            count >= 2,
            data@.len() == 3 * k,
            forall|j: int| 0 <= j < turns@.len() ==> binary64_is_magnitude(#[trigger] turns@[j]),
            forall|j: int|
                0 <= j < k ==> (Rgb {
                    r: #[trigger] data@[3 * j],
                    g: data@[3 * j + 1],
                    b: data@[3 * j + 2],
                }) == spiral_pixel_spec(
                    frames@,
                    turns@[j],
                    output_index as nat,
                    j % (width as int),
                    j / (width as int),
                ),
        decreases total - k,
    {
        proof {
            let w = size.width as int;
            let h = size.height as int;
            assert(w > 0 && k / width < h) by (nonlinear_arith)
                requires
                    0 <= k < w * h,
                    0 <= w,
                    0 <= h,
                    width == w,
            ;
            lemma_mod_pos_bound(k as int, w);
        }
        let x = (k % width) as u32;
        let y = (k / width) as u32;
        let position = resolve(turns[k], output_index, count).unwrap();
        let pixel = sample(frames, &position, x, y);
        let ghost before = data@;
        data.push(pixel.r);
        data.push(pixel.g);
        data.push(pixel.b);
        proof {
            assert forall|j: int| 0 <= j < k + 1 implies (Rgb {
                r: #[trigger] data@[3 * j],
                g: data@[3 * j + 1],
                b: data@[3 * j + 2],
            }) == spiral_pixel_spec(
                frames@,
                turns@[j],
                output_index as nat,
                j % (width as int),
                j / (width as int),
            ) by {
                if j < k {
                    assert(before[3 * j] == data@[3 * j]);
                    assert(before[3 * j + 1] == data@[3 * j + 1]);
                    assert(before[3 * j + 2] == data@[3 * j + 2]);
                }
            }
        }
        k += 1;
    }
    let out = OutputFrame::from_raw(size.width, size.height, data).unwrap();
    proof {
        assert forall|x: int, y: int| frames.size().contains(x, y) implies #[trigger] out@.pixel(
            x,
            y,
        ) == spiral_pixel_spec(
            frames@,
            turns@[frames.size().index(x, y)],
            output_index as nat,
            x,
            y,
        ) by {
            size.lemma_index_in_range(x, y);
            let j = size.index(x, y);
            assert(data@[3 * j] == out@.bytes[3 * j]);
        }
    }
    out
}

} // verus!

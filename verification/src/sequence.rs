//! The ordered, homogeneous sequence of source frames that a run reads.

use crate::frame::{Dimensions, Raster, SourceFrame, MIN_FRAMES};
use crate::loader::LoadError;
use crate::pixel::Rgb;
use vstd::prelude::*;

verus! {

/// The contents of the frames, one raster each.
pub open spec fn rasters(frames: Seq<SourceFrame>) -> Seq<Raster> {
    frames.map_values(|frame: SourceFrame| frame@)
}

/// Whether every raster has the dimensions of the first one.
pub open spec fn same_size(rasters: Seq<Raster>) -> bool {
    forall|i: int| 0 <= i < rasters.len() ==> (#[trigger] rasters[i]).size == rasters[0].size
}

/// At least two source frames of one size, in input order.
#[derive(Debug)]
pub struct FrameSequence<'a> {
    size: Dimensions,
    frames: Vec<SourceFrame<'a>>,
}

impl<'a> View for FrameSequence<'a> {
    type V = Seq<Raster>;

    closed spec fn view(&self) -> Seq<Raster> {
        rasters(self.frames@)
    }
}

impl<'a> FrameSequence<'a> {
    /// The dimensions that all frames of the sequence share.
    pub closed spec fn size(self) -> Dimensions {
        self.size
    }

    /// A sequence has at least two frames; each has the shared dimensions
    /// and the bytes of all its pixels.
    #[verifier::type_invariant]
    pub open spec fn inv(self) -> bool {
        &&& self@.len() >= MIN_FRAMES
        &&& forall|i: int|
            0 <= i < self@.len() ==> (#[trigger] self@[i]).size == self.size() && self@[i].covers()
    }

    /// Makes a sequence of the frames, in their order. Fewer than two frames
    /// are too few; otherwise all frames have to agree in size with the
    /// first.
    pub fn new(frames: Vec<SourceFrame<'a>>) -> (out: Result<FrameSequence<'a>, LoadError>)
        ensures
            match out {
                Err(LoadError::InsufficientFrames) => frames@.len() < MIN_FRAMES,
                Err(LoadError::DimensionMismatch) => frames@.len() >= MIN_FRAMES && !same_size(
                    rasters(frames@),
                ),
                Ok(sequence) => {
                    &&& frames@.len() >= MIN_FRAMES
                    &&& same_size(rasters(frames@))
                    &&& sequence@ == rasters(frames@)
                    &&& sequence.size() == frames@[0]@.size
                },
            },
    {
        if frames.len() < MIN_FRAMES {
            return Err(LoadError::InsufficientFrames);
        }
        let size = frames[0].dimensions();
        let mut i: usize = 0;
        while i < frames.len()
            invariant
                i <= frames@.len(),
                frames@.len() >= MIN_FRAMES,
                size == frames@[0]@.size,
                forall|k: int|
                    0 <= k < i ==> (#[trigger] rasters(frames@)[k]).size == size && rasters(
                        frames@,
                    )[k].covers(),
            decreases frames@.len() - i,
        {
            let frame = &frames[i];
            let found = frame.dimensions();
            if found.width != size.width || found.height != size.height {
                proof {
                    assert(rasters(frames@)[i as int].size != rasters(frames@)[0].size);
                }
                return Err(LoadError::DimensionMismatch);
            }
            proof {
                use_type_invariant(frame);
            }
            i += 1;
        }
        Ok(FrameSequence { size, frames })
    }

    /// The number of frames.
    pub fn len(&self) -> (out: usize)
        ensures
            out == self@.len(),
            out >= MIN_FRAMES,
    {
        proof {
            use_type_invariant(self);
        }
        self.frames.len()
    }

    /// The dimensions of every frame.
    pub fn dimensions(&self) -> (out: Dimensions)
        ensures
            out == self.size(),
    {
        self.size
    }

    /// The frame at `index`.
    pub fn frame(&self, index: usize) -> (out: &SourceFrame<'a>)
        requires
            index < self@.len(),
        ensures
            out@ == self@[index as int],
    {
        &self.frames[index]
    }

    /// The pixel at column `x` of row `y` of the frame at `index`.
    pub fn get_pixel(&self, index: usize, x: u32, y: u32) -> (out: Rgb)
        requires
            index < self@.len(),
            self.size().contains(x as int, y as int),
        ensures
            out == self@[index as int].pixel(x as int, y as int),
    {
        proof {
            use_type_invariant(self);
            assert(self@[index as int] == self.frames@[index as int]@);
        }
        self.frames[index].get_pixel(x, y)
    }
}

} // verus!

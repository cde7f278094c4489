//! Pixel grids: borrowed source frames, owned output frames, and the
//! homogeneous sequence of source frames that a run reads.

use crate::pixel::Rgb;
use vstd::prelude::*;

verus! {

/// Bytes per pixel of the raw RGB layout.
pub const CHANNELS: usize = 3;

/// The least number of frames that can be spiralized.
pub const MIN_FRAMES: usize = 2;

/// Width and height of a pixel grid.
#[derive(Clone, Copy, Debug, PartialEq, Eq, Structural)]
pub struct Dimensions {
    pub width: u32,
    pub height: u32,
}

/// Where a pixel lies relative to the image centre: centre minus pixel.
#[derive(Clone, Copy, Debug, PartialEq, Eq, Structural)]
pub struct CenterOffset {
    pub dx: i64,
    pub dy: i64,
}

impl Dimensions {
    /// The number of pixels of the grid.
    pub open spec fn pixels(self) -> nat {
        self.width as nat * self.height as nat
    }

    /// The number of bytes of the grid in raw RGB layout.
    pub open spec fn byte_len(self) -> nat {
        3 * self.pixels()
    }

    /// Whether `(x, y)` is a pixel of the grid.
    pub open spec fn contains(self, x: int, y: int) -> bool {
        0 <= x < self.width && 0 <= y < self.height
    }

    /// The row-major index of pixel `(x, y)`.
    pub open spec fn index(self, x: int, y: int) -> int {
        y * self.width + x
    }

    /// The vector from pixel `(x, y)` to the centre `(width / 2, height / 2)`.
    pub open spec fn offset_to_center_spec(self, x: int, y: int) -> CenterOffset {
        CenterOffset { dx: (self.width / 2 - x) as i64, dy: (self.height / 2 - y) as i64 }
    }

    /// The vector from pixel `(x, y)` to the image centre, which is
    /// `(width / 2, height / 2)` with the halves rounded down.
    pub fn offset_to_center(&self, x: u32, y: u32) -> (out: CenterOffset)
        ensures
            out == self.offset_to_center_spec(x as int, y as int),
            out.dx == self.width / 2 - x,
            out.dy == self.height / 2 - y,
    {
        CenterOffset {
            dx: (self.width / 2) as i64 - x as i64,
            dy: (self.height / 2) as i64 - y as i64,
        }
    }

    /// The row-major index of a pixel of the grid lies below the pixel count.
    pub proof fn lemma_index_in_range(self, x: int, y: int)
        requires
            self.contains(x, y),
        ensures
            0 <= self.index(x, y) < self.pixels(),
            self.index(x, y) / (self.width as int) == y,
            self.index(x, y) % (self.width as int) == x,
    {
        let w = self.width as int;
        let h = self.height as int;
        assert(0 <= y * w && (y + 1) * w <= h * w && (y + 1) * w == y * w + w)
            by (nonlinear_arith)
            requires
                0 <= y < h,
                0 <= w,
        ;
        assert(h * w == self.pixels()) by (nonlinear_arith)
            requires
                w == self.width,
                h == self.height,
                self.pixels() == self.width as nat * self.height as nat,
        ;
        vstd::arithmetic::div_mod::lemma_fundamental_div_mod_converse(y * w + x, w, y, x);
    }
}

/// The mathematical content of a pixel grid: its dimensions and its bytes in
/// raw RGB layout, rows from the top, pixels from the left.
pub struct Raster {
    pub size: Dimensions,
    pub bytes: Seq<u8>,
}

impl Raster {
    /// Whether the bytes cover every pixel of the grid.
    pub open spec fn covers(self) -> bool {
        self.bytes.len() >= self.size.byte_len()
    }

    /// Whether the bytes are exactly the pixels of the grid.
    pub open spec fn exact(self) -> bool {
        self.bytes.len() == self.size.byte_len()
    }

    /// The pixel at column `x` of row `y`.
    pub open spec fn pixel(self, x: int, y: int) -> Rgb {
        let at = 3 * self.size.index(x, y);
        Rgb { r: self.bytes[at], g: self.bytes[at + 1], b: self.bytes[at + 2] }
    }
}

/// A read-only view of one decoded source image over bytes that live
/// elsewhere.
#[derive(Clone, Copy, Debug)]
pub struct SourceFrame<'a> {
    size: Dimensions,
    data: &'a [u8],
}

impl<'a> View for SourceFrame<'a> {
    type V = Raster;

    closed spec fn view(&self) -> Raster {
        Raster { size: self.size, bytes: self.data@ }
    }
}

impl<'a> SourceFrame<'a> {
    /// Every frame has the bytes of all its pixels.
    #[verifier::type_invariant]
    pub open spec fn inv(self) -> bool {
        self@.covers()
    }

    /// Views `data` as a `width` by `height` grid of RGB pixels. Fails where
    /// `data` is shorter than the grid; bytes beyond the grid are ignored.
    pub fn from_raw(width: u32, height: u32, data: &'a [u8]) -> (out: Option<SourceFrame<'a>>)
        ensures
            out.is_some() <==> 3 * (width as nat * height as nat) <= data@.len(),
            out matches Some(frame) ==> frame@ == (Raster {
                size: Dimensions { width, height },
                bytes: data@,
            }),
    {
        assert(width as nat * height as nat <= 0xffff_ffff * 0xffff_ffff) by (nonlinear_arith)
            requires
                width <= 0xffff_ffff,
                height <= 0xffff_ffff,
        ;
        let needed: u128 = 3 * (width as u128 * height as u128);
        if needed <= data.len() as u128 {
            Some(SourceFrame { size: Dimensions { width, height }, data })
        } else {
            None
        }
    }

    /// The dimensions of the frame.
    pub fn dimensions(&self) -> (out: Dimensions)
        ensures
            out == self@.size,
    {
        self.size
    }

    /// The pixel at column `x` of row `y`.
    pub fn get_pixel(&self, x: u32, y: u32) -> (out: Rgb)
        requires
            self@.size.contains(x as int, y as int),
        ensures
            out == self@.pixel(x as int, y as int),
    {
        proof {
            use_type_invariant(self);
            self.size.lemma_index_in_range(x as int, y as int);
        }
        let len = self.data.len();
        assert(3 * self.size.index(x as int, y as int) + 2 < len);
        let at = 3 * (y as usize * self.size.width as usize + x as usize);
        Rgb { r: self.data[at], g: self.data[at + 1], b: self.data[at + 2] }
    }
}

/// One assembled output image, owning its bytes.
#[derive(Debug)]
pub struct OutputFrame {
    size: Dimensions,
    data: Vec<u8>,
}

impl View for OutputFrame {
    type V = Raster;

    closed spec fn view(&self) -> Raster {
        Raster { size: self.size, bytes: self.data@ }
    }
}

impl OutputFrame {
    /// An output frame holds the bytes of its pixels and no others.
    #[verifier::type_invariant]
    pub open spec fn inv(self) -> bool {
        self@.exact()
    }

    /// Wraps the bytes of a `width` by `height` grid. Fails unless `data`
    /// has exactly three bytes for each pixel.
    pub fn from_raw(width: u32, height: u32, data: Vec<u8>) -> (out: Option<OutputFrame>)
        ensures
            out.is_some() <==> 3 * (width as nat * height as nat) == data@.len(),
            out matches Some(frame) ==> frame@ == (Raster {
                size: Dimensions { width, height },
                bytes: data@,
            }),
    {
        assert(width as nat * height as nat <= 0xffff_ffff * 0xffff_ffff) by (nonlinear_arith)
            requires
                width <= 0xffff_ffff,
                height <= 0xffff_ffff,
        ;
        let needed: u128 = 3 * (width as u128 * height as u128);
        if needed == data.len() as u128 {
            Some(OutputFrame { size: Dimensions { width, height }, data })
        } else {
            None
        }
    }

    /// The dimensions of the frame.
    pub fn dimensions(&self) -> (out: Dimensions)
        ensures
            out == self@.size,
    {
        self.size
    }

    /// The pixel at column `x` of row `y`.
    pub fn get_pixel(&self, x: u32, y: u32) -> (out: Rgb)
        requires
            self@.size.contains(x as int, y as int),
        ensures
            out == self@.pixel(x as int, y as int),
    {
        proof {
            use_type_invariant(self);
            self.size.lemma_index_in_range(x as int, y as int);
        }
        let len = self.data.len();
        assert(3 * self.size.index(x as int, y as int) + 2 < len);
        let at = 3 * (y as usize * self.size.width as usize + x as usize);
        Rgb { r: self.data[at], g: self.data[at + 1], b: self.data[at + 2] }
    }

    /// The bytes of the frame in raw RGB layout.
    pub fn as_bytes(&self) -> (out: &[u8])
        ensures
            out@ == self@.bytes,
    {
        self.data.as_slice()
    }

    /// Gives up the frame for its bytes in raw RGB layout.
    pub fn into_raw(self) -> (out: Vec<u8>)
        ensures
            out@ == self@.bytes,
    {
        self.data
    }
}

} // verus!

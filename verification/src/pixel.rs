//! RGB pixels and the cross-fade of two of them.

use vstd::prelude::*;

verus! {

/// The alpha value of a fully opaque pixel.
pub const OPAQUE: u8 = 255;

/// An 8-bit RGB pixel.
#[derive(Clone, Copy, Debug, PartialEq, Eq, Structural)]
pub struct Rgb {
    pub r: u8,
    pub g: u8,
    pub b: u8,
}

/// What `image::Pixel::blend` leaves in an `Rgba<u8>` pixel `bottom` after
/// `top` was blended onto it; both pixels and the result are given by their
/// four channels, alpha last.
pub uninterp spec fn rgba_blend(bottom: Seq<u8>, top: Seq<u8>) -> Seq<u8>;

/// Calls `image::Pixel::blend` on `Rgba<u8>` pixels: source-over compositing
/// in single-precision arithmetic. The contract only names the outcome. With
/// an opaque `bottom` the blended alpha is one and every channel comes out
/// between zero and one before it is scaled back, so the conversion to `u8`
/// inside the call cannot fail.
#[verifier::external_body]
fn blend_rgba(bottom: [u8; 4], top: [u8; 4]) -> (out: [u8; 4])
    requires
        bottom[3] == OPAQUE,
    ensures
        out@ == rgba_blend(bottom@, top@),
{
    let mut pixel = image::Rgba(bottom);
    image::Pixel::blend(&mut pixel, &image::Rgba(top));
    pixel.0
}

impl Rgb {
    /// The four channels of this colour with the given alpha.
    pub open spec fn with_alpha_spec(self, alpha: u8) -> Seq<u8> {
        seq![self.r, self.g, self.b, alpha]
    }

    /// The colour of an RGBA pixel, its alpha dropped.
    pub open spec fn from_rgba_spec(channels: Seq<u8>) -> Rgb {
        Rgb { r: channels[0], g: channels[1], b: channels[2] }
    }

    /// This colour as an RGBA pixel with the given alpha.
    pub fn with_alpha(self, alpha: u8) -> (out: [u8; 4])
        ensures
            out@ == self.with_alpha_spec(alpha),
    {
        let out = [self.r, self.g, self.b, alpha];
        assert(out@ =~= self.with_alpha_spec(alpha));
        out
    }

    /// Drops the alpha channel of an RGBA pixel.
    pub fn from_rgba(channels: [u8; 4]) -> (out: Rgb)
        ensures
            out == Rgb::from_rgba_spec(channels@),
    {
        Rgb { r: channels[0], g: channels[1], b: channels[2] }
    }
}

/// `primary` with `neighbor` laid over it at opacity `alpha / 255`.
pub open spec fn composite_spec(primary: Rgb, neighbor: Rgb, alpha: u8) -> Rgb {
    Rgb::from_rgba_spec(
        rgba_blend(primary.with_alpha_spec(OPAQUE), neighbor.with_alpha_spec(alpha)),
    )
}

/// Lays `neighbor` over the opaque `primary` at opacity `alpha / 255` and
/// returns the colour of the result.
pub fn composite(primary: Rgb, neighbor: Rgb, alpha: u8) -> (out: Rgb)
    ensures
        out == composite_spec(primary, neighbor, alpha),
{
    let bottom = primary.with_alpha(OPAQUE);
    let top = neighbor.with_alpha(alpha);
    Rgb::from_rgba(blend_rgba(bottom, top))
}

} // verus!

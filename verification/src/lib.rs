//! Spiralized time-lapse frames.
//!
//! Every pixel of an output frame is taken from the source frames at a
//! fractional position in the sequence. The position depends on the pixel's
//! angle around the image centre and on the index of the output frame, so
//! that time appears to sweep around the picture, once over the whole
//! output.
//!
//! The crate computes exactly. Angles and positions are binary fractions,
//! decoded from binary64 bit patterns without rounding.
//!
//! - [`frame`]: pixel grids and the vector from a pixel to the centre.
//! - [`loader`]: the bookkeeping of a load.
//! - [`sequence`]: the homogeneous sequence of source frames.
//! - [`position`]: positions in the sequence and what is read off them.
//! - [`resolver`]: from angle and output index to a position.
//! - [`pixel`]: pixels and their cross-fade.
//! - [`sampler`]: the colour of a pixel at a position.
//! - [`render`]: one output frame.
//! - [`run`]: the course of a run.
//! - [`naming`]: the names of the output files.

pub mod frame;
pub mod loader;
pub mod naming;
pub mod pixel;
pub mod position;
pub mod render;
pub mod resolver;
pub mod run;
pub mod sampler;
pub mod sequence;

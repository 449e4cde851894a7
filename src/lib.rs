//! Baseline JPEG encoding of raw pixel buffers, and the frame conversions of
//! a stereo camera's raw Bayer images.
use vstd::prelude::*;

pub mod bitstream;
pub mod huffman;
pub mod tables;
pub mod entropy;
pub mod transform;
pub mod sampling;
pub mod quantize;
pub mod segments;
pub mod encoder;
pub mod conversions;
pub mod flif;
pub mod names;
pub mod timestamp;
pub mod options;
pub mod imageops;
pub mod stereo;

pub use encoder::{Color, JpegEncoder};
pub use entropy::EncodeError;
pub use bitstream::BitWriter;

verus! {

} // verus!

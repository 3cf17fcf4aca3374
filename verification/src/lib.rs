//! Image-based steganography: a pixel-level bit-plane codec.
//!
//! A secret payload — another raster image, or a short byte string — is
//! embedded into the low-order bit planes of a carrier image's colour
//! channels and later recovered: an approximation for images, an exact
//! copy for byte strings.  Raster file decoding and encoding is left to
//! the caller; every function here works on plain in-memory RGB buffers.

pub mod image_codec;
pub mod normalize;
pub mod pixel;
pub mod reconcile;
pub mod text_codec;

//! Hides an encrypted payload in the luminance of a raster image so that it
//! survives lossy re-encoding, and recovers it again.
//!
//! The crate holds the integer side of the codec: the bit framing, the block
//! grid and its capacity, the quantisation model, the decision that turns
//! transform coefficients into a bit, and the cipher layer with its
//! repetition code. The transforms between pixel samples and coefficients
//! are floating-point work and are handed to the engine as functions.
//!
//! Every function carries a contract. Verus proves all of them but those of
//! the few functions that call into the crates the library builds on; these
//! state what the crates document, and each says so.

pub mod bitstream;
pub mod block;
pub mod cipher;
pub mod cli;
pub mod coefficient;
pub mod configuration;
pub mod crypto;
pub mod encoding;
pub mod error;
pub mod extraction;
pub mod grid;
pub mod hiding;
pub mod jpeg;
pub mod quantization;
pub mod raster;
pub mod repetition;
pub mod roundtrip;
pub mod samples;
pub mod steganography;
pub mod text;

pub use error::SteganographyError;

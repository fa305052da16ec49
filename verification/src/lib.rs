//! A reversible transform between flat RGB image bytes and a layered
//! "stencil" byte format. Each color byte is split across a configurable
//! number of layers according to which numeric sub-range of [0, 255] it
//! falls into; decoding sums the layers back into the original bytes.
//!
//! Decoding reads its input at indices taken modulo the full input length.
//! A stencil buffer of exactly the encoded length therefore reconstructs
//! every byte of the original image, the last one included; this is the
//! contract `codec::lemma_round_trip` proves.

pub mod codec;
pub mod partition;
pub mod raster;

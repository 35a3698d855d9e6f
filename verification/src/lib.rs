//! A reversible, multi-stage image encryption pipeline.
//!
//! The core transforms a raw pixel buffer of known shape through four
//! stages: a pixel-coordinate permutation (Arnold's cat map), a byte-wise
//! substitution, a keystream XOR, and a steganographic channel that embeds
//! the serialized pipeline parameters in the least-significant bits of the
//! result. The encrypted buffer is then compressed and guarded by a
//! SHA-256 digest. Every stage is exactly reversible, and the reversal
//! laws are stated and proved alongside the code.

pub mod acm;
pub mod buffer;
pub mod compression;
pub mod config;
pub mod crypto;
pub mod image_utils;
pub mod pipeline;
pub mod sbox;
pub mod steganography;

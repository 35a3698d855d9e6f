use vstd::prelude::*;

verus! {

/// Default permutation iteration count.
pub const DEFAULT_ACM_ITERATIONS: u32 = 10;

/// Default permutation coefficient `a`.
pub const DEFAULT_ACM_A: i64 = 1;

/// Default permutation coefficient `b`.
pub const DEFAULT_ACM_B: i64 = 1;

/// zlib compression level used for the persisted artifact (0-9).
pub const COMPRESSION_LEVEL: u32 = 7;

/// The parameter record a decryptor must recover before it can undo the
/// pipeline. The keystream seed and growth parameter are IEEE-754 double
/// values carried by their exact 64-bit patterns, so the record itself is
/// free of floating point and a round trip through it loses nothing.
#[derive(Clone, Copy, PartialEq, Eq, Debug)]
pub struct EncryptionParams {
    /// Number of permutation rounds applied.
    pub acm_iterations: u32,
    /// Permutation coefficient `a`.
    pub acm_a: i64,
    /// Permutation coefficient `b`.
    pub acm_b: i64,
    /// Bit pattern of the keystream seed `x0`.
    pub logistic_x0_bits: u64,
    /// Bit pattern of the keystream growth parameter `r`.
    pub logistic_r_bits: u64,
    /// Shape before padding, as (height, width).
    pub original_shape_unpadded: (u32, u32),
    /// Shape after padding to a square, as (height, width, channels).
    pub original_shape_padded: (u32, u32, u8),
    /// Whether the image was reduced to a single grayscale channel.
    pub grayscale: bool,
    /// Whether padding was applied and must be removed after decryption.
    pub padded: bool,
    /// Shape of the buffer at the moment the metadata was embedded,
    /// before compression, as (height, width, channels).
    pub pre_steg_shape: (u32, u32, u8),
}

/// The metadata embedded in the encrypted image: a self-description of
/// the encryption run plus the parameter record needed to reverse it.
/// Serialized to bytes outside the core, then carried through the
/// steganographic channel as an opaque payload.
#[derive(Clone, Debug)]
pub struct DecryptionMetadata {
    /// Identity of the encrypting tool.
    pub encrypted_by: String,
    /// Free-text description of the run.
    pub description: String,
    /// Timestamp of the run, as text.
    pub timestamp: String,
    /// The parameter record.
    pub encryption_params: EncryptionParams,
}

} // verus!

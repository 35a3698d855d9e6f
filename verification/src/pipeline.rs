use vstd::prelude::*;
use crate::acm::{acm_forward, acm_inverse, arnold_cat_map, inverse_arnold_cat_map,
    lemma_acm_forward_len, lemma_acm_round_trip};
use crate::buffer::PixelBuffer;
use crate::compression::{compress_data, decompress_data, zlib_compressed};
use crate::config::EncryptionParams;
use crate::crypto::{calculate_sha256, hex_encode, hex_of_bytes, lemma_xor_involution,
    logistic_map_xor, sha256_of, verify_sha256, xor_spec};
use crate::image_utils::{unpad_image, ImageError};
use crate::sbox::{apply_inv_sub_spec, apply_inverse_sbox, apply_sbox, apply_sub_spec,
    lemma_substitution_round_trip};
use crate::steganography::{declared_len, embed_metadata, embed_spec, extract_metadata,
    extracted_payload, lemma_len_reassemble, StegError};
use vstd::slice::slice_subrange;

verus! {

/// The single error type of a pipeline run: every stage's failure is
/// surfaced through it, and any failure aborts the whole run.
#[derive(Clone, Copy, PartialEq, Eq, Structural, Debug)]
pub enum PipelineError {
    /// A buffer-shaping or cipher-stage failure.
    Image(ImageError),
    /// A steganographic-channel failure.
    Steg(StegError),
    /// The artifact's SHA-256 digest does not match the expected one.
    HashMismatch,
    /// The artifact is too short to hold its fixed shape header.
    MalformedArtifact,
    /// The artifact's compressed payload could not be decompressed.
    DecompressionFailed,
    /// The decompressed byte count does not match the shape the artifact
    /// declares.
    ShapeMismatch { height: u32, width: u32, channels: u8, actual: usize },
}

/// The encryption stages applied in order: permutation, substitution,
/// keystream XOR, and metadata embedding.
pub open spec fn encrypt_stages_spec(s: Seq<u8>, a: int, b: int, n: int, ch: int, k: nat,
    key: Seq<u8>, p: Seq<u8>) -> Seq<u8> {
    embed_spec(xor_spec(apply_sub_spec(acm_forward(s, a, b, n, ch, k)), key), p)
}

/// The decryption stages applied in order: keystream XOR, inverse
/// substitution, and the inverse permutation.
pub open spec fn decrypt_stages_spec(s: Seq<u8>, a: int, b: int, n: int, ch: int, k: nat,
    key: Seq<u8>) -> Seq<u8> {
    acm_inverse(apply_inv_sub_spec(xor_spec(s, key)), a, b, n, ch, k)
}

/// The three cipher stages compose into an exact inverse: XOR with the
/// same keystream, the inverse substitution, and the inverse permutation
/// undo the forward stages, for every square buffer, all coefficients,
/// every iteration count and every keystream of matching length.
pub proof fn lemma_cipher_stages_round_trip(s: Seq<u8>, a: int, b: int, n: int, ch: int, k: nat,
    key: Seq<u8>)
    requires
        n > 0,
        ch > 0,
        s.len() == n * n * ch,
        key.len() == s.len(),
    ensures
        decrypt_stages_spec(xor_spec(apply_sub_spec(acm_forward(s, a, b, n, ch, k)), key), a, b,
            n, ch, k, key) == s,
{
    let f = acm_forward(s, a, b, n, ch, k);
    lemma_acm_forward_len(s, a, b, n, ch, k);
    lemma_xor_involution(apply_sub_spec(f), key);
    lemma_substitution_round_trip(f);
    lemma_acm_round_trip(s, a, b, n, ch, k);
}

/// Metadata survives the whole forward pipeline: the buffer that the
/// encryption stages produce declares exactly the embedded payload's
/// length and yields that payload back, for every square buffer with
/// enough capacity, every parameter choice and every keystream.
pub proof fn lemma_metadata_survives_encryption(s: Seq<u8>, a: int, b: int, n: int, ch: int,
    k: nat, key: Seq<u8>, p: Seq<u8>)
    requires
        key.len() == s.len(),
        1 <= p.len(),
        p.len() <= 0xffff_ffff,
        (4 + p.len()) * 8 <= s.len(),
    ensures
        declared_len(encrypt_stages_spec(s, a, b, n, ch, k, key, p)) == p.len(),
        extracted_payload(encrypt_stages_spec(s, a, b, n, ch, k, key, p), p.len() as int) == p,
{
    lemma_acm_forward_len(s, a, b, n, ch, k);
    crate::steganography::lemma_steg_round_trip(
        xor_spec(apply_sub_spec(acm_forward(s, a, b, n, ch, k)), key), p);
}

/// The fixed uncompressed shape header that opens every persisted
/// artifact: big-endian height, big-endian width, and the channel
/// count, in nine bytes. It resolves the circularity of decryption —
/// the embedded metadata cannot be read before the byte stream has been
/// laid back into a pixel grid of known shape.
pub open spec fn shape_header(h: u32, w: u32, ch: u8) -> Seq<u8> {
    seq![
        ((h >> 24u32) & 0xff) as u8,
        ((h >> 16u32) & 0xff) as u8,
        ((h >> 8u32) & 0xff) as u8,
        (h & 0xff) as u8,
        ((w >> 24u32) & 0xff) as u8,
        ((w >> 16u32) & 0xff) as u8,
        ((w >> 8u32) & 0xff) as u8,
        (w & 0xff) as u8,
        ch,
    ]
}

/// A persisted artifact: the shape header followed by the compressed
/// bytes of the steganographically modified buffer.
pub open spec fn artifact_spec(e: Seq<u8>, h: u32, w: u32, ch: u8) -> Seq<u8> {
    shape_header(h, w, ch) + zlib_compressed(e)
}

/// `a` is the artifact of an encrypted buffer `e` of shape
/// `h` by `w` with `ch` channels.
pub open spec fn valid_artifact_for(a: Seq<u8>, e: Seq<u8>, h: u32, w: u32, ch: u8) -> bool {
    &&& a == artifact_spec(e, h, w, ch)
    &&& e.len() == w as int * h as int * ch as int
    &&& (ch == 1 || ch == 3)
}

/// The persisted result of an encryption run: the artifact bytes and
/// the lowercase hexadecimal SHA-256 digest the decryptor must present.
pub struct EncryptedArtifact {
    /// Shape header followed by the compressed encrypted buffer.
    pub bytes: Vec<u8>,
    /// Digest of `bytes`, hex-encoded.
    pub hash_hex: String,
}

/// Frame a steganographically modified buffer into a persisted
/// artifact: shape header, then the compressed bytes.
fn build_artifact(img: &PixelBuffer) -> (r: Vec<u8>)
    ensures
        r@ == artifact_spec(img.data@, img.height, img.width, img.channels),
{
    let h: u32 = img.height;
    let w: u32 = img.width;
    let mut out: Vec<u8> = Vec::new();
    out.push(((h >> 24u32) & 0xff) as u8);
    out.push(((h >> 16u32) & 0xff) as u8);
    out.push(((h >> 8u32) & 0xff) as u8);
    out.push((h & 0xff) as u8);
    out.push(((w >> 24u32) & 0xff) as u8);
    out.push(((w >> 16u32) & 0xff) as u8);
    out.push(((w >> 8u32) & 0xff) as u8);
    out.push((w & 0xff) as u8);
    out.push(img.channels);
    let compressed = compress_data(img.data.as_slice());
    out.extend_from_slice(compressed.as_slice());
    proof {
        assert(out@ =~= artifact_spec(img.data@, img.height, img.width, img.channels));
    }
    out
}

/// Run the whole encryption pipeline on a preprocessed buffer:
/// permutation, substitution, keystream XOR, metadata embedding,
/// framing, compression and hashing. The stages run in this order only,
/// and the first failure aborts the run.
pub fn run_encryption(img: PixelBuffer, acm_iterations: u32, acm_a: i64, acm_b: i64,
    keystream: &Vec<u8>, metadata_payload: &Vec<u8>) -> (r: Result<EncryptedArtifact,
    PipelineError>)
    requires
        img.wf(),
        keystream@.len() == img.data@.len(),
        1 <= metadata_payload@.len(),
        metadata_payload@.len() <= 0xffff_ffff,
        (4 + metadata_payload@.len()) * 8 <= usize::MAX,
    ensures
        img.width != img.height
            ==> r == Err::<EncryptedArtifact, PipelineError>(PipelineError::Image(
                ImageError::InvalidDimensions)),
        img.width == img.height && (4 + metadata_payload@.len()) * 8 > img.data@.len()
            ==> r == Err::<EncryptedArtifact, PipelineError>(PipelineError::Steg(
                (StegError::InsufficientCapacity {
                    needed: ((4 + metadata_payload@.len()) * 8) as usize,
                    available: img.data@.len() as usize,
                }))),
        img.width == img.height && (4 + metadata_payload@.len()) * 8 <= img.data@.len()
            ==> (r matches Ok(art)
                && valid_artifact_for(art.bytes@, encrypt_stages_spec(img.data@, acm_a as int,
                    acm_b as int, img.width as int, img.channels as int, acm_iterations as nat,
                    keystream@, metadata_payload@), img.height, img.width, img.channels)
                && art.hash_hex@ == hex_of_bytes(sha256_of(art.bytes@))),
{
    let permuted = match arnold_cat_map(&img, acm_iterations, acm_a, acm_b) {
        Ok(p) => p,
        Err(e) => {
            return Err(PipelineError::Image(e));
        },
    };
    let substituted = apply_sbox(permuted);
    let ciphered = logistic_map_xor(substituted, keystream);
    let embedded = match embed_metadata(&ciphered, metadata_payload) {
        Ok(p) => p,
        Err(e) => {
            return Err(PipelineError::Steg(e));
        },
    };
    let bytes = build_artifact(&embedded);
    let hash = calculate_sha256(bytes.as_slice());
    let hash_hex = hex_encode(hash.as_slice());
    Ok(EncryptedArtifact { bytes, hash_hex })
}

/// The 32-bit big-endian value stored at byte offset `off`.
pub open spec fn be32_at(s: Seq<u8>, off: int) -> u32 {
    ((s[off] as u32) << 24u32) | ((s[off + 1] as u32) << 16u32) | ((s[off + 2] as u32) << 8u32)
        | (s[off + 3] as u32)
}

/// Read a 32-bit big-endian value from the artifact.
fn read_be_u32(data: &Vec<u8>, off: usize) -> (r: u32)
    requires
        off + 4 <= data@.len(),
    ensures
        r == be32_at(data@, off as int),
{
    let len: usize = data.len();
    proof {
        assert(off + 4 <= len);
    }
    ((data[off] as u32) << 24u32) | ((data[off + 1] as u32) << 16u32)
        | ((data[off + 2] as u32) << 8u32) | (data[off + 3] as u32)
}

/// Begin decryption of a persisted artifact: verify the SHA-256 digest
/// before anything else, parse the shape header, decompress, check the
/// byte count against the declared shape, lay the bytes back into a
/// pixel grid, and extract the embedded metadata payload. The caller
/// parses the payload, derives the keystream, and finishes with
/// [`finish_decryption`].
pub fn begin_decryption(artifact: &Vec<u8>, expected_hash_hex: &str) -> (r: Result<
    (PixelBuffer, Vec<u8>),
    PipelineError,
>)
    ensures
        (hex_of_bytes(sha256_of(artifact@)) != expected_hash_hex@) <==> r == Err::<
            (PixelBuffer, Vec<u8>),
            PipelineError,
        >(PipelineError::HashMismatch),
        forall|e: Seq<u8>, h: u32, w: u32, ch: u8|
            #[trigger] valid_artifact_for(artifact@, e, h, w, ch)
                && hex_of_bytes(sha256_of(artifact@)) == expected_hash_hex@
                ==> {
                    &&& e.len() < 32 ==> r == Err::<(PixelBuffer, Vec<u8>), PipelineError>(
                        PipelineError::Steg((StegError::InsufficientCapacity {
                            needed: 32,
                            available: e.len() as usize,
                        })))
                    &&& e.len() >= 32 && (declared_len(e) == 0 || 32 + declared_len(e) * 8
                        > e.len()) ==> r == Err::<(PixelBuffer, Vec<u8>), PipelineError>(
                        PipelineError::Steg(StegError::InvalidLength))
                    &&& e.len() >= 32 && declared_len(e) != 0 && 32 + declared_len(e) * 8
                        <= e.len() ==> (r matches Ok(out) && out.0.wf() && out.0.width == w
                        && out.0.height == h && out.0.channels == ch && out.0.data@ == e
                        && out.1@ == extracted_payload(e, declared_len(e) as int))
                },
{
    if !verify_sha256(artifact.as_slice(), expected_hash_hex) {
        return Err(PipelineError::HashMismatch);
    }
    if artifact.len() < 9 {
        return Err(PipelineError::MalformedArtifact);
    }
    let h = read_be_u32(artifact, 0);
    let w = read_be_u32(artifact, 4);
    let ch = artifact[8];
    proof {
        assert forall|e: Seq<u8>, h0: u32, w0: u32, ch0: u8|
            #[trigger] valid_artifact_for(artifact@, e, h0, w0, ch0) implies
            h == h0 && w == w0 && ch == ch0 && artifact@.subrange(9, artifact@.len() as int)
                == zlib_compressed(e) by {
            lemma_len_reassemble(h0);
            lemma_len_reassemble(w0);
            assert(artifact@.subrange(9, artifact@.len() as int) =~= zlib_compressed(e));
        }
    }
    if ch != 1 && ch != 3 {
        return Err(PipelineError::MalformedArtifact);
    }
    let comp: &[u8] = slice_subrange(artifact.as_slice(), 9, artifact.len());
    let decompressed = match decompress_data(comp) {
        Ok(d) => d,
        Err(e) => {
            return Err(e);
        },
    };
    proof {
        assert((w as int) * (h as int) <= 0xffff_ffff * 0xffff_ffff
            && (w as int) * (h as int) >= 0) by (nonlinear_arith)
            requires
                w <= 0xffff_ffffu32,
                h <= 0xffff_ffffu32,
        ;
        assert((w as int) * (h as int) * (ch as int) <= 0xffff_ffff * 0xffff_ffff * 0xff
            && (w as int) * (h as int) * (ch as int) >= 0) by (nonlinear_arith)
            requires
                0 <= (w as int) * (h as int),
                (w as int) * (h as int) <= 0xffff_ffff * 0xffff_ffff,
                ch <= 0xffu8,
        ;
    }
    let expected_len: u128 = (w as u128) * (h as u128) * (ch as u128);
    if (decompressed.len() as u128) != expected_len {
        return Err(PipelineError::ShapeMismatch {
            height: h,
            width: w,
            channels: ch,
            actual: decompressed.len(),
        });
    }
    let buffer = PixelBuffer { width: w, height: h, channels: ch, data: decompressed };
    let payload = match extract_metadata(&buffer) {
        Ok(p) => p,
        Err(e) => {
            return Err(PipelineError::Steg(e));
        },
    };
    Ok((buffer, payload))
}

/// Finish decryption once the metadata payload has been parsed and the
/// keystream regenerated: XOR the keystream back out, undo the
/// substitution, undo the permutation, and crop away the padding.
pub fn finish_decryption(img: PixelBuffer, keystream: &Vec<u8>, params: &EncryptionParams) -> (r:
    Result<PixelBuffer, PipelineError>)
    requires
        img.wf(),
        keystream@.len() == img.data@.len(),
    ensures
        img.width != img.height
            ==> r == Err::<PixelBuffer, PipelineError>(PipelineError::Image(
                ImageError::InvalidDimensions)),
        img.width == img.height && params.padded && (params.original_shape_unpadded.0
            > img.height || params.original_shape_unpadded.1 > img.width)
            ==> r == Err::<PixelBuffer, PipelineError>(PipelineError::Image(
                ImageError::InvalidDimensions)),
        img.width == img.height && !params.padded
            ==> (r matches Ok(out) && out.width == img.width && out.height == img.height
                && out.channels == img.channels
                && out.data@ == decrypt_stages_spec(img.data@, params.acm_a as int,
                    params.acm_b as int, img.width as int, img.channels as int,
                    params.acm_iterations as nat, keystream@)),
        img.width == img.height && params.padded && params.original_shape_unpadded.0
            <= img.height && params.original_shape_unpadded.1 <= img.width
            ==> (r matches Ok(out) && out.height == params.original_shape_unpadded.0
                && out.width == params.original_shape_unpadded.1 && out.channels == img.channels
                && (forall|x: int, y: int, c: int|
                    0 <= x < out.width as int && 0 <= y < out.height as int
                        && 0 <= c < out.channels as int
                        ==> #[trigger] out.byte_at(x, y, c) == decrypt_stages_spec(img.data@,
                            params.acm_a as int, params.acm_b as int, img.width as int,
                            img.channels as int, params.acm_iterations as nat, keystream@)[
                            ((y + (img.height as int - out.height as int) / 2) * img.width as int
                                + (x + (img.width as int - out.width as int) / 2))
                                * img.channels as int + c])),
{
    let deciphered = logistic_map_xor(img, keystream);
    let unsubbed = apply_inverse_sbox(deciphered);
    let unpermuted = match inverse_arnold_cat_map(&unsubbed, params.acm_iterations, params.acm_a,
        params.acm_b) {
        Ok(p) => p,
        Err(e) => {
            return Err(PipelineError::Image(e));
        },
    };
    let final_img = match unpad_image(&unpermuted, params) {
        Ok(p) => p,
        Err(e) => {
            return Err(PipelineError::Image(e));
        },
    };
    Ok(final_img)
}

} // verus!

use image_encrypt::acm::{arnold_cat_map, inverse_arnold_cat_map};
use image_encrypt::buffer::PixelBuffer;
use image_encrypt::compression::{compress_data, decompress_data};
use image_encrypt::config::EncryptionParams;
use image_encrypt::crypto::{calculate_sha256, hex_encode, logistic_map_xor, verify_sha256};
use image_encrypt::image_utils::{unpad_image, ImageError};
use image_encrypt::pipeline::{begin_decryption, finish_decryption, run_encryption, PipelineError};

fn logistic_keystream(x0: f64, r: f64, size: usize) -> Vec<u8> {
    let mut x = x0;
    for _ in 0..100 {
        x = r * x * (1.0 - x);
    }
    let mut out = Vec::with_capacity(size);
    for _ in 0..size {
        x = r * x * (1.0 - x);
        assert!(x.is_finite());
        out.push((x * 255.999999).floor() as u8);
    }
    out
}

fn params(iterations: u32, a: i64, b: i64, x0: f64, r: f64, side: u32) -> EncryptionParams {
    EncryptionParams {
        acm_iterations: iterations,
        acm_a: a,
        acm_b: b,
        logistic_x0_bits: x0.to_bits(),
        logistic_r_bits: r.to_bits(),
        original_shape_unpadded: (side, side),
        original_shape_padded: (side, side, 1),
        grayscale: true,
        padded: false,
        pre_steg_shape: (side, side, 1),
    }
}

#[test]
fn end_to_end_zero_image_without_embedding() {
    // 4x4 grayscale all-zero buffer, a = 1, b = 1, two iterations,
    // x0 = 0.3141592653589793, r = 3.9999999: the cipher stages, the
    // compression wrapper and the integrity check compose into an exact
    // round trip
    let x0 = 0.3141592653589793;
    let r = 3.9999999;
    let original = PixelBuffer { width: 4, height: 4, channels: 1, data: vec![0u8; 16] };
    let keystream = logistic_keystream(x0, r, 16);

    let permuted = arnold_cat_map(&original, 2, 1, 1).unwrap();
    let substituted = image_encrypt::sbox::apply_sbox(permuted);
    let ciphered = logistic_map_xor(substituted, &keystream);

    let artifact = compress_data(&ciphered.data);
    let hash_hex = hex_encode(&calculate_sha256(&artifact));

    // decryption side, with the same recovered parameters
    assert!(verify_sha256(&artifact, &hash_hex));
    let decompressed = decompress_data(&artifact).unwrap();
    let received = PixelBuffer { width: 4, height: 4, channels: 1, data: decompressed };
    let keystream2 = logistic_keystream(x0, r, 16);
    assert_eq!(keystream, keystream2);
    let restored =
        finish_decryption(received, &keystream2, &params(2, 1, 1, x0, r, 4)).unwrap();
    assert_eq!(restored.data, vec![0u8; 16]);
    assert_eq!(restored.width, 4);
    assert_eq!(restored.height, 4);
}

#[test]
fn full_pipeline_embeds_and_recovers_payload() {
    let side = 32u32;
    let data: Vec<u8> = (0..side * side).map(|i| (i % 241) as u8).collect();
    let img = PixelBuffer { width: side, height: side, channels: 1, data };
    let keystream: Vec<u8> = (0..side * side).map(|i| (i * 7 + 3) as u8).collect();
    let payload: Vec<u8> = br#"{"acm_iterations":2,"acm_a":1,"acm_b":1}"#.to_vec();

    let art = run_encryption(img, 2, 1, 1, &keystream, &payload).unwrap();
    let (buffer, extracted) = begin_decryption(&art.bytes, &art.hash_hex).unwrap();
    assert_eq!(extracted, payload);
    assert_eq!(buffer.width, side);
    assert_eq!(buffer.height, side);
    assert_eq!(buffer.channels, 1);
}

#[test]
fn tampered_artifact_fails_integrity_check_first() {
    let img = PixelBuffer { width: 8, height: 8, channels: 1, data: vec![5u8; 64] };
    let keystream = vec![0x5au8; 64];
    let payload = vec![1, 2, 3];
    let art = run_encryption(img, 1, 1, 1, &keystream, &payload).unwrap();

    let mut tampered = art.bytes.clone();
    let last = tampered.len() - 1;
    tampered[last] ^= 0xff;
    assert_eq!(
        begin_decryption(&tampered, &art.hash_hex),
        Err(PipelineError::HashMismatch)
    );
}

#[test]
fn wrong_hash_rejected_before_any_stage() {
    let img = PixelBuffer { width: 8, height: 8, channels: 1, data: vec![9u8; 64] };
    let keystream = vec![0x11u8; 64];
    let art = run_encryption(img, 1, 1, 1, &keystream, &vec![7]).unwrap();
    assert_eq!(
        begin_decryption(&art.bytes, "feed"),
        Err(PipelineError::HashMismatch)
    );
}

#[test]
fn encryption_rejects_non_square_buffer() {
    let img = PixelBuffer { width: 4, height: 5, channels: 1, data: vec![0; 20] };
    let keystream = vec![0u8; 20];
    let r = run_encryption(img, 1, 1, 1, &keystream, &vec![1]);
    assert!(matches!(r, Err(PipelineError::Image(_))));
}

#[test]
fn encryption_reports_insufficient_capacity() {
    let img = PixelBuffer { width: 4, height: 4, channels: 1, data: vec![0; 16] };
    let keystream = vec![0u8; 16];
    let r = run_encryption(img, 1, 1, 1, &keystream, &vec![1]);
    assert!(matches!(r, Err(PipelineError::Steg(_))));
}

#[test]
fn unpad_crops_centered_region() {
    // a 2x2 image centered inside a 4x4 canvas: one row and one column
    // of margin on each side
    let mut data = vec![0u8; 16];
    data[5] = 11; // (1,1)
    data[6] = 12; // (2,1)
    data[9] = 21; // (1,2)
    data[10] = 22; // (2,2)
    let img = PixelBuffer { width: 4, height: 4, channels: 1, data };
    let mut p = params(1, 1, 1, 0.5, 3.99, 4);
    p.padded = true;
    p.original_shape_unpadded = (2, 2);
    let out = unpad_image(&img, &p).unwrap();
    assert_eq!(out.width, 2);
    assert_eq!(out.height, 2);
    assert_eq!(out.data, vec![11, 12, 21, 22]);
}

#[test]
fn unpad_without_padding_flag_is_identity() {
    let img = PixelBuffer { width: 3, height: 3, channels: 1, data: vec![7u8; 9] };
    let p = params(1, 1, 1, 0.5, 3.99, 3);
    let out = unpad_image(&img, &p).unwrap();
    assert_eq!(out.data, vec![7u8; 9]);
}

#[test]
fn decryption_stages_invert_encryption_stages() {
    // keystream XOR, inverse substitution and inverse permutation undo
    // the forward stages byte for byte
    let data: Vec<u8> = (0u8..64).collect();
    let img = PixelBuffer { width: 8, height: 8, channels: 1, data: data.clone() };
    let keystream: Vec<u8> = (0u8..64).map(|i| i.wrapping_mul(31)).collect();

    let permuted = arnold_cat_map(&img, 3, 2, 5).unwrap();
    let substituted = image_encrypt::sbox::apply_sbox(permuted);
    let ciphered = logistic_map_xor(substituted, &keystream);

    let unciphered = logistic_map_xor(ciphered, &keystream);
    let unsubstituted = image_encrypt::sbox::apply_inverse_sbox(unciphered);
    let restored = inverse_arnold_cat_map(&unsubstituted, 3, 2, 5).unwrap();
    assert_eq!(restored.data, data);
}

#[test]
fn buffer_construction_checks_shape() {
    assert_eq!(
        PixelBuffer::new(2, 2, 2, vec![0; 8]).unwrap_err(),
        ImageError::UnsupportedColor
    );
    assert_eq!(
        PixelBuffer::new(2, 2, 1, vec![0; 5]).unwrap_err(),
        ImageError::InvalidDimensions
    );
    let b = PixelBuffer::new(2, 2, 3, vec![0; 12]).unwrap();
    assert_eq!(b.byte_len(), 12);
}

#[test]
fn artifact_too_short_for_header() {
    let bytes = vec![1u8, 2, 3];
    let hash = hex_encode(&calculate_sha256(&bytes));
    assert!(matches!(
        begin_decryption(&bytes, &hash),
        Err(PipelineError::MalformedArtifact)
    ));
}

#[test]
fn artifact_with_unsupported_channel_count() {
    // shape header declares 2x2 with 7 channels
    let mut bytes = vec![0u8, 0, 0, 2, 0, 0, 0, 2, 7];
    bytes.extend_from_slice(&compress_data(&[0u8; 28]));
    let hash = hex_encode(&calculate_sha256(&bytes));
    assert!(matches!(
        begin_decryption(&bytes, &hash),
        Err(PipelineError::MalformedArtifact)
    ));
}

#[test]
fn artifact_with_undecodable_payload() {
    // shape header followed by bytes that are not a zlib stream
    let mut bytes = vec![0u8, 0, 0, 2, 0, 0, 0, 2, 1];
    bytes.extend_from_slice(&[0x13, 0x37, 0x13, 0x37]);
    let hash = hex_encode(&calculate_sha256(&bytes));
    assert!(matches!(
        begin_decryption(&bytes, &hash),
        Err(PipelineError::DecompressionFailed)
    ));
}

#[test]
fn artifact_with_wrong_decompressed_size() {
    // header declares 2x2x1 = 4 bytes, but 5 bytes were compressed
    let mut bytes = vec![0u8, 0, 0, 2, 0, 0, 0, 2, 1];
    bytes.extend_from_slice(&compress_data(&[9u8; 5]));
    let hash = hex_encode(&calculate_sha256(&bytes));
    assert!(matches!(
        begin_decryption(&bytes, &hash),
        Err(PipelineError::ShapeMismatch { height: 2, width: 2, channels: 1, actual: 5 })
    ));
}

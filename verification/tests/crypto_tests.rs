use image_encrypt::buffer::PixelBuffer;
use image_encrypt::compression::{compress_data, decompress_data};
use image_encrypt::crypto::{calculate_sha256, hex_encode, logistic_map_xor, verify_sha256};

#[test]
fn xor_is_self_inverse() {
    let data: Vec<u8> = (0u8..16).collect();
    let keystream: Vec<u8> = (0u8..16).map(|i| i.wrapping_mul(37).wrapping_add(11)).collect();
    let img = PixelBuffer { width: 4, height: 4, channels: 1, data: data.clone() };
    let ciphered = logistic_map_xor(img, &keystream);
    assert_ne!(ciphered.data, data);
    let restored = logistic_map_xor(ciphered, &keystream);
    assert_eq!(restored.data, data);
}

#[test]
fn xor_known_values() {
    let img = PixelBuffer { width: 2, height: 1, channels: 1, data: vec![0xff, 0x0f] };
    let out = logistic_map_xor(img, &vec![0xf0, 0x0f]);
    assert_eq!(out.data, vec![0x0f, 0x00]);
}

#[test]
fn sha256_known_vector() {
    let digest = calculate_sha256(b"abc");
    assert_eq!(
        hex_encode(&digest),
        "ba7816bf8f01cfea414140de5dae2223b00361a396177a9cb410ff61f20015ad"
    );
}

#[test]
fn hex_encode_known_bytes() {
    assert_eq!(hex_encode(&[0xde, 0xad, 0xbe, 0xef]), "deadbeef");
    assert_eq!(hex_encode(&[0x00, 0x01, 0x0a]), "00010a");
    assert_eq!(hex_encode(&[]), "");
}

#[test]
fn verify_sha256_accepts_and_rejects() {
    let data = b"pipeline artifact";
    let digest_hex = hex_encode(&calculate_sha256(data));
    assert!(verify_sha256(data, &digest_hex));
    assert!(!verify_sha256(b"pipeline artifacT", &digest_hex));
    assert!(!verify_sha256(data, "0000"));
}

#[test]
fn compression_round_trip() {
    let data: Vec<u8> = (0..2000u32).map(|i| (i % 251) as u8).collect();
    let compressed = compress_data(&data);
    assert_ne!(compressed, data);
    assert!(compressed.len() < data.len());
    let restored = decompress_data(&compressed).unwrap();
    assert_eq!(restored, data);
}

#[test]
fn compression_round_trip_empty() {
    let compressed = compress_data(&[]);
    let restored = decompress_data(&compressed).unwrap();
    assert_eq!(restored, Vec::<u8>::new());
}

#[test]
fn decompress_rejects_garbage() {
    assert!(decompress_data(&[0x00, 0x01, 0x02, 0x03]).is_err());
}

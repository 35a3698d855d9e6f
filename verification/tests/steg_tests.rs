use image_encrypt::buffer::PixelBuffer;
use image_encrypt::steganography::{embed_metadata, extract_metadata, StegError};

fn carrier(n: u32, fill: u8) -> PixelBuffer {
    PixelBuffer { width: n, height: n, channels: 1, data: vec![fill; (n * n) as usize] }
}

#[test]
fn embed_extract_round_trip() {
    let img = carrier(16, 0xa5);
    let payload: Vec<u8> = b"hello metadata".to_vec();
    let embedded = embed_metadata(&img, &payload).unwrap();
    assert_eq!(embedded.width, 16);
    assert_eq!(embedded.data.len(), 256);
    let extracted = extract_metadata(&embedded).unwrap();
    assert_eq!(extracted, payload);
}

#[test]
fn embed_extract_round_trip_color() {
    let img = PixelBuffer { width: 8, height: 8, channels: 3, data: vec![0x17; 192] };
    let payload: Vec<u8> = vec![0x00, 0xff, 0x80, 0x01];
    let embedded = embed_metadata(&img, &payload).unwrap();
    let extracted = extract_metadata(&embedded).unwrap();
    assert_eq!(extracted, payload);
}

#[test]
fn embed_changes_no_byte_by_more_than_one() {
    let img = carrier(16, 0x42);
    let payload: Vec<u8> = b"parameters".to_vec();
    let embedded = embed_metadata(&img, &payload).unwrap();
    for (before, after) in img.data.iter().zip(embedded.data.iter()) {
        let b = *before as i32;
        let a = *after as i32;
        assert!((a - b).abs() <= 1);
    }
}

#[test]
fn embed_leaves_bytes_past_payload_untouched() {
    let img = carrier(16, 0x42);
    let payload: Vec<u8> = vec![9];
    let embedded = embed_metadata(&img, &payload).unwrap();
    // (4 + 1) * 8 = 40 bits used; the rest must be identical
    assert_eq!(&img.data[40..], &embedded.data[40..]);
}

#[test]
fn embed_rejects_insufficient_capacity() {
    // 4x4 grayscale: 16 bits available, one payload byte needs 40
    let img = carrier(4, 0);
    let payload: Vec<u8> = vec![1];
    assert_eq!(
        embed_metadata(&img, &payload),
        Err(StegError::InsufficientCapacity { needed: 40, available: 16 })
    );
}

#[test]
fn extract_rejects_zero_length_header() {
    // all LSBs are 0, so the declared length is 0: always invalid
    let img = carrier(8, 0xfe);
    assert_eq!(extract_metadata(&img), Err(StegError::InvalidLength));
}

#[test]
fn extract_rejects_carrier_below_header_size() {
    let img = PixelBuffer { width: 5, height: 5, channels: 1, data: vec![0; 25] };
    assert_eq!(
        extract_metadata(&img),
        Err(StegError::InsufficientCapacity { needed: 32, available: 25 })
    );
}

#[test]
fn extract_rejects_oversized_declared_length() {
    // declare a length of 255 bytes on a 64-bit carrier: bits 24..32
    // (the low byte of the header) all set
    let mut img = carrier(8, 0);
    for i in 24..32 {
        img.data[i] = 1;
    }
    assert_eq!(extract_metadata(&img), Err(StegError::InvalidLength));
}

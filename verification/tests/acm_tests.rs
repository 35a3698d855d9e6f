use image_encrypt::acm::{arnold_cat_map, inverse_arnold_cat_map, modulo};
use image_encrypt::buffer::PixelBuffer;
use image_encrypt::image_utils::ImageError;

fn gray(n: u32, data: Vec<u8>) -> PixelBuffer {
    PixelBuffer { width: n, height: n, channels: 1, data }
}

#[test]
fn modulo_handles_negative_values() {
    assert_eq!(modulo(-7, 5), 3);
    assert_eq!(modulo(7, 5), 2);
    assert_eq!(modulo(-10, 5), 0);
    assert_eq!(modulo(0, 3), 0);
    assert_eq!(modulo(-1, 1), 0);
}

#[test]
fn acm_round_trip_restores_buffer() {
    let data: Vec<u8> = (0u8..16).collect();
    let img = gray(4, data.clone());
    let scrambled = arnold_cat_map(&img, 2, 1, 1).unwrap();
    assert_ne!(scrambled.data, data);
    let restored = inverse_arnold_cat_map(&scrambled, 2, 1, 1).unwrap();
    assert_eq!(restored.data, data);
    assert_eq!(restored.width, 4);
    assert_eq!(restored.height, 4);
}

#[test]
fn acm_round_trip_negative_coefficients() {
    let data: Vec<u8> = (0u8..27).collect();
    let img = PixelBuffer { width: 3, height: 3, channels: 3, data: data.clone() };
    let scrambled = arnold_cat_map(&img, 5, -4, 7).unwrap();
    let restored = inverse_arnold_cat_map(&scrambled, 5, -4, 7).unwrap();
    assert_eq!(restored.data, data);
}

#[test]
fn acm_zero_iterations_is_identity() {
    let data: Vec<u8> = (0u8..16).collect();
    let img = gray(4, data.clone());
    let out = arnold_cat_map(&img, 0, 3, 9).unwrap();
    assert_eq!(out.data, data);
}

#[test]
fn acm_known_two_by_two_mapping() {
    // a = 1, b = 1, one round on a 2x2 grid:
    // (0,0)->(0,0), (1,0)->(1,1), (0,1)->(1,0), (1,1)->(0,1)
    let img = gray(2, vec![10, 20, 30, 40]);
    let out = arnold_cat_map(&img, 1, 1, 1).unwrap();
    assert_eq!(out.data, vec![10, 30, 40, 20]);
}

#[test]
fn acm_rejects_non_square_input() {
    // 4x5 grayscale buffer: the dimension mismatch is reported before
    // any pixel moves
    let img = PixelBuffer { width: 4, height: 5, channels: 1, data: vec![0; 20] };
    assert_eq!(arnold_cat_map(&img, 1, 1, 1), Err(ImageError::InvalidDimensions));
    assert_eq!(inverse_arnold_cat_map(&img, 1, 1, 1), Err(ImageError::InvalidDimensions));
}

#[test]
fn acm_single_pixel_buffer() {
    let img = gray(1, vec![123]);
    let out = arnold_cat_map(&img, 10, 2, 3).unwrap();
    assert_eq!(out.data, vec![123]);
}

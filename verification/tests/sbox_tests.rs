use image_encrypt::buffer::PixelBuffer;
use image_encrypt::sbox::{
    apply_inverse_sbox, apply_sbox, inverse_substitution_table, substitution_table,
};

#[test]
fn substitution_table_known_entries() {
    let t = substitution_table();
    assert_eq!(t.len(), 256);
    // 45 * 0 + 99 = 99, 45 * 1 + 99 = 144, 45 * 2 + 99 = 189
    assert_eq!(t[0], 99);
    assert_eq!(t[1], 144);
    assert_eq!(t[2], 189);
    // 45 * 255 + 99 = 11574 = 45 * 256 + 54
    assert_eq!(t[255], 54);
}

#[test]
fn inverse_table_inverts_forward_table() {
    let t = substitution_table();
    let inv = inverse_substitution_table();
    assert_eq!(inv.len(), 256);
    for x in 0..256usize {
        assert_eq!(inv[t[x] as usize] as usize, x);
        assert_eq!(t[inv[x] as usize] as usize, x);
    }
}

#[test]
fn substitution_round_trip_restores_buffer() {
    let data: Vec<u8> = (0..=255u8).collect();
    let img = PixelBuffer { width: 16, height: 16, channels: 1, data: data.clone() };
    let substituted = apply_sbox(img);
    assert_ne!(substituted.data, data);
    let restored = apply_inverse_sbox(substituted);
    assert_eq!(restored.data, data);
}

#[test]
fn substitution_is_position_independent() {
    let img = PixelBuffer { width: 2, height: 1, channels: 1, data: vec![7, 7] };
    let out = apply_sbox(img);
    assert_eq!(out.data[0], out.data[1]);
}

use stego::image_codec::{decrypt_image, embed_image, hide_image};
use stego::normalize::normalize_image;
use stego::pixel::{PixelBuffer, StegoError};
use stego::reconcile::expand_image;
use stego::text_codec::{
    bytes_to_text, extract_text_from_image, hide_text_in_image, text_to_bytes,
};

fn buffer(width: u32, height: u32, data: Vec<u8>) -> PixelBuffer {
    PixelBuffer::from_raw(width, height, data).unwrap()
}

fn solid(width: u32, height: u32, rgb: [u8; 3]) -> PixelBuffer {
    let mut data = Vec::new();
    for _ in 0..(width as usize) * (height as usize) {
        data.extend_from_slice(&rgb);
    }
    buffer(width, height, data)
}

#[test]
fn from_raw_validates_dimensions() {
    assert!(PixelBuffer::from_raw(2, 2, vec![0; 12]).is_some());
    assert!(PixelBuffer::from_raw(2, 2, vec![0; 11]).is_none());
    assert!(PixelBuffer::from_raw(0, 2, vec![]).is_none());
    assert!(PixelBuffer::from_raw(2, 0, vec![]).is_none());
}

#[test]
fn image_round_trip_example() {
    // carrier pixel (255,255,255), secret pixel (128,64,32)
    // -> hidden (254,253,252) -> decrypted (170,85,0)
    let carrier = buffer(1, 1, vec![255, 255, 255]);
    let secret = buffer(1, 1, vec![128, 64, 32]);
    let hidden = hide_image(&carrier, &secret, false, false).unwrap();
    assert_eq!(hidden.data, vec![254, 253, 252]);
    let decrypted = decrypt_image(&hidden);
    assert_eq!(decrypted.data, vec![170, 85, 0]);
}

#[test]
fn image_round_trip_is_carrier_independent() {
    let secret = buffer(2, 1, vec![200, 100, 50, 255, 0, 129]);
    let carrier_a = buffer(2, 1, vec![0, 0, 0, 0, 0, 0]);
    let carrier_b = buffer(2, 1, vec![255, 254, 253, 252, 251, 250]);
    let out_a = decrypt_image(&hide_image(&carrier_a, &secret, false, false).unwrap());
    let out_b = decrypt_image(&hide_image(&carrier_b, &secret, false, false).unwrap());
    assert_eq!(out_a.data, out_b.data);
    let expected: Vec<u8> = secret.data.iter().map(|v| (v >> 6) * 85).collect();
    assert_eq!(out_a.data, expected);
}

#[test]
fn embed_keeps_carrier_top_bits() {
    let carrier = buffer(1, 1, vec![0b1010_1010, 0b0101_0101, 0b1111_0000]);
    let secret = buffer(1, 1, vec![0b1100_0000, 0b0100_0000, 0b1000_0000]);
    let hidden = embed_image(&carrier, &secret);
    assert_eq!(
        hidden.data,
        vec![0b1010_1011, 0b0101_0101, 0b1111_0010]
    );
}

#[test]
fn hide_image_size_mismatch_without_policy() {
    let carrier = solid(2, 2, [10, 20, 30]);
    let secret = solid(3, 3, [1, 2, 3]);
    let r = hide_image(&carrier, &secret, false, false);
    assert_eq!(r.unwrap_err(), StegoError::SizeMismatch);
}

#[test]
fn hide_image_resize_reaches_target_dimensions() {
    let carrier = solid(2, 2, [200, 200, 200]);
    let secret = solid(4, 4, [90, 90, 90]);
    let hidden = hide_image(&carrier, &secret, true, false).unwrap();
    assert_eq!((hidden.width, hidden.height), (4, 4));
    // the secret was already at the target size: its top two bits survive
    let decrypted = decrypt_image(&hidden);
    assert_eq!(decrypted.data, vec![85u8; 48]);
}

#[test]
fn hide_image_mixed_dimensions_take_the_larger_axis() {
    let carrier = solid(3, 1, [255, 255, 255]);
    let secret = solid(1, 2, [0, 0, 0]);
    let expanded = hide_image(&carrier, &secret, false, true).unwrap();
    assert_eq!((expanded.width, expanded.height), (3, 2));
    let resized = hide_image(&carrier, &secret, true, false).unwrap();
    assert_eq!((resized.width, resized.height), (3, 2));
}

#[test]
fn expand_preserves_top_left_and_pads_black() {
    let src = buffer(2, 1, vec![1, 2, 3, 4, 5, 6]);
    let out = expand_image(&src, 3, 2);
    assert_eq!((out.width, out.height), (3, 2));
    for c in 0..3u32 {
        assert_eq!(out.channel(0, 0, c), src.channel(0, 0, c));
        assert_eq!(out.channel(1, 0, c), src.channel(1, 0, c));
        assert_eq!(out.channel(2, 0, c), 0);
        assert_eq!(out.channel(0, 1, c), 0);
        assert_eq!(out.channel(1, 1, c), 0);
        assert_eq!(out.channel(2, 1, c), 0);
    }
}

#[test]
fn hide_image_expand_keeps_carrier_region_bits() {
    // carrier 1x1 white, secret 2x1: embedding over the expanded carrier
    let carrier = buffer(1, 1, vec![255, 255, 255]);
    let secret = buffer(2, 1, vec![128, 64, 32, 255, 255, 255]);
    let hidden = hide_image(&carrier, &secret, false, true).unwrap();
    assert_eq!((hidden.width, hidden.height), (2, 1));
    // top-left pixel: expanded carrier kept (255,255,255)
    assert_eq!(&hidden.data[0..3], &[254, 253, 252]);
    // padded pixel: black carrier, secret (255,255,255)
    assert_eq!(&hidden.data[3..6], &[3, 3, 3]);
}

#[test]
fn normalization_exact_values() {
    // min 10, max 200: 10 -> 0, 200 -> 255, 105 -> round(95*255/190) = 128
    let img = buffer(1, 1, vec![10, 200, 105]);
    let out = normalize_image(&img);
    assert_eq!(out.data, vec![0, 255, 128]);
}

#[test]
fn normalization_range_spans_full_scale() {
    let img = buffer(2, 2, vec![30, 40, 50, 60, 70, 80, 90, 100, 110, 120, 130, 140]);
    let out = normalize_image(&img);
    assert_eq!(*out.data.iter().min().unwrap(), 0);
    assert_eq!(*out.data.iter().max().unwrap(), 255);
}

#[test]
fn normalization_is_idempotent() {
    let img = buffer(2, 1, vec![13, 57, 201, 255, 0, 99]);
    let once = normalize_image(&img);
    let twice = normalize_image(&once);
    assert_eq!(once.data, twice.data);
    assert_eq!((once.width, once.height), (twice.width, twice.height));
}

#[test]
fn normalization_flat_image_unchanged() {
    let img = solid(3, 2, [7, 7, 7]);
    let out = normalize_image(&img);
    assert_eq!(out.data, img.data);
    assert_eq!((out.width, out.height), (3, 2));
}

#[test]
fn text_round_trip_hi() {
    // 8x8 image, 64 pixels; "Hi" needs (2+4)*8 = 48 of them
    let img = solid(8, 8, [255, 255, 255]);
    let text = vec![b'H', b'i'];
    let hidden = hide_text_in_image(&img, &text).unwrap();
    assert_eq!((hidden.width, hidden.height), (8, 8));
    let recovered = extract_text_from_image(&hidden).unwrap();
    assert_eq!(recovered, text);
}

#[test]
fn text_embedding_bit_layout() {
    // length prefix [0,0,0,2]: bit 30 (pixel 30) is the only set length bit
    let img = solid(8, 8, [0, 10, 20]);
    let text = vec![b'H', b'i'];
    let hidden = hide_text_in_image(&img, &text).unwrap();
    for p in 0..30 {
        assert_eq!(hidden.data[3 * p] & 1, 0, "length bit {p}");
    }
    assert_eq!(hidden.data[3 * 30] & 1, 1);
    assert_eq!(hidden.data[3 * 31] & 1, 0);
    // 'H' = 0x48 = 0b0100_1000 at pixels 32..40
    let h_bits = [0, 1, 0, 0, 1, 0, 0, 0];
    for (k, bit) in h_bits.iter().enumerate() {
        assert_eq!(hidden.data[3 * (32 + k)] & 1, *bit, "payload bit {k}");
    }
}

#[test]
fn text_embedding_touches_only_red_lsbs() {
    let img = buffer(8, 8, (0..192u8).collect());
    let text = vec![42u8, 17u8];
    let hidden = hide_text_in_image(&img, &text).unwrap();
    for i in 0..img.data.len() {
        if i % 3 == 0 {
            assert_eq!(hidden.data[i] & 0xFE, img.data[i] & 0xFE);
        } else {
            assert_eq!(hidden.data[i], img.data[i]);
        }
    }
}

#[test]
fn text_capacity_boundary() {
    // 8x8 = 64 pixels: 4 bytes fit exactly ((4+4)*8 = 64), 5 do not
    let img = solid(8, 8, [1, 2, 3]);
    let four = vec![1u8, 2, 3, 4];
    assert!(hide_text_in_image(&img, &four).is_ok());
    let five = vec![1u8, 2, 3, 4, 5];
    assert_eq!(
        hide_text_in_image(&img, &five).unwrap_err(),
        StegoError::InsufficientCapacity
    );
}

#[test]
fn text_capacity_rejected_on_tiny_image() {
    let img = solid(2, 2, [0, 0, 0]);
    let r = hide_text_in_image(&img, &Vec::new());
    assert_eq!(r.unwrap_err(), StegoError::InsufficientCapacity);
}

#[test]
fn extract_rejects_image_without_length_prefix_room() {
    let img = solid(5, 6, [0, 0, 0]);
    let r = extract_text_from_image(&img);
    assert_eq!(r.unwrap_err(), StegoError::ImageTooSmall);
}

#[test]
fn extract_rejects_declared_length_beyond_image() {
    // every red LSB set: the prefix declares 0xFFFFFFFF bytes
    let img = solid(8, 8, [1, 0, 0]);
    let r = extract_text_from_image(&img);
    assert_eq!(r.unwrap_err(), StegoError::InsufficientCapacity);
}

#[test]
fn extract_empty_text() {
    let img = solid(8, 4, [0, 50, 60]);
    let hidden = hide_text_in_image(&img, &Vec::new()).unwrap();
    let recovered = extract_text_from_image(&hidden).unwrap();
    assert!(recovered.is_empty());
}

#[test]
fn text_bytes_conversion_round_trip() {
    let text: Vec<char> = vec!['H', 'i', ' ', '\u{e9}', '\u{ff}', '\0'];
    let bytes = text_to_bytes(&text).unwrap();
    assert_eq!(bytes, vec![72, 105, 32, 233, 255, 0]);
    assert_eq!(bytes_to_text(&bytes), text);
}

#[test]
fn text_to_bytes_rejects_wide_characters() {
    let text: Vec<char> = vec!['o', 'k', '\u{20ac}'];
    assert!(text_to_bytes(&text).is_none());
}

#[test]
fn full_pipeline_normalize_then_hide_then_decrypt() {
    let carrier = buffer(8, 8, (0..192u8).collect());
    let secret = solid(8, 8, [170, 85, 255]);
    let normalized = normalize_image(&carrier);
    let hidden = hide_image(&normalized, &secret, false, false).unwrap();
    let decrypted = decrypt_image(&hidden);
    let expected: Vec<u8> = secret.data.iter().map(|v| (v >> 6) * 85).collect();
    assert_eq!(decrypted.data, expected);
}

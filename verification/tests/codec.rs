use hyperstencil::codec::{decode_stencil, destencilize, encode_image, stencilize};
use hyperstencil::raster::Image;

fn image_2x2() -> Image {
    let bytes = vec![10u8, 130, 250, 0, 64, 200, 99, 5, 180, 33, 250, 1];
    Image::new(2, 2, bytes).unwrap()
}

#[test]
fn image_new_accepts_matching_dimensions() {
    let img = image_2x2();
    assert_eq!(img.width(), 2);
    assert_eq!(img.height(), 2);
    assert_eq!(img.bytes().len(), 12);
}

#[test]
fn image_new_rejects_zero_dimension() {
    assert!(Image::new(0, 2, vec![0u8; 0]).is_none());
    assert!(Image::new(2, 0, vec![0u8; 0]).is_none());
}

#[test]
fn image_new_rejects_wrong_byte_count() {
    assert!(Image::new(2, 2, vec![0u8; 11]).is_none());
    assert!(Image::new(2, 2, vec![0u8; 13]).is_none());
    assert!(Image::new(2, 2, vec![0u8; 0]).is_none());
}

#[test]
fn encode_size_law() {
    let img = image_2x2();
    for layers in [1u32, 2, 3, 4, 7, 255, 256] {
        let buffer = encode_image(&img, layers);
        assert_eq!(buffer.len(), 2 * 2 * 3 * layers as usize);
    }
}

#[test]
fn stencil_layout_exact() {
    // One pixel [10, 130, 250] over 4 layers of width 64: 10 lands in layer 0,
    // 130 in layer 2, 250 in layer 3.
    let img = Image::new(1, 1, vec![10u8, 130, 250]).unwrap();
    let buffer = encode_image(&img, 4);
    assert_eq!(buffer, vec![10u8, 0, 0, 0, 0, 0, 130, 0, 0, 0, 0, 250]);
}

#[test]
fn stencilize_appends_to_existing_buffer() {
    let img = Image::new(1, 1, vec![10u8, 130, 250]).unwrap();
    let mut buffer = vec![9u8, 9];
    stencilize(&img, &mut buffer, 1);
    assert_eq!(buffer, vec![9u8, 9, 10, 130, 250]);
}

#[test]
fn single_layer_identity() {
    let img = image_2x2();
    let encoded = encode_image(&img, 1);
    assert_eq!(encoded.as_slice(), img.bytes().as_slice());
    let decoded = decode_stencil(&encoded, 2, 2, 1);
    assert_eq!(decoded.as_slice(), img.bytes().as_slice());
}

#[test]
fn multi_layer_round_trip() {
    let img = image_2x2();
    let encoded = encode_image(&img, 4);
    assert_eq!(encoded.len(), 48);
    let decoded = decode_stencil(&encoded, 2, 2, 4);
    assert_eq!(decoded.as_slice(), img.bytes().as_slice());
}

#[test]
fn round_trip_many_layer_counts() {
    let img = image_2x2();
    for layers in [1u32, 2, 3, 5, 12, 255, 256, 300] {
        let encoded = encode_image(&img, layers);
        let decoded = decode_stencil(&encoded, 2, 2, layers);
        assert_eq!(decoded.as_slice(), img.bytes().as_slice(), "layers={layers}");
    }
}

#[test]
fn zero_layers_clamped_to_one() {
    let img = image_2x2();
    assert_eq!(encode_image(&img, 0), encode_image(&img, 1));
    let encoded = encode_image(&img, 1);
    assert_eq!(
        decode_stencil(&encoded, 2, 2, 0),
        decode_stencil(&encoded, 2, 2, 1)
    );
}

#[test]
fn encoding_is_deterministic() {
    let img = image_2x2();
    assert_eq!(encode_image(&img, 4), encode_image(&img, 4));
}

#[test]
fn decoding_is_deterministic() {
    let buffer = vec![3u8, 250, 17, 99, 0, 255, 42];
    assert_eq!(decode_stencil(&buffer, 2, 1, 3), decode_stencil(&buffer, 2, 1, 3));
}

#[test]
fn mismatched_length_wraps_by_modulus() {
    // Output position i sums input bytes at (i * 2) % 3 and (i * 2 + 1) % 3.
    let buffer = vec![5u8, 7, 9];
    let decoded = decode_stencil(&buffer, 1, 1, 2);
    assert_eq!(decoded, vec![12u8, 14, 16]);
}

#[test]
fn mismatched_length_saturates_at_255() {
    let buffer = vec![200u8, 200];
    let decoded = decode_stencil(&buffer, 1, 1, 2);
    assert_eq!(decoded, vec![255u8, 255, 255]);
}

#[test]
fn empty_input_decodes_to_zeros() {
    let buffer: Vec<u8> = Vec::new();
    let decoded = decode_stencil(&buffer, 2, 1, 3);
    assert_eq!(decoded, vec![0u8; 6]);
}

#[test]
fn destencilize_keeps_output_length() {
    let buffer = vec![1u8, 2, 3, 4, 5];
    let mut out = vec![9u8; 4];
    destencilize(&buffer, &mut out, 3);
    assert_eq!(out.len(), 4);
    // Position i sums input bytes at (3i) % 5, (3i + 1) % 5, (3i + 2) % 5.
    assert_eq!(out, vec![1 + 2 + 3, 4 + 5 + 1, 2 + 3 + 4, 5 + 1 + 2]);
}

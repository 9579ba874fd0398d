use base64::Engine;
use wornitor::image::{
    bgra_to_rgba, blur_region, compress_jpeg, crop_region, dhash_of_thumbnail, paste_region, compute_dhash, count_ones, encode_base64, format_hex16, hamming_distance,
    parse_hex, resize_image, RgbaImage,
};

fn make_test_image(w: u32, h: u32) -> RgbaImage {
    RgbaImage::from_pixel(w, h, [128, 64, 200, 255])
}

#[test]
fn test_resize_noop_when_smaller() {
    let img = make_test_image(100, 50);
    let resized = resize_image(&img, 200);
    assert_eq!(resized.dimensions(), (100, 50));
}

#[test]
fn test_resize_downscales_proportionally() {
    let img = make_test_image(2000, 1000);
    let resized = resize_image(&img, 800);
    let (w, h) = resized.dimensions();
    assert_eq!(w, 800);
    assert_eq!(h, 400);
}

#[test]
fn test_dhash_is_stable() {
    let img = make_test_image(64, 64);
    let h1 = compute_dhash(&img);
    let h2 = compute_dhash(&img);
    assert_eq!(h1, h2);
    assert_eq!(h1.len(), 16);
}

#[test]
fn test_hamming_distance_same() {
    let h = "abcd1234abcd1234";
    assert_eq!(hamming_distance(h, h), 0);
}

#[test]
fn test_hamming_distance_different() {
    let a = "0000000000000000";
    let b = "ffffffffffffffff";
    assert_eq!(hamming_distance(a, b), 64);
}

#[test]
fn test_compress_jpeg_returns_bytes() {
    let img = make_test_image(100, 100);
    let bytes = compress_jpeg(&img, 85, 200);
    assert!(!bytes.is_empty());
}

#[test]
fn test_base64_roundtrip() {
    let data = b"hello world";
    let b64 = encode_base64(data);
    assert!(!b64.is_empty());
    assert!(b64.ends_with("="), "STANDARD encoding should end with padding");
    let decoded = base64::engine::general_purpose::STANDARD.decode(&b64).unwrap();
    assert_eq!(decoded, data);
}

#[test]
fn base64_of_known_text() {
    assert_eq!(encode_base64(b"hello world"), "aGVsbG8gd29ybGQ=");
    assert_eq!(encode_base64(b""), "");
    assert_eq!(encode_base64(b"ab").len(), 4);
}

#[test]
fn resize_rounds_height_half_up() {
    // 3 x 2 scaled to width 2: 2 * 2 / 3 = 1.33 -> 1
    let r = resize_image(&make_test_image(3, 2), 2);
    assert_eq!(r.dimensions(), (2, 1));
    // 4 x 3 scaled to width 2: 1.5 -> 2
    let r = resize_image(&make_test_image(4, 3), 2);
    assert_eq!(r.dimensions(), (2, 2));
    // a very flat image keeps at least one row
    let r = resize_image(&make_test_image(1000, 1), 10);
    assert_eq!(r.dimensions(), (10, 1));
}

#[test]
fn resized_pixels_fill_the_new_size() {
    let r = resize_image(&make_test_image(40, 20), 10);
    assert_eq!(r.pixels.len(), 10 * 5 * 4);
}

#[test]
fn from_raw_checks_the_buffer_size() {
    assert!(RgbaImage::from_raw(2, 2, vec![0u8; 16]).is_some());
    assert!(RgbaImage::from_raw(2, 2, vec![0u8; 15]).is_none());
    assert!(RgbaImage::from_raw(2, 2, vec![0u8; 20]).is_some());
}

#[test]
fn jpeg_bytes_start_with_the_jpeg_marker() {
    let bytes = compress_jpeg(&make_test_image(16, 16), 85, 200);
    assert_eq!(&bytes[0..2], &[0xFF, 0xD8]);
}

#[test]
fn dhash_of_flat_image_is_zero() {
    // no pixel is brighter than its neighbour
    assert_eq!(compute_dhash(&make_test_image(32, 32)), "0000000000000000");
}

#[test]
fn hex_formatting_and_parsing() {
    assert_eq!(format_hex16(0xabcd), "000000000000abcd");
    assert_eq!(format_hex16(u64::MAX), "ffffffffffffffff");
    assert_eq!(parse_hex("ABCD"), Some(0xabcd));
    assert_eq!(parse_hex("+ff"), Some(255));
    assert_eq!(parse_hex(""), None);
    assert_eq!(parse_hex("+"), None);
    assert_eq!(parse_hex("xyz"), None);
    assert_eq!(parse_hex("10000000000000000"), None);
}

#[test]
fn hamming_counts_differing_bits_and_treats_bad_text_as_zero() {
    assert_eq!(hamming_distance("abcd1234abcd1230", "abcd1234abcd123f"), 4);
    assert_eq!(hamming_distance("not hex", "0000000000000001"), 1);
    assert_eq!(hamming_distance("a", "b"), hamming_distance("b", "a"));
    assert_eq!(count_ones(0b1011), 3);
}

#[test]
fn bgra_swap_is_an_involution() {
    let mut p = vec![1u8, 2, 3, 4, 5, 6, 7, 8, 9];
    bgra_to_rgba(&mut p);
    assert_eq!(p, vec![3, 2, 1, 4, 7, 6, 5, 8, 9]);
    bgra_to_rgba(&mut p);
    assert_eq!(p, vec![1, 2, 3, 4, 5, 6, 7, 8, 9]);
}

#[test]
fn test_blur_region_no_panic() {
    assert_eq!(blur_region(200, 200, 10, 10, 50, 50), Some((10, 10, 50, 50)));
}

#[test]
fn test_blur_region_out_of_bounds_clips() {
    assert_eq!(blur_region(100, 100, 90, 90, 100, 100), Some((90, 90, 10, 10)));
    assert_eq!(blur_region(100, 100, 500, 5, 10, 10), Some((99, 5, 1, 10)));
    assert_eq!(blur_region(100, 100, 0, 0, 0, 10), None);
    assert_eq!(blur_region(0, 0, 3, 3, 10, 10), None);
}

#[test]
fn thumbnail_hash_compares_neighbours() {
    let mut luma = vec![0u8; 72];
    // row 0: a brighter pixel before a darker one sets bit 0
    luma[0] = 10;
    assert_eq!(dhash_of_thumbnail(&luma).len(), 16);
    assert_ne!(dhash_of_thumbnail(&luma), dhash_of_thumbnail(&vec![0u8; 72]));
    assert_eq!(dhash_of_thumbnail(&vec![0u8; 72]), "0000000000000000");
}

#[test]
fn blocks_are_cut_and_pasted_in_place() {
    // a 3x2 image whose pixel (c, r) holds 10*r + c in every channel
    let mut pixels = Vec::new();
    for r in 0..2u8 {
        for c in 0..3u8 {
            pixels.extend_from_slice(&[10 * r + c; 4]);
        }
    }
    let block = crop_region(&pixels, 3, 2, 1, 0, 2, 2);
    assert_eq!(block, vec![1, 1, 1, 1, 2, 2, 2, 2, 11, 11, 11, 11, 12, 12, 12, 12]);
    let out = paste_region(&pixels, 3, 2, 1, 1, 2, 1, &vec![99; 8]);
    assert_eq!(out.len(), pixels.len());
    assert_eq!(&out[0..12], &pixels[0..12]);
    assert_eq!(&out[12..16], &pixels[12..16]);
    assert_eq!(&out[16..24], &[99; 8]);
    assert_eq!(paste_region(&pixels, 3, 2, 1, 0, 2, 2, &block), pixels);
}

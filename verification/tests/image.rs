use remajiro_tools::image::{apply_alpha_mask, apply_color_key, pixel_total};

#[test]
fn key_colored_pixels_take_the_source_color() {
    let mut pixels = vec![0xFF, 0, 0, 9, 1, 2, 3, 4];
    let source = vec![10, 11, 12, 13, 20, 21, 22, 23];
    assert!(apply_color_key(&mut pixels, 2, 1, &source, 2, 1));
    assert_eq!(pixels, vec![10, 11, 12, 9, 1, 2, 3, 4]);
}

#[test]
fn color_key_twice_is_color_key_once() {
    let mut pixels = vec![0xFF, 0, 0, 1, 0xFF, 0, 0, 2, 5, 5, 5, 3];
    let source = vec![0xFF, 0, 0, 7, 8, 8, 8, 7, 9, 9, 9, 7];
    apply_color_key(&mut pixels, 3, 1, &source, 3, 1);
    let once = pixels.clone();
    apply_color_key(&mut pixels, 3, 1, &source, 3, 1);
    assert_eq!(pixels, once);
    assert_eq!(once, vec![0xFF, 0, 0, 1, 8, 8, 8, 2, 5, 5, 5, 3]);
}

#[test]
fn color_key_stays_within_both_images() {
    let mut pixels = vec![0xFF, 0, 0, 1, 0xFF, 0, 0, 2];
    let source = vec![7, 7, 7, 7, 8, 8, 8, 8];
    assert!(apply_color_key(&mut pixels, 2, 1, &source, 1, 1));
    assert_eq!(pixels, vec![7, 7, 7, 1, 0xFF, 0, 0, 2]);

    let mut short = vec![0xFF, 0];
    assert!(!apply_color_key(&mut short, 4, 4, &source, 4, 4));
    assert_eq!(short, vec![0xFF, 0]);

    let mut none = vec![1, 2, 3, 4];
    assert!(!apply_color_key(&mut none, 1, 1, &source, 1, 1));
    assert_eq!(none, vec![1, 2, 3, 4]);
}

#[test]
fn alpha_mask_inverts_into_alpha_bytes() {
    let mut pixels = vec![1, 2, 3, 4, 5, 6, 7, 8];
    apply_alpha_mask(&mut pixels, 2, 1, &vec![0, 200]);
    assert_eq!(pixels, vec![1, 2, 3, 255, 5, 6, 7, 55]);
    let once = pixels.clone();
    apply_alpha_mask(&mut pixels, 2, 1, &vec![0, 200]);
    assert_eq!(pixels, once);
}

#[test]
fn alpha_mask_applies_as_far_as_both_reach() {
    let mut pixels = vec![1, 2, 3, 4, 5, 6, 7, 8];
    apply_alpha_mask(&mut pixels, 2, 1, &vec![10]);
    assert_eq!(pixels, vec![1, 2, 3, 245, 5, 6, 7, 8]);

    let mut pixels = vec![1, 2, 3, 4, 5, 6, 7, 8];
    apply_alpha_mask(&mut pixels, 1, 1, &vec![10, 20, 30]);
    assert_eq!(pixels, vec![1, 2, 3, 245, 5, 6, 7, 8]);

    let mut pixels = vec![1, 2, 3, 4, 5, 6];
    apply_alpha_mask(&mut pixels, 2, 1, &vec![10, 20]);
    assert_eq!(pixels, vec![1, 2, 3, 245, 5, 6]);

    let mut pixels = vec![1, 2, 3, 4];
    apply_alpha_mask(&mut pixels, 1, 1, &vec![]);
    assert_eq!(pixels, vec![1, 2, 3, 4]);
}

#[test]
fn pixel_total_multiplies() {
    assert_eq!(pixel_total(640, 480), 307200);
    assert_eq!(pixel_total(u32::MAX, u32::MAX), (u32::MAX as u64) * (u32::MAX as u64));
}

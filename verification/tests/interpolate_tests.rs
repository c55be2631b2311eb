use sift::interpolate::{bilinear_resize, calculate_resize_dimensions};
use sift::rgb_to_gray::rgba_to_gray;
use sift::resize_image;

#[test]
fn small_image_keeps_its_dimensions() {
    assert_eq!(calculate_resize_dimensions(100, 50, 200), (100, 50));
    assert_eq!(calculate_resize_dimensions(100, 50, 100), (100, 50));
    assert_eq!(calculate_resize_dimensions(50, 100, 100), (50, 100));
    assert_eq!(calculate_resize_dimensions(0, 0, 0), (0, 0));
    assert_eq!(calculate_resize_dimensions(0, 0, 10), (0, 0));
}

#[test]
fn large_image_is_scaled_to_the_long_edge() {
    assert_eq!(calculate_resize_dimensions(200, 100, 100), (100, 50));
    assert_eq!(calculate_resize_dimensions(100, 200, 100), (50, 100));
    assert_eq!(calculate_resize_dimensions(300, 200, 100), (100, 67));
    assert_eq!(calculate_resize_dimensions(101, 77, 50), (50, 38));
    assert_eq!(calculate_resize_dimensions(3, 2, 2), (2, 1));
    assert_eq!(calculate_resize_dimensions(1000, 1, 10), (10, 0));
    assert_eq!(calculate_resize_dimensions(5, 5, 0), (0, 0));
}

#[test]
fn resize_dimensions_round_a_half_up() {
    // 1 * 2 / 4 is one half
    assert_eq!(calculate_resize_dimensions(4, 1, 2), (2, 1));
    // 3 * 2 / 4 is one and a half
    assert_eq!(calculate_resize_dimensions(4, 3, 2), (2, 2));
}

#[test]
fn resize_dimensions_of_huge_images() {
    assert_eq!(calculate_resize_dimensions(u32::MAX, u32::MAX, u32::MAX - 1), (
        u32::MAX - 1,
        u32::MAX - 1
    ));
    assert_eq!(calculate_resize_dimensions(u32::MAX, 1, 2), (2, 0));
    assert_eq!(calculate_resize_dimensions(u32::MAX, u32::MAX / 2 + 1, 2), (2, 1));
}

#[test]
fn bilinear_resize_to_same_size_is_identity() {
    let src: Vec<u8> = vec![0, 100, 200, 50];
    assert_eq!(bilinear_resize(&src, 2, 2, 2, 2), src);
}

#[test]
fn bilinear_resize_interpolates_between_neighbours() {
    assert_eq!(bilinear_resize(&[0, 100], 2, 1, 4, 1), vec![0u8, 50, 100, 100]);
    assert_eq!(bilinear_resize(&[10, 20, 30], 3, 1, 2, 1), vec![10u8, 25]);
    assert_eq!(
        bilinear_resize(&[0, 100, 200, 50], 2, 2, 3, 3),
        vec![0u8, 67, 100, 133, 89, 67, 200, 100, 50]
    );
    assert_eq!(
        bilinear_resize(&[10, 20, 30, 40, 50, 60, 70, 80, 90, 100, 110, 120], 4, 3, 2, 2),
        vec![10u8, 30, 70, 90]
    );
}

#[test]
fn bilinear_resize_rounds_a_half_up() {
    assert_eq!(bilinear_resize(&[0, 1], 2, 1, 4, 1), vec![0u8, 1, 1, 1]);
}

#[test]
fn bilinear_resize_keeps_constant_image() {
    let src: Vec<u8> = vec![255; 7 * 5];
    assert_eq!(bilinear_resize(&src, 7, 5, 3, 4), vec![255u8; 12]);
    assert_eq!(bilinear_resize(&src, 7, 5, 20, 11), vec![255u8; 220]);
}

#[test]
fn bilinear_resize_to_nothing_is_empty() {
    assert!(bilinear_resize(&[1, 2, 3, 4], 2, 2, 0, 5).is_empty());
    assert!(bilinear_resize(&[1, 2, 3, 4], 2, 2, 5, 0).is_empty());
    assert!(bilinear_resize(&[], 0, 0, 0, 0).is_empty());
}

#[test]
fn bilinear_resize_upscales_single_pixel() {
    assert_eq!(bilinear_resize(&[42], 1, 1, 3, 2), vec![42u8; 6]);
}

#[test]
fn resize_image_scales_and_interpolates() {
    let image: Vec<u8> = vec![10, 20, 30, 40, 50, 60, 70, 80];
    let resized = resize_image(&image, 4, 2, 2);
    assert_eq!(resized.width(), 2);
    assert_eq!(resized.height(), 1);
    assert_eq!(resized.data(), &[10u8, 30]);
}

#[test]
fn resize_image_keeps_small_image() {
    let image: Vec<u8> = vec![10, 20, 30, 40, 50, 60];
    let resized = resize_image(&image, 3, 2, 3);
    assert_eq!(resized.width(), 3);
    assert_eq!(resized.height(), 2);
    assert_eq!(resized.data(), image.as_slice());
    let larger = resize_image(&image, 3, 2, 1000);
    assert_eq!((larger.width(), larger.height()), (3, 2));
    assert_eq!(larger.data, image);
}

#[test]
fn resize_image_of_empty_image() {
    let resized = resize_image(&[], 0, 0, 16);
    assert_eq!((resized.width(), resized.height()), (0, 0));
    assert!(resized.data().is_empty());
}

#[test]
fn gray_of_primary_colours() {
    assert_eq!(rgba_to_gray(&[255, 255, 255, 255], 1, 1), vec![255u8]);
    assert_eq!(rgba_to_gray(&[0, 0, 0, 255], 1, 1), vec![0u8]);
    assert_eq!(rgba_to_gray(&[255, 0, 0, 255], 1, 1), vec![76u8]);
    assert_eq!(rgba_to_gray(&[0, 255, 0, 0], 1, 1), vec![150u8]);
    assert_eq!(rgba_to_gray(&[0, 0, 255, 9], 1, 1), vec![29u8]);
}

#[test]
fn gray_ignores_alpha_and_trailing_bytes() {
    let rgba: Vec<u8> = vec![10, 20, 30, 0, 10, 20, 30, 255, 1, 1, 1];
    assert_eq!(rgba_to_gray(&rgba, 2, 1), vec![18u8, 18]);
    assert!(rgba_to_gray(&[1, 2, 3], 1, 1).is_empty());
    assert!(rgba_to_gray(&[], 0, 0).is_empty());
}

#[test]
fn gray_rounds_to_nearest_and_a_half_up() {
    assert_eq!(rgba_to_gray(&[12, 200, 77, 0], 1, 1), vec![130u8]);
    assert_eq!(rgba_to_gray(&[1, 1, 1, 0], 1, 1), vec![1u8]);
    // 0.587 * 12 + 0.114 * 4 is 7.5
    assert_eq!(rgba_to_gray(&[0, 12, 4, 0], 1, 1), vec![8u8]);
    // 0.299 + 0.587 * 37 + 0.114 * 13 is 23.5
    assert_eq!(rgba_to_gray(&[1, 37, 13, 0], 1, 1), vec![24u8]);
}

#[test]
fn gray_does_not_depend_on_the_named_dimensions() {
    let rgba: Vec<u8> = vec![255, 0, 0, 255, 0, 255, 0, 255];
    assert_eq!(rgba_to_gray(&rgba, usize::MAX, usize::MAX), vec![76u8, 150]);
    assert_eq!(sift::rgba_to_gray(&rgba, 2, 1), vec![76u8, 150]);
}

#[test]
fn gray_agrees_with_the_weighted_sum_away_from_halves() {
    let mut rgba: Vec<u8> = Vec::new();
    let mut expected: Vec<u8> = Vec::new();
    for r in (0..256u32).step_by(5) {
        for g in (0..256u32).step_by(7) {
            for b in (0..256u32).step_by(11) {
                let exact = 299 * r + 587 * g + 114 * b;
                if exact % 1000 == 500 {
                    continue;
                }
                rgba.extend_from_slice(&[r as u8, g as u8, b as u8, 255]);
                let v = 0.299f64 * r as f64 + 0.587f64 * g as f64 + 0.114f64 * b as f64;
                expected.push(v.round() as u8);
            }
        }
    }
    assert_eq!(rgba_to_gray(&rgba, 1, 1), expected);
}

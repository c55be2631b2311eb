use sift::grid::Grid;
use sift::octaves::{downsample_half, generate_octave, generate_pyramid};

fn ramp(width: u32, height: u32) -> Grid<i64> {
    let pixels: Vec<i64> = (0..(width * height) as i64).collect();
    Grid::new(&pixels, width, height)
}

fn doubling_kernels(n: usize) -> Vec<Grid<i64>> {
    (0..n).map(|_| Grid::new(&[2i64], 1, 1)).collect()
}

fn unit_kernels(n: usize) -> Vec<Grid<f32>> {
    (0..n).map(|_| Grid::new(&[1.0f32], 1, 1)).collect()
}

#[test]
fn downsample_takes_every_second_pixel() {
    let half = downsample_half(&ramp(4, 4));
    assert_eq!((half.get_width(), half.get_height()), (2, 2));
    assert_eq!(half.data, vec![0i64, 2, 8, 10]);
    let wide = downsample_half(&ramp(5, 3));
    assert_eq!((wide.get_width(), wide.get_height()), (2, 1));
    assert_eq!(wide.data, vec![0i64, 2]);
    let tall = downsample_half(&ramp(2, 6));
    assert_eq!((tall.get_width(), tall.get_height()), (1, 3));
    assert_eq!(tall.data, vec![0i64, 4, 8]);
}

#[test]
fn downsample_never_goes_below_one_pixel() {
    let one = downsample_half(&ramp(1, 1));
    assert_eq!((one.get_width(), one.get_height()), (1, 1));
    assert_eq!(one.data, vec![0i64]);
    let row = downsample_half(&ramp(6, 1));
    assert_eq!((row.get_width(), row.get_height()), (3, 1));
    assert_eq!(row.data, vec![0i64, 2, 4]);
}

#[test]
fn octave_has_scales_plus_three_levels_and_their_differences() {
    let image = Grid::new(&[1i64, 2, 3, 4], 2, 2);
    let (dogs, gaussians) = generate_octave(&image, 1, None, &doubling_kernels(3), 0);
    assert_eq!(gaussians.len(), 4);
    assert_eq!(dogs.len(), 3);
    assert_eq!(gaussians[0].data, vec![1i64, 2, 3, 4]);
    assert_eq!(gaussians[1].data, vec![2i64, 4, 6, 8]);
    assert_eq!(gaussians[2].data, vec![4i64, 8, 12, 16]);
    assert_eq!(gaussians[3].data, vec![8i64, 16, 24, 32]);
    // each difference is the blurrier level minus the sharper one
    assert_eq!(dogs[0].data, vec![1i64, 2, 3, 4]);
    assert_eq!(dogs[1].data, vec![2i64, 4, 6, 8]);
    assert_eq!(dogs[2].data, vec![4i64, 8, 12, 16]);
    for g in gaussians.iter().chain(dogs.iter()) {
        assert_eq!((g.get_width(), g.get_height()), (2, 2));
    }
}

#[test]
fn octave_blurs_the_image_by_the_base_kernel_first() {
    let image = Grid::new(&[1i64, 2, 3, 4], 2, 2);
    let base = Grid::new(&[10i64], 1, 1);
    let (dogs, gaussians) = generate_octave(&image, 2, Some(&base), &doubling_kernels(4), 0);
    assert_eq!(gaussians.len(), 5);
    assert_eq!(dogs.len(), 4);
    assert_eq!(gaussians[0].data, vec![10i64, 20, 30, 40]);
    assert_eq!(gaussians[4].data, vec![160i64, 320, 480, 640]);
    assert_eq!(dogs[3].data, vec![80i64, 160, 240, 320]);
}

#[test]
fn octave_blurs_each_level_from_the_one_before() {
    // a kernel that shifts the image to the left by one pixel: applied
    // twice it shifts by two
    let image = Grid::new(&[1i64, 2, 3, 4, 5], 5, 1);
    let shift = || Grid::new(&[0i64, 0, 1], 3, 1);
    let kernels = vec![shift(), shift(), shift()];
    let (_, gaussians) = generate_octave(&image, 1, None, &kernels, 0);
    assert_eq!(gaussians[1].data, vec![2i64, 3, 4, 5, 5]);
    assert_eq!(gaussians[2].data, vec![3i64, 4, 5, 5, 5]);
    assert_eq!(gaussians[3].data, vec![4i64, 5, 5, 5, 5]);
}

#[test]
fn pyramid_halves_until_the_short_side_is_below_sixteen() {
    let base = Grid::new_filled(64, 32, 1.0f32);
    let (dogs, gaussians) = generate_pyramid(&base, 1, None, &unit_kernels(3), None, 0.0);
    assert_eq!(dogs.len(), 2);
    assert_eq!(gaussians.len(), 2);
    assert_eq!((gaussians[0][0].get_width(), gaussians[0][0].get_height()), (64, 32));
    assert_eq!((gaussians[1][0].get_width(), gaussians[1][0].get_height()), (32, 16));
    for o in 0..2 {
        assert_eq!(gaussians[o].len(), 4);
        assert_eq!(dogs[o].len(), 3);
    }
}

#[test]
fn pyramid_of_small_image_is_empty() {
    let base = Grid::new_filled(15, 100, 1.0f32);
    let (dogs, gaussians) = generate_pyramid(&base, 3, None, &unit_kernels(5), None, 0.0);
    assert!(dogs.is_empty());
    assert!(gaussians.is_empty());
    let flat = Grid::new_filled(100, 15, 1.0f32);
    assert!(generate_pyramid(&flat, 3, None, &unit_kernels(5), None, 0.0).0.is_empty());
    let empty: Grid<f32> = Grid::new(&[], 0, 0);
    assert!(generate_pyramid(&empty, 3, None, &unit_kernels(5), None, 0.0).0.is_empty());
}

#[test]
fn pyramid_of_sixteen_pixels_has_one_octave() {
    let base = Grid::new_filled(16, 16, 1.0f32);
    let (dogs, gaussians) = generate_pyramid(&base, 2, None, &unit_kernels(4), None, 0.0);
    assert_eq!(dogs.len(), 1);
    assert_eq!(gaussians[0].len(), 5);
    assert_eq!(dogs[0].len(), 4);
}

#[test]
fn pyramid_stops_at_the_octave_limit() {
    let base = Grid::new_filled(256, 256, 1.0f32);
    let all = generate_pyramid(&base, 1, None, &unit_kernels(3), None, 0.0);
    assert_eq!(all.0.len(), 5);
    let two = generate_pyramid(&base, 1, None, &unit_kernels(3), Some(2), 0.0);
    assert_eq!(two.0.len(), 2);
    assert_eq!(two.1.len(), 2);
    let none = generate_pyramid(&base, 1, None, &unit_kernels(3), Some(0), 0.0);
    assert!(none.0.is_empty());
    let many = generate_pyramid(&base, 1, None, &unit_kernels(3), Some(100), 0.0);
    assert_eq!(many.0.len(), 5);
}

#[test]
fn pyramid_chains_octaves_from_level_scales() {
    // a 16 by 32 ramp; each level doubles, so level `scales` = 1 of the
    // first octave is twice the image, and the second octave starts from
    // every second pixel of that
    let base = ramp(32, 32);
    let first = Grid::new(&[3i64], 1, 1);
    let (dogs, gaussians) =
        generate_pyramid(&base, 1, Some(&first), &doubling_kernels(3), None, 0);
    assert_eq!(dogs.len(), 2);
    assert_eq!(gaussians[0][0].get_pixel(5, 7), 3 * (7 * 32 + 5));
    assert_eq!(gaussians[0][1].get_pixel(5, 7), 6 * (7 * 32 + 5));
    // the base kernel is used for the first octave only
    assert_eq!(gaussians[1][0].get_pixel(5, 7), 6 * (14 * 32 + 10));
    assert_eq!(gaussians[1][1].get_pixel(5, 7), 12 * (14 * 32 + 10));
    assert_eq!(dogs[1][0].get_pixel(5, 7), 6 * (14 * 32 + 10));
    assert_eq!((gaussians[1][0].get_width(), gaussians[1][0].get_height()), (16, 16));
}

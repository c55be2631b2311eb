use sift::grid::{clamp_coord, clamp_index, Grid};

fn ramp3() -> Grid<i64> {
    Grid::new(&[1i64, 2, 3, 4, 5, 6, 7, 8, 9], 3, 3)
}

#[test]
fn clamp_coord_moves_to_range() {
    assert_eq!(clamp_coord(-3, 0, 9), 0);
    assert_eq!(clamp_coord(12, 0, 9), 9);
    assert_eq!(clamp_coord(4, 0, 9), 4);
    assert_eq!(clamp_coord(0, 0, 9), 0);
    assert_eq!(clamp_coord(9, 0, 9), 9);
    assert_eq!(clamp_coord(i32::MIN, -5, 5), -5);
    assert_eq!(clamp_coord(i32::MAX, -5, 5), 5);
}

#[test]
fn clamp_index_moves_to_row() {
    assert_eq!(clamp_index(-1, 4), 0);
    assert_eq!(clamp_index(7, 4), 3);
    assert_eq!(clamp_index(2, 4), 2);
    assert_eq!(clamp_index(i64::MAX, 1), 0);
    assert_eq!(clamp_index(5_000_000_000, u32::MAX), u32::MAX - 1);
}

#[test]
fn new_copies_buffer_and_dimensions() {
    let buffer: Vec<u8> = vec![1, 2, 3, 4, 5, 6];
    let g = Grid::new(&buffer, 3, 2);
    assert_eq!(g.get_width(), 3);
    assert_eq!(g.get_height(), 2);
    assert_eq!(g.get_buffer(), &[1u8, 2, 3, 4, 5, 6]);
    assert_eq!(g.data, buffer);
}

#[test]
fn new_accepts_empty_grid() {
    let g: Grid<u8> = Grid::new(&[], 0, 5);
    assert_eq!(g.get_width(), 0);
    assert_eq!(g.get_height(), 5);
    assert!(g.get_buffer().is_empty());
}

#[test]
fn get_pixel_reads_row_major() {
    let g = Grid::new(&[1u8, 2, 3, 4, 5, 6], 3, 2);
    assert_eq!(g.get_pixel(0, 0), 1);
    assert_eq!(g.get_pixel(2, 0), 3);
    assert_eq!(g.get_pixel(0, 1), 4);
    assert_eq!(g.get_pixel(2, 1), 6);
}

#[test]
fn set_pixel_changes_one_pixel() {
    let mut g = Grid::new(&[1u8, 2, 3, 4, 5, 6], 3, 2);
    g.set_pixel(1, 0, 9);
    assert_eq!(g.data, vec![1u8, 9, 3, 4, 5, 6]);
    g.set_pixel(2, 1, 0);
    assert_eq!(g.data, vec![1u8, 9, 3, 4, 5, 0]);
    assert_eq!(g.get_width(), 3);
    assert_eq!(g.get_height(), 2);
}

#[test]
fn new_filled_fills_every_pixel() {
    let g = Grid::new_filled(2, 3, 7i32);
    assert_eq!(g.get_width(), 2);
    assert_eq!(g.get_height(), 3);
    assert_eq!(g.data, vec![7i32; 6]);
    let empty = Grid::new_filled(0, 3, 7i32);
    assert!(empty.data.is_empty());
}

#[test]
fn get_pixel_safe_replicates_border() {
    let g = Grid::new(&[1u8, 2, 3, 4, 5, 6], 3, 2);
    assert_eq!(g.get_pixel_safe(1, 1), 5);
    assert_eq!(g.get_pixel_safe(-5, 1), 4);
    assert_eq!(g.get_pixel_safe(10, 10), 6);
    assert_eq!(g.get_pixel_safe(1, -1), 2);
    assert_eq!(g.get_pixel_safe(i32::MIN, i32::MIN), 1);
    assert_eq!(g.get_pixel_safe(i32::MAX, i32::MIN), 3);
    assert_eq!(g.get_pixel_safe(i32::MIN, i32::MAX), 4);
}

#[test]
fn convolve_identity_kernel_keeps_image() {
    let image = Grid::new(&[1.0f32, 2.0, 3.0, 4.0, 5.0, 6.0], 3, 2);
    let kernel = Grid::new(&[0.0f32, 0.0, 0.0, 0.0, 1.0, 0.0, 0.0, 0.0, 0.0], 3, 3);
    let out = image.convolve(&kernel, 0.0);
    assert_eq!(out.get_width(), 3);
    assert_eq!(out.get_height(), 2);
    assert_eq!(out.data, vec![1.0f32, 2.0, 3.0, 4.0, 5.0, 6.0]);
}

#[test]
fn convolve_box_kernel_sums_window_with_replicated_border() {
    let kernel = Grid::new(&[1i64; 9], 3, 3);
    let out = ramp3().convolve(&kernel, 0);
    assert_eq!(out.data, vec![21i64, 27, 33, 39, 45, 51, 57, 63, 69]);
}

#[test]
fn convolve_does_not_flip_the_kernel() {
    // The only weight sits one column to the right of the centre, so each
    // output pixel is its right neighbour.
    let image = Grid::new(&[1i64, 2, 3], 3, 1);
    let kernel = Grid::new(&[0i64, 0, 0, 0, 0, 1, 0, 0, 0], 3, 3);
    assert_eq!(image.convolve(&kernel, 0).data, vec![2i64, 3, 3]);
    // The only weight sits one row above the centre.
    let above = Grid::new(&[0i64, 1, 0, 0, 0, 0, 0, 0, 0], 3, 3);
    assert_eq!(ramp3().convolve(&above, 0).data, vec![1i64, 2, 3, 1, 2, 3, 4, 5, 6]);
}

#[test]
fn convolve_with_a_row_kernel() {
    let image = Grid::new(&[1i64, 2, 3, 4, 5, 6], 3, 2);
    let kernel = Grid::new(&[1i64, 2, 3], 3, 1);
    assert_eq!(image.convolve(&kernel, 0).data, vec![9i64, 14, 17, 27, 32, 35]);
}

#[test]
fn convolve_at_gives_one_output_pixel() {
    let kernel = Grid::new(&[1i64; 9], 3, 3);
    assert_eq!(ramp3().convolve_at(&kernel, 0, 1, 1), 45);
    assert_eq!(ramp3().convolve_at(&kernel, 0, 0, 0), 21);
    assert_eq!(ramp3().convolve_at(&kernel, 100, 2, 2), 169);
}

#[test]
fn convolve_of_empty_image_is_empty() {
    let image: Grid<i64> = Grid::new(&[], 0, 0);
    let kernel = Grid::new(&[1i64], 1, 1);
    let out = image.convolve(&kernel, 0);
    assert_eq!(out.get_width(), 0);
    assert_eq!(out.get_height(), 0);
    assert!(out.data.is_empty());
}

#[test]
fn convolve_constant_image_with_kernel_of_sum_one_is_constant() {
    let image = Grid::new_filled(4, 3, 7i64);
    let kernel = Grid::new(&[0i64, 1, 0, 1, -3, 1, 0, 1, 0], 3, 3);
    assert_eq!(image.convolve(&kernel, 0).data, vec![7i64; 12]);
}

#[test]
fn convolve_constant_float_image_with_normalized_kernel_keeps_value() {
    let image = Grid::new_filled(6, 5, 123.5f32);
    let weights: Vec<f32> = vec![1.0, 2.0, 1.0, 2.0, 4.0, 2.0, 1.0, 2.0, 1.0];
    let sum: f32 = weights.iter().sum();
    let normalized: Vec<f32> = weights.iter().map(|w| w / sum).collect();
    let kernel = Grid::new(&normalized, 3, 3);
    let out = image.convolve(&kernel, 0.0);
    for v in out.data {
        assert!((v - 123.5).abs() < 1e-3, "{v}");
    }
}

#[test]
fn difference_subtracts_pixel_by_pixel() {
    let a = Grid::new(&[5i32, 7, 0, -4], 2, 2);
    let b = Grid::new(&[1i32, 10, 0, 4], 2, 2);
    let d = a.difference(&b);
    assert_eq!(d.get_width(), 2);
    assert_eq!(d.get_height(), 2);
    assert_eq!(d.data, vec![4i32, -3, 0, -8]);
    assert_eq!(b.difference(&a).data, vec![-4i32, 3, 0, 8]);
}

#[test]
fn difference_of_a_grid_with_itself_is_zero() {
    let a = Grid::new(&[5i32, -7, 0, i32::MAX, i32::MIN, 3], 3, 2);
    assert_eq!(a.difference(&a).data, vec![0i32; 6]);
    let f = Grid::new(&[1.5f32, -2.25, 0.0, 1e30], 2, 2);
    assert_eq!(f.difference(&f).data, vec![0.0f32; 4]);
}

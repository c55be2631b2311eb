use sift::grid::Grid;
use sift::keypoints::{
    detect_keypoints, hessian_terms, is_local_extremum, pass_edge_response, HessianKernels,
    Keypoint, ScaleLevel,
};
use sift::orientation::{assign_orientation, cast_vote, dominant_bin, Vote, ORIENTATION_BINS};

const TAU: f32 = std::f32::consts::TAU;

fn zeros(width: u32, height: u32) -> Grid<f32> {
    Grid::new_filled(width, height, 0.0f32)
}

fn with_pixel(mut grid: Grid<f32>, x: u32, y: u32, value: f32) -> Grid<f32> {
    grid.set_pixel(x, y, value);
    grid
}

fn kernels() -> HessianKernels<f32> {
    HessianKernels::from_weights(0.0, 1.0, -2.0, 0.25, -0.25)
}

fn cell(value: f32) -> Grid<f32> {
    Grid::new(&[value], 1, 1)
}

fn edge(xx: f32, yy: f32, xy: f32, r: f32) -> bool {
    pass_edge_response(&cell(xx), &cell(yy), &cell(xy), 0, 0, r, 0.0, 1.0)
}

/// The vote of a gradient: the bin of its angle, ten degrees to a bin, and
/// its magnitude weighted by the distance from the centre.
fn vote(sigma: f32, gx: f32, gy: f32, dx: i32, dy: i32) -> Vote<f32> {
    let sigma_ori = 1.5 * sigma;
    let mag = (gx * gx + gy * gy).sqrt();
    let angle = gy.atan2(gx);
    let weight = (-(dx * dx + dy * dy) as f32 / (2.0 * sigma_ori * sigma_ori)).exp();
    let ang = if angle < 0.0 { angle + TAU } else { angle };
    let bin = ((ang * 36.0 / TAU).round() as usize) % 36;
    Vote { bin, weight: weight * mag }
}

fn image_of(width: u32, height: u32, f: impl Fn(f32, f32) -> f32) -> Grid<f32> {
    let mut pixels: Vec<f32> = Vec::new();
    for y in 0..height {
        for x in 0..width {
            pixels.push(f(x as f32, y as f32));
        }
    }
    Grid::new(&pixels, width, height)
}

fn bin_angles() -> Vec<f32> {
    (0..36).map(|bin| (bin as f32 + 0.5) * (TAU / 36.0)).collect()
}

fn levels(n: usize) -> Vec<ScaleLevel<f32>> {
    (0..n)
        .map(|l| ScaleLevel {
            sigma: 1.6 + l as f32,
            orientation_radius: 2,
            descriptor_radius: 3,
        })
        .collect()
}

fn detect(dogs: &[Vec<Grid<f32>>], gaussians: &[Vec<Grid<f32>>], scales: usize) -> Vec<Keypoint<f32>> {
    detect_keypoints(
        dogs,
        gaussians,
        scales,
        &levels(scales + 1),
        &bin_angles(),
        0.03,
        10.0,
        &kernels(),
        &vote,
        0.0,
        1.0,
        -1.0,
    )
}

fn places(keypoints: &[Keypoint<f32>]) -> Vec<(usize, usize, u32, u32)> {
    keypoints.iter().map(|kp| (kp.octave, kp.level, kp.x, kp.y)).collect()
}

#[test]
fn hessian_kernels_are_the_second_differences() {
    let k = kernels();
    assert_eq!(k.dxx.data, vec![0.0f32, 0.0, 0.0, 1.0, -2.0, 1.0, 0.0, 0.0, 0.0]);
    assert_eq!(k.dyy.data, vec![0.0f32, 1.0, 0.0, 0.0, -2.0, 0.0, 0.0, 1.0, 0.0]);
    assert_eq!(k.dxy.data, vec![0.25f32, 0.0, -0.25, 0.0, 0.0, 0.0, -0.25, 0.0, 0.25]);
    for g in [&k.dxx, &k.dyy, &k.dxy] {
        assert_eq!((g.get_width(), g.get_height()), (3, 3));
    }
}

#[test]
fn hessian_terms_of_a_quadratic() {
    // x^2 + 3 y^2 + 2 x y: second differences 2, 6 and 2
    let image = image_of(5, 5, |x, y| x * x + 3.0 * y * y + 2.0 * x * y);
    let (dxx, dyy, dxy) = hessian_terms(&image, &kernels(), 0.0);
    assert_eq!(dxx.get_pixel(2, 2), 2.0);
    assert_eq!(dyy.get_pixel(2, 2), 6.0);
    assert_eq!(dxy.get_pixel(2, 2), 2.0);
    assert_eq!((dxx.get_width(), dxx.get_height()), (5, 5));
    let ints = Grid::new(&[0i64, 1, 4, 9, 16], 5, 1);
    let whole = HessianKernels::from_weights(0i64, 1, -2, 0, 0);
    assert_eq!(hessian_terms(&ints, &whole, 0).0.data, vec![1i64, 2, 2, 2, -7]);
}

#[test]
fn round_blob_passes_the_edge_test() {
    assert!(edge(2.0, 2.0, 0.0, 10.0));
    assert!(edge(-2.0, -2.0, 0.0, 10.0));
    assert!(edge(-2.0, -3.0, 1.0, 10.0));
}

#[test]
fn edge_and_saddle_fail_the_edge_test() {
    // one curvature a hundred times the other
    assert!(!edge(10.0, 0.1, 0.0, 10.0));
    // curvatures of opposite sign: the determinant is negative
    assert!(!edge(1.0, -1.0, 0.0, 10.0));
    // the determinant is zero
    assert!(!edge(1.0, 0.0, 0.0, 10.0));
    assert!(!edge(0.0, 0.0, 0.0, 10.0));
    assert!(!edge(1.0, 1.0, 1.0, 10.0));
}

#[test]
fn edge_bound_is_r_plus_one_squared_over_r() {
    // curvatures 1 and 10: trace^2 / det = 121 / 10 = 12.1, the bound for r = 10
    assert!(!edge(1.0, 10.0, 0.0, 10.0));
    assert!(edge(1.0, 9.9, 0.0, 10.0));
    // for r = 1 only equal curvatures could pass, and the bound 4 is exclusive
    assert!(!edge(2.0, 2.0, 0.0, 1.0));
    assert!(edge(2.0, 2.0, 0.0, 1.5));
}

#[test]
fn edge_test_reads_the_named_pixel() {
    let dxx = Grid::new(&[1.0f32, 2.0, 1.0, 10.0], 2, 2);
    let dyy = Grid::new(&[-1.0f32, 2.0, 0.0, 0.1], 2, 2);
    let dxy = zeros(2, 2);
    let at = |x: u32, y: u32| pass_edge_response(&dxx, &dyy, &dxy, x, y, 10.0, 0.0, 1.0);
    assert!(!at(0, 0));
    assert!(at(1, 0));
    assert!(!at(0, 1));
    assert!(!at(1, 1));
}

#[test]
fn peak_among_flat_neighbours_is_an_extremum() {
    let stack = vec![zeros(3, 3), with_pixel(zeros(3, 3), 1, 1, 1.0), zeros(3, 3)];
    assert!(is_local_extremum(&stack, 1, 1, 1, 0.03, 0.0));
    let pit = vec![zeros(3, 3), with_pixel(zeros(3, 3), 1, 1, -1.0), zeros(3, 3)];
    assert!(is_local_extremum(&pit, 1, 1, 1, 0.03, 0.0));
    // the flat neighbours themselves are not
    assert!(!is_local_extremum(&stack, 1, 0, 1, 0.03, 0.0));
    assert!(!is_local_extremum(&stack, 1, 2, 2, 0.03, 0.0));
}

#[test]
fn weak_peak_fails_the_contrast_threshold() {
    let weak = vec![zeros(3, 3), with_pixel(zeros(3, 3), 1, 1, 0.02), zeros(3, 3)];
    assert!(!is_local_extremum(&weak, 1, 1, 1, 0.03, 0.0));
    let pit = vec![zeros(3, 3), with_pixel(zeros(3, 3), 1, 1, -0.02), zeros(3, 3)];
    assert!(!is_local_extremum(&pit, 1, 1, 1, 0.03, 0.0));
    // a magnitude equal to the threshold is enough
    let exact = vec![zeros(3, 3), with_pixel(zeros(3, 3), 1, 1, 0.03), zeros(3, 3)];
    assert!(is_local_extremum(&exact, 1, 1, 1, 0.03, 0.0));
    let below = vec![zeros(3, 3), with_pixel(zeros(3, 3), 1, 1, -0.03), zeros(3, 3)];
    assert!(is_local_extremum(&below, 1, 1, 1, 0.03, 0.0));
}

#[test]
fn extremum_must_be_strict_in_space_and_scale() {
    for level in 0..3usize {
        for y in 0..3u32 {
            for x in 0..3u32 {
                if level == 1 && x == 1 && y == 1 {
                    continue;
                }
                let mut stack = vec![zeros(3, 3), with_pixel(zeros(3, 3), 1, 1, 1.0), zeros(3, 3)];
                // one neighbour as high as the peak
                stack[level].set_pixel(x, y, 1.0);
                assert!(!is_local_extremum(&stack, 1, 1, 1, 0.03, 0.0), "{level} {x} {y}");
                // one neighbour higher than the peak, the rest lower
                stack[level].set_pixel(x, y, 2.0);
                assert!(!is_local_extremum(&stack, 1, 1, 1, 0.03, 0.0), "{level} {x} {y}");
                // a neighbour that is lower does no harm
                stack[level].set_pixel(x, y, -2.0);
                assert!(is_local_extremum(&stack, 1, 1, 1, 0.03, 0.0), "{level} {x} {y}");
            }
        }
    }
}

#[test]
fn border_pixel_meets_itself_and_is_no_extremum() {
    let stack = vec![zeros(3, 3), with_pixel(zeros(3, 3), 0, 0, 1.0), zeros(3, 3)];
    assert!(!is_local_extremum(&stack, 1, 0, 0, 0.03, 0.0));
}

#[test]
fn extremum_in_whole_numbers() {
    let flat = || Grid::new_filled(3, 3, 0i64);
    let mut peak = flat();
    peak.set_pixel(1, 1, 5);
    let stack = vec![flat(), peak, flat(), flat()];
    assert!(is_local_extremum(&stack, 1, 1, 1, 3, 0));
    assert!(!is_local_extremum(&stack, 1, 1, 1, 6, 0));
    assert!(!is_local_extremum(&stack, 2, 1, 1, 0, 0));
}

#[test]
fn dominant_bin_is_the_first_greatest() {
    assert_eq!(dominant_bin(&vec![0.0f32, 3.0, 7.0, 7.0, 2.0], -1.0), 2);
    assert_eq!(dominant_bin(&vec![9.0f32, 3.0, 7.0], -1.0), 0);
    assert_eq!(dominant_bin(&vec![1.0f32, 3.0, 7.0], -1.0), 2);
    // nothing exceeds the floor
    assert_eq!(dominant_bin(&vec![0.0f32; 36], -1.0), 0);
    assert_eq!(dominant_bin(&vec![0.0f32, 5.0, 2.0], 5.0), 0);
    assert_eq!(dominant_bin(&Vec::<f32>::new(), -1.0), 0);
    assert_eq!(dominant_bin(&vec![4i64, 9, 9, 1], -1), 1);
}

#[test]
fn cast_vote_adds_to_the_bin_modulo_thirty_six() {
    assert_eq!(ORIENTATION_BINS, 36);
    let mut hist = vec![0.0f32; 36];
    cast_vote(&mut hist, &Vote { bin: 3, weight: 1.5 });
    cast_vote(&mut hist, &Vote { bin: 3, weight: 1.0 });
    cast_vote(&mut hist, &Vote { bin: 37, weight: 4.0 });
    cast_vote(&mut hist, &Vote { bin: 36, weight: 8.0 });
    cast_vote(&mut hist, &Vote { bin: 35, weight: 16.0 });
    cast_vote(&mut hist, &Vote { bin: usize::MAX, weight: 32.0 });
    let mut expected = vec![0.0f32; 36];
    expected[3] = 2.5;
    expected[1] = 4.0;
    expected[0] = 8.0;
    expected[35] = 16.0;
    expected[usize::MAX % 36] += 32.0;
    assert_eq!(hist, expected);
}

#[test]
fn orientation_follows_the_gradient() {
    let at = |f: fn(f32, f32) -> f32| {
        assign_orientation(&image_of(9, 9, f), 4, 4, 1.6, 3, &vote, 0.0, -1.0)
    };
    // brighter to the right: angle 0
    assert_eq!(at(|x, _| x), 0);
    // brighter downwards: a quarter turn
    assert_eq!(at(|_, y| y), 9);
    // brighter to the left: half a turn
    assert_eq!(at(|x, _| -x), 18);
    // brighter upwards: three quarters
    assert_eq!(at(|_, y| -y), 27);
    // brighter down and to the right: an eighth; 4.5 is rounded away from zero
    assert_eq!(at(|x, y| x + y), 5);
}

#[test]
fn orientation_of_a_flat_image_is_bin_zero() {
    let image = Grid::new_filled(9, 9, 3.0f32);
    assert_eq!(assign_orientation(&image, 4, 4, 1.6, 3, &vote, 0.0, -1.0), 0);
    // no window, or none inside the image
    let ramp = image_of(9, 9, |_, y| y);
    assert_eq!(assign_orientation(&ramp, 4, 4, 1.6, -1, &vote, 0.0, -1.0), 0);
    assert_eq!(assign_orientation(&ramp, 0, 0, 1.6, 0, &vote, 0.0, -1.0), 0);
    assert_eq!(assign_orientation(&ramp, 4, 4, 1.6, 0, &vote, 0.0, -1.0), 9);
    let tiny = image_of(2, 2, |_, y| y);
    assert_eq!(assign_orientation(&tiny, 0, 0, 1.6, 5, &vote, 0.0, -1.0), 0);
}

#[test]
fn orientation_counts_weighted_votes() {
    // two votes for bin 5 of weight 1 lose against one vote of weight 3 for bin 7
    let image = image_of(5, 3, |x, _| x);
    let counted = |_s: f32, _gx: f32, _gy: f32, dx: i32, _dy: i32| match dx {
        -1 => Vote { bin: 5, weight: 1.0f32 },
        0 => Vote { bin: 7, weight: 3.0 },
        _ => Vote { bin: 5 + 36, weight: 1.0 },
    };
    assert_eq!(assign_orientation(&image, 2, 1, 1.0, 1, &counted, 0.0, -1.0), 7);
    let even = |_s: f32, _gx: f32, _gy: f32, dx: i32, _dy: i32| match dx {
        -1 => Vote { bin: 9, weight: 1.5f32 },
        0 => Vote { bin: 7, weight: 3.0 },
        _ => Vote { bin: 9, weight: 1.5 },
    };
    // equal counts: the lower bin wins
    assert_eq!(assign_orientation(&image, 2, 1, 1.0, 1, &even, 0.0, -1.0), 7);
}

#[test]
fn single_peak_is_detected_with_scale_and_orientation() {
    let dogs = vec![vec![zeros(5, 5), with_pixel(zeros(5, 5), 2, 2, 1.0), zeros(5, 5)]];
    let gaussians = vec![vec![zeros(5, 5), image_of(5, 5, |_, y| y)]];
    let found = detect(&dogs, &gaussians, 1);
    assert_eq!(places(&found), vec![(0, 1, 2, 2)]);
    assert_eq!(found[0].sigma, 2.6);
    assert_eq!(found[0].angle, 9.5 * (TAU / 36.0));
}

#[test]
fn keypoints_come_in_scan_order() {
    let level = |points: &[(u32, u32)]| {
        let mut g = zeros(9, 7);
        for (x, y) in points {
            g.set_pixel(*x, *y, 1.0);
        }
        g
    };
    let flat = || Grid::new_filled(9, 7, 0.0f32);
    let octave0 = vec![flat(), level(&[(6, 4), (2, 2)]), level(&[(4, 1)]), flat()];
    let octave1 = vec![
        Grid::new_filled(5, 5, 0.0f32),
        Grid::new_filled(5, 5, 0.0f32),
        with_pixel(Grid::new_filled(5, 5, 0.0f32), 3, 3, -1.0),
        Grid::new_filled(5, 5, 0.0f32),
    ];
    let gaussians = vec![
        vec![flat(), flat(), flat()],
        vec![
            Grid::new_filled(5, 5, 0.0f32),
            Grid::new_filled(5, 5, 0.0f32),
            Grid::new_filled(5, 5, 0.0f32),
        ],
    ];
    let found = detect(&[octave0, octave1], &gaussians, 2);
    assert_eq!(
        places(&found),
        vec![(0, 1, 2, 2), (0, 1, 6, 4), (0, 2, 4, 1), (1, 2, 3, 3)]
    );
    for kp in &found {
        assert_eq!(kp.sigma, 1.6 + kp.level as f32);
        assert_eq!(kp.angle, 0.5 * (TAU / 36.0));
    }
}

#[test]
fn peaks_on_the_border_and_on_outer_levels_are_not_keypoints() {
    let flat = || zeros(5, 5);
    let border = vec![vec![flat(), with_pixel(flat(), 0, 2, 1.0), flat()]];
    let gaussians = vec![vec![flat(), flat()]];
    assert!(detect(&border, &gaussians, 1).is_empty());
    let corner = vec![vec![flat(), with_pixel(flat(), 4, 4, 1.0), flat()]];
    assert!(detect(&corner, &gaussians, 1).is_empty());
    let lowest = vec![vec![with_pixel(flat(), 2, 2, 1.0), flat(), flat()]];
    assert!(detect(&lowest, &gaussians, 1).is_empty());
    let highest = vec![vec![flat(), flat(), with_pixel(flat(), 2, 2, 1.0)]];
    assert!(detect(&highest, &gaussians, 1).is_empty());
}

#[test]
fn weak_and_edge_like_peaks_are_not_keypoints() {
    let flat = || zeros(7, 7);
    let gaussians = vec![vec![flat(), flat()]];
    let weak = vec![vec![flat(), with_pixel(flat(), 3, 3, 0.02), flat()]];
    assert!(detect(&weak, &gaussians, 1).is_empty());
    // a ridge along x: strongly curved across, hardly curved along
    let mut ridge = flat();
    for x in 0..7u32 {
        ridge.set_pixel(x, 3, 1.0 - 0.001 * (x as f32 - 3.0) * (x as f32 - 3.0));
    }
    let edge_like = vec![vec![flat(), ridge, flat()]];
    assert!(detect(&edge_like, &gaussians, 1).is_empty());
}

#[test]
fn small_levels_and_empty_pyramids_have_no_keypoints() {
    let tiny = || with_pixel(zeros(2, 2), 1, 1, 1.0);
    let dogs = vec![vec![tiny(), tiny(), tiny()]];
    let gaussians = vec![vec![tiny(), tiny()]];
    assert!(detect(&dogs, &gaussians, 1).is_empty());
    assert!(detect(&[], &[], 3).is_empty());
}

#[test]
fn keypoints_are_flattened_to_six_numbers_each() {
    let keypoints = vec![
        Keypoint { x: 7, y: 9, octave: 0, level: 2, sigma: 2.5f32, angle: 0.25 },
        Keypoint { x: 1, y: 300, octave: 3, level: 1, sigma: 2.0f32, angle: 6.0 },
    ];
    let flat = sift::keypoints::flatten_keypoints(&keypoints, &|v: usize| v as f32);
    assert_eq!(
        flat,
        vec![7.0f32, 9.0, 0.0, 2.0, 2.5, 0.25, 1.0, 300.0, 3.0, 1.0, 2.0, 6.0]
    );
    assert_eq!(sift::keypoints::KEYPOINT_FIELDS, 6);
    let none: Vec<Keypoint<f32>> = Vec::new();
    assert!(sift::keypoints::flatten_keypoints(&none, &|v: usize| v as f32).is_empty());
    // the numbers are widened by the function that is handed in
    let doubled = sift::keypoints::flatten_keypoints(&keypoints[..1], &|v: usize| 2.0 * v as f32);
    assert_eq!(doubled, vec![14.0f32, 18.0, 0.0, 4.0, 2.5, 0.25]);
}

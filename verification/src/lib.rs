//! Scale- and rotation-invariant keypoints of a grayscale image, their
//! descriptors, and the matching of two descriptor sets.
//!
//! The detection pipeline is generic over the number type of a pixel; see
//! [`numeric`]. What needs more of a number than its arithmetic operators and
//! comparisons (roots, exponentials, angles) is handed in by the caller, as
//! tables or as functions.
use crate::descriptor::{
    descriptor_at, extract_descriptors, is_descriptor, Sample, DESCRIPTOR_LEN,
};
use crate::grid::{Grid, GridView};
use crate::interpolate::{
    bilinear_pixel, bilinear_resize, calculate_resize_dimensions, rounded_div,
};
use crate::keypoints::{
    detect_keypoints, scene_of, HessianKernels, Keypoint, ScaleLevel, Site,
};
use crate::match_keypoints::{
    descriptor_count, index_pairs, match_descriptors_topk_impl, matches_of, matching_defined,
    ranked, taken,
};
use crate::numeric::{arithmetic_lawful, arithmetic_total, Scalar};
use crate::octaves::{
    base_view, generate_pyramid, is_kernel, is_pyramid, kernel_views, limit_view, octave_shaped,
};
use crate::orientation::{Vote, ORIENTATION_BINS};
use crate::rgb_to_gray::luma;
use vstd::prelude::*;

pub mod descriptor;
pub mod gaussian_blur;
pub mod gradient;
pub mod grid;
pub mod interpolate;
pub mod keypoints;
pub mod match_keypoints;
pub mod numeric;
pub mod octaves;
pub mod orientation;
pub mod rgb_to_gray;

verus! {

/// A resized image: its pixels, row by row, and its dimensions.
pub struct ResizeResult {
    pub data: Vec<u8>,
    pub width: u32,
    pub height: u32,
}

impl ResizeResult {
    pub fn data(&self) -> (data: &[u8])
        ensures
            data@ == self.data@,
    {
        self.data.as_slice()
    }

    pub fn width(&self) -> (width: u32)
        ensures
            width == self.width,
    {
        self.width
    }

    pub fn height(&self) -> (height: u32)
        ensures
            height == self.height,
    {
        self.height
    }
}

/// The grayscale image `image_buffer` resized so that its longer side is
/// `target_long_edge`, by bilinear interpolation. An image whose longer side
/// is not longer than that keeps its dimensions.
pub fn resize_image(
    image_buffer: &[u8],
    original_width: u32,
    original_height: u32,
    target_long_edge: u32,
) -> (resized: ResizeResult)
    requires
        image_buffer@.len() == original_width * original_height,
        original_width * original_height <= u32::MAX,
    ensures
        original_width <= target_long_edge && original_height <= target_long_edge ==> {
            &&& resized.width == original_width
            &&& resized.height == original_height
        },
        original_width >= original_height && original_width > target_long_edge ==> {
            &&& resized.width == target_long_edge
            &&& resized.height == rounded_div(
                original_height * target_long_edge,
                original_width as int,
            )
        },
        original_height > original_width && original_height > target_long_edge ==> {
            &&& resized.width == rounded_div(
                original_width * target_long_edge,
                original_height as int,
            )
            &&& resized.height == target_long_edge
        },
        resized.data@.len() == resized.width * resized.height,
        forall|x: int, y: int|
            0 <= x < resized.width && 0 <= y < resized.height ==> resized.data@[y * resized.width
                + x] == #[trigger] bilinear_pixel(
                image_buffer@,
                original_width as int,
                original_height as int,
                resized.width as int,
                resized.height as int,
                x,
                y,
            ),
{
    let (new_width, new_height) = calculate_resize_dimensions(
        original_width,
        original_height,
        target_long_edge,
    );
    proof {
        assert(new_width * new_height <= original_width * original_height) by (nonlinear_arith)
            requires
                0 <= new_width <= original_width,
                0 <= new_height <= original_height,
        ;
    }
    let resized_data = bilinear_resize(
        image_buffer,
        original_width,
        original_height,
        new_width,
        new_height,
    );
    ResizeResult { data: resized_data, width: new_width, height: new_height }
}

/// The grayscale image of an image of four bytes per pixel (red, green,
/// blue, alpha): one byte per pixel, the luma of its colour.
pub fn rgba_to_gray(image_buffer: &[u8], width: u32, height: u32) -> (gray: Vec<u8>)
    ensures
        gray@.len() == image_buffer@.len() / 4,
        forall|i: int|
            0 <= i < gray@.len() ==> gray@[i] == luma(
                image_buffer@[4 * i],
                image_buffer@[4 * i + 1],
                image_buffer@[4 * i + 2],
            ),
{
    crate::rgb_to_gray::rgba_to_gray(image_buffer, width as usize, height as usize)
}

/// The `top_k` best matches between two sets of descriptors of `d`
/// components each, as pairs of indices; see [`match_descriptors_topk_impl`].
pub fn match_descriptors_topk<T: Scalar>(
    desc1: &[T],
    desc2: &[T],
    d: usize,
    ratio: T,
    cross_check: bool,
    top_k: usize,
    zero: T,
    infinity: T,
) -> (out: Vec<u32>)
    requires
        d > 0,
        desc1@.len() as int % d as int == 0,
        desc2@.len() as int % d as int == 0,
        descriptor_count(desc1@, d as int) <= u32::MAX + 1,
        descriptor_count(desc2@, d as int) <= u32::MAX + 1,
        arithmetic_total::<T>() || (arithmetic_lawful::<T>() && matching_defined(
            desc1@,
            desc2@,
            d as int,
            zero,
            infinity,
        )),
    ensures
        out@.len() % 2 == 0,
        out@.len() <= 2 * top_k,
        out@.len() <= 2 * descriptor_count(desc1@, d as int),
        arithmetic_lawful::<T>() ==> {
            let scored = matches_of(
                desc1@,
                desc2@,
                d as int,
                ratio,
                cross_check,
                zero,
                infinity,
                descriptor_count(desc1@, d as int) as nat,
            );
            out@ == index_pairs(ranked(scored, scored.len()), taken(top_k, scored.len()))
        },
{
    match_descriptors_topk_impl(desc1, desc2, d, ratio, cross_check, top_k, zero, infinity)
}

/// What detection and description need beside the image: the number of
/// scales per octave, the blur kernels, the tables by level and by orientation
/// bin, the kernels of second differences, the thresholds, and the constants
/// of the number type.
pub struct SiftParams<T> {
    /// Scales per octave.
    pub scales: usize,
    /// The kernel that brings the input image to the base scale, if it needs one.
    pub first_kernel: Option<Grid<T>>,
    /// The kernel of each step from a level to the next, `scales + 2` of them.
    pub level_kernels: Vec<Grid<T>>,
    /// Scale and window sizes of each level.
    pub levels: Vec<ScaleLevel<T>>,
    /// The angle of each orientation bin.
    pub bin_angles: Vec<T>,
    /// The kernels of second differences.
    pub hessian: HessianKernels<T>,
    /// The least magnitude of an extremum.
    pub contrast_thresh: T,
    /// The greatest ratio of principal curvatures of a keypoint.
    pub edge_r: T,
    pub zero: T,
    pub one: T,
    /// A value below every count of the orientation histogram.
    pub floor: T,
    /// The value at which the components of a descriptor are clipped.
    pub clip: T,
}

impl<T: Scalar> SiftParams<T> {
    /// The parameters fit together: there is at least one scale, a kernel
    /// for each step, a table entry for each level `0..=scales`, and an angle
    /// for each orientation bin.
    pub open spec fn wf(&self) -> bool {
        &&& self.scales >= 1
        &&& self.level_kernels@.len() == self.scales + 2
        &&& self.first_kernel matches Some(k) ==> is_kernel(&k)
        &&& forall|i: int|
            0 <= i < self.level_kernels@.len() ==> is_kernel(#[trigger] &self.level_kernels@[i])
        &&& self.levels@.len() > self.scales
        &&& self.bin_angles@.len() == ORIENTATION_BINS
        &&& self.hessian.wf()
    }

    /// The view of the first kernel, if there is one.
    pub open spec fn first_view(&self) -> Option<GridView<T>> {
        match self.first_kernel {
            Some(k) => Some(k@),
            None => None,
        }
    }
}

/// The keypoints of an image and their descriptors, one descriptor of
/// [`DESCRIPTOR_LEN`] components for each keypoint, in the order of the
/// keypoints.
pub struct SiftResult<T> {
    pub keypoints: Vec<Keypoint<T>>,
    pub descriptors: Vec<T>,
}

impl<T: Copy> SiftResult<T> {
    pub fn keypoints(&self) -> (keypoints: &[Keypoint<T>])
        ensures
            keypoints@ == self.keypoints@,
    {
        self.keypoints.as_slice()
    }

    pub fn descriptors(&self) -> (descriptors: &[T])
        ensures
            descriptors@ == self.descriptors@,
    {
        self.descriptors.as_slice()
    }
}

/// `result` holds the keypoints and descriptors of the pyramid `dogs`,
/// `gaussians` over `base`.
pub open spec fn is_sift_result<
    T: Scalar,
    V: Fn(T, T, T, i32, i32) -> Vote<T>,
    P: Fn(T, T, T, T, i32, i32) -> Option<Sample<T>>,
    R: Fn(T) -> T,
>(
    dogs: Seq<Vec<Grid<T>>>,
    gaussians: Seq<Vec<Grid<T>>>,
    base: GridView<T>,
    params: SiftParams<T>,
    vote: &V,
    probe: &P,
    root: &R,
    keypoints: Seq<Keypoint<T>>,
    descriptors: Seq<T>,
) -> bool {
    &&& is_pyramid(
        dogs,
        gaussians,
        base,
        params.first_view(),
        kernel_views(params.level_kernels@),
        params.scales as nat,
        None,
        params.zero,
    )
    &&& scene_of(
        dogs,
        gaussians,
        params.scales,
        params.levels@,
        params.bin_angles@,
        params.contrast_thresh,
        params.edge_r,
        params.hessian,
        params.zero,
        params.one,
        params.floor,
    ).detected(vote, keypoints, Site { octave: dogs.len() as int, level: 0, x: 0, y: 0 })
    &&& forall|i: int|
        0 <= i < keypoints.len() ==> {
            let kp = #[trigger] keypoints[i];
            is_descriptor(
                probe,
                root,
                gaussians[kp.octave as int]@[kp.level as int]@,
                kp.x as int,
                kp.y as int,
                kp.sigma,
                kp.angle,
                params.levels@[kp.level as int].descriptor_radius as int,
                params.zero,
                params.one,
                params.clip,
                descriptor_at(descriptors, i),
            )
        }
}

/// The keypoints of the image `base` and their descriptors: the pyramid of
/// [`generate_pyramid`] over all octaves, the keypoints that
/// [`detect_keypoints`] finds in it, and the descriptors that
/// [`extract_descriptors`] computes for them. `vote` casts the votes of the
/// orientation histogram, `probe` places a gradient in the descriptor, and
/// `root` takes square roots.
pub fn sift<
    T: Scalar,
    V: Fn(T, T, T, i32, i32) -> Vote<T>,
    P: Fn(T, T, T, T, i32, i32) -> Option<Sample<T>>,
    R: Fn(T) -> T,
>(base: &Grid<T>, params: &SiftParams<T>, vote: &V, probe: &P, root: &R) -> (result: SiftResult<T>)
    requires
        base.wf(),
        params.wf(),
        arithmetic_total::<T>(),
        forall|s: T, gx: T, gy: T, dx: i32, dy: i32| call_requires(vote, (s, gx, gy, dx, dy)),
        forall|s: T, a: T, gx: T, gy: T, dx: i32, dy: i32|
            call_requires(probe, (s, a, gx, gy, dx, dy)),
        forall|x: T| call_requires(root, (x,)),
    ensures
        result.descriptors@.len() == result.keypoints@.len() * DESCRIPTOR_LEN,
        base.width < 16 || base.height < 16 ==> result.keypoints@.len() == 0,
        arithmetic_lawful::<T>() ==> exists|dogs: Seq<Vec<Grid<T>>>, gaussians: Seq<Vec<Grid<T>>>|
            #[trigger] is_sift_result(
                dogs,
                gaussians,
                base@,
                *params,
                vote,
                probe,
                root,
                result.keypoints@,
                result.descriptors@,
            ),
{
    let first_kernel: Option<&Grid<T>> = match &params.first_kernel {
        Some(k) => Some(k),
        None => None,
    };
    assert(base_view(first_kernel) == params.first_view());
    let (dogs, gaussians) = generate_pyramid(
        base,
        params.scales,
        first_kernel,
        params.level_kernels.as_slice(),
        None,
        params.zero,
    );
    proof {
        assert(limit_view(None) == None::<nat>);
        assert forall|o: int| 0 <= o < dogs@.len() implies {
            &&& (#[trigger] dogs@[o])@.len() >= params.scales + 2
            &&& gaussians@[o]@.len() > params.scales
        } by {
            assert(octave_shaped(
                dogs@[o]@,
                gaussians@[o]@,
                params.scales as int,
                gaussians@[o]@[0].width,
                gaussians@[o]@[0].height,
            ));
        }
        assert forall|o: int, l: int|
            0 <= o < dogs@.len() && 0 <= l <= params.scales + 1 implies {
            &&& (#[trigger] dogs@[o]@[l]).wf()
            &&& dogs@[o]@[l].width == dogs@[o]@[0].width
            &&& dogs@[o]@[l].height == dogs@[o]@[0].height
        } by {
            assert(octave_shaped(
                dogs@[o]@,
                gaussians@[o]@,
                params.scales as int,
                gaussians@[o]@[0].width,
                gaussians@[o]@[0].height,
            ));
        }
        assert forall|o: int, l: int|
            0 <= o < dogs@.len() && 1 <= l <= params.scales implies (
        #[trigger] gaussians@[o]@[l]).wf() by {
            assert(octave_shaped(
                dogs@[o]@,
                gaussians@[o]@,
                params.scales as int,
                gaussians@[o]@[0].width,
                gaussians@[o]@[0].height,
            ));
        }
    }
    let keypoints = detect_keypoints(
        dogs.as_slice(),
        gaussians.as_slice(),
        params.scales,
        params.levels.as_slice(),
        params.bin_angles.as_slice(),
        params.contrast_thresh,
        params.edge_r,
        &params.hessian,
        vote,
        params.zero,
        params.one,
        params.floor,
    );
    proof {
        let scene = scene_of(
            dogs@,
            gaussians@,
            params.scales,
            params.levels@,
            params.bin_angles@,
            params.contrast_thresh,
            params.edge_r,
            params.hessian,
            params.zero,
            params.one,
            params.floor,
        );
        assert forall|i: int| 0 <= i < keypoints@.len() implies {
            let kp = #[trigger] keypoints@[i];
            &&& kp.octave < gaussians@.len()
            &&& kp.level < gaussians@[kp.octave as int]@.len()
            &&& gaussians@[kp.octave as int]@[kp.level as int].wf()
            &&& kp.level < params.levels@.len()
        } by {
            let kp = keypoints@[i];
            assert(scene.scans(kp.site()));
            assert(octave_shaped(
                dogs@[kp.octave as int]@,
                gaussians@[kp.octave as int]@,
                params.scales as int,
                gaussians@[kp.octave as int]@[0].width,
                gaussians@[kp.octave as int]@[0].height,
            ));
        }
    }
    proof {
        if base.width < 16 || base.height < 16 {
            assert(dogs@.len() == 0);
            if keypoints@.len() > 0 {
                let scene = scene_of(
                    dogs@,
                    gaussians@,
                    params.scales,
                    params.levels@,
                    params.bin_angles@,
                    params.contrast_thresh,
                    params.edge_r,
                    params.hessian,
                    params.zero,
                    params.one,
                    params.floor,
                );
                assert(scene.scans(keypoints@[0].site()));
            }
        }
    }
    let descriptors = extract_descriptors(
        gaussians.as_slice(),
        keypoints.as_slice(),
        params.levels.as_slice(),
        probe,
        root,
        params.zero,
        params.one,
        params.clip,
    );
    let result = SiftResult { keypoints, descriptors };
    proof {
        if arithmetic_lawful::<T>() {
            assert(is_sift_result(
                dogs@,
                gaussians@,
                base@,
                *params,
                vote,
                probe,
                root,
                result.keypoints@,
                result.descriptors@,
            ));
        }
    }
    result
}

} // verus!

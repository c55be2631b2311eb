//! The scale-space pyramid: per octave a stack of progressively blurred
//! images and the stack of their differences, and the chain of octaves at
//! halved resolution.
//!
//! The blur kernels are handed in: one for each step from a level to the next,
//! and optionally one that brings the input image to the base scale.
use crate::grid::{lemma_index_in_bounds, Grid, GridView};
use crate::numeric::{arithmetic_lawful, arithmetic_total, Scalar};
use vstd::arithmetic::div_mod::lemma_fundamental_div_mod_converse;
use vstd::prelude::*;

verus! {

/// Half of `len`, but at least 1.
pub open spec fn half_len(len: nat) -> nat {
    if len / 2 >= 1 {
        len / 2
    } else {
        1
    }
}

impl<T> GridView<T> {
    /// The grid at half the resolution: every second pixel of every second
    /// row, read at the nearest edge pixel where the source ends.
    pub open spec fn halved(self) -> GridView<T> {
        let width = half_len(self.width);
        let height = half_len(self.height);
        GridView {
            width,
            height,
            pixels: Seq::new(
                width * height,
                |i: int|
                    self.at(
                        if 2 * (i % (width as int)) < self.width {
                            2 * (i % (width as int))
                        } else {
                            self.width - 1
                        },
                        if 2 * (i / (width as int)) < self.height {
                            2 * (i / (width as int))
                        } else {
                            self.height - 1
                        },
                    ),
            ),
        }
    }
}

/// The grid `src` at half the resolution, by taking every second pixel.
pub fn downsample_half<T: Copy>(src: &Grid<T>) -> (dst: Grid<T>)
    requires
        src.wf(),
        src.width > 0,
        src.height > 0,
    ensures
        dst.wf(),
        dst@ == src@.halved(),
        dst.width == half_len(src.width as nat),
        dst.height == half_len(src.height as nat),
        forall|x: int, y: int|
            0 <= x < dst.width && 0 <= y < dst.height ==> #[trigger] dst@.at(x, y) == src@.at(
                if 2 * x < src.width {
                    2 * x
                } else {
                    src.width - 1
                },
                if 2 * y < src.height {
                    2 * y
                } else {
                    src.height - 1
                },
            ),
{
    let new_w: u32 = if src.width / 2 >= 1 {
        src.width / 2
    } else {
        1
    };
    let new_h: u32 = if src.height / 2 >= 1 {
        src.height / 2
    } else {
        1
    };
    let mut dst_buffer: Vec<T> = Vec::new();
    let mut y: u32 = 0;
    while y < new_h
        invariant
            src.wf(),
            src.width > 0,
            src.height > 0,
            new_w == half_len(src.width as nat),
            new_h == half_len(src.height as nat),
            y <= new_h,
            dst_buffer@.len() == y * new_w,
            forall|i: int| 0 <= i < dst_buffer@.len() ==> dst_buffer@[i] == src@.halved().pixels[i],
        decreases new_h - y,
    {
        let mut x: u32 = 0;
        while x < new_w
            invariant
                src.wf(),
                src.width > 0,
                src.height > 0,
                new_w == half_len(src.width as nat),
                new_h == half_len(src.height as nat),
                y < new_h,
                x <= new_w,
                dst_buffer@.len() == y * new_w + x,
                forall|i: int|
                    0 <= i < dst_buffer@.len() ==> dst_buffer@[i] == src@.halved().pixels[i],
            decreases new_w - x,
        {
            proof {
                lemma_index_in_bounds(x as int, y as int, new_w as int, new_h as int);
                lemma_fundamental_div_mod_converse(y * new_w + x, new_w as int, y as int, x as int);
            }
            let sx: u32 = if x * 2 < src.width {
                x * 2
            } else {
                src.width - 1
            };
            let sy: u32 = if y * 2 < src.height {
                y * 2
            } else {
                src.height - 1
            };
            let v: T = src.get_pixel(sx, sy);
            dst_buffer.push(v);
            x += 1;
        }
        proof {
            assert((y + 1) * new_w == y * new_w + new_w) by (nonlinear_arith);
        }
        y += 1;
    }
    let dst = Grid { width: new_w, height: new_h, data: dst_buffer };
    proof {
        assert(new_h * new_w == new_w * new_h) by (nonlinear_arith);
        assert(dst@.pixels =~= src@.halved().pixels);
        assert forall|x: int, y: int| 0 <= x < dst.width && 0 <= y < dst.height implies #[trigger] dst@.at(
            x,
            y,
        ) == src@.at(
            if 2 * x < src.width {
                2 * x
            } else {
                src.width - 1
            },
            if 2 * y < src.height {
                2 * y
            } else {
                src.height - 1
            },
        ) by {
            lemma_index_in_bounds(x, y, new_w as int, new_h as int);
            lemma_fundamental_div_mod_converse(y * new_w + x, new_w as int, y, x);
        }
    }
    dst
}

/// A blur kernel: a well-formed grid of odd width and height.
pub open spec fn is_kernel<T: Copy>(kernel: &Grid<T>) -> bool {
    kernel.wf() && kernel.width % 2 == 1 && kernel.height % 2 == 1
}

/// The view of the kernel that brings the image to the base scale, if there is one.
pub open spec fn base_view<T>(base_kernel: Option<&Grid<T>>) -> Option<GridView<T>> {
    match base_kernel {
        Some(k) => Some(k@),
        None => None,
    }
}

/// The views of the kernels.
pub open spec fn kernel_views<T>(kernels: Seq<Grid<T>>) -> Seq<GridView<T>> {
    Seq::new(kernels.len(), |i: int| kernels[i]@)
}

/// Level `i` of the stack of blurred images of an octave. Level 0 is the
/// image blurred by the base kernel, or the image itself where there is none;
/// each further level is the level before it blurred by the kernel of its step.
pub open spec fn octave_gaussian<T: Scalar>(
    image: GridView<T>,
    base: Option<GridView<T>>,
    kernels: Seq<GridView<T>>,
    zero: T,
    i: nat,
) -> GridView<T>
    decreases i,
{
    if i == 0 {
        match base {
            Some(k) => image.convolve(k, zero),
            None => image,
        }
    } else {
        octave_gaussian(image, base, kernels, zero, (i - 1) as nat).convolve(kernels[i - 1], zero)
    }
}

/// Level `i` of the stack of differences of an octave: the blurred image of
/// level `i + 1` minus that of level `i`.
pub open spec fn octave_dog<T: Scalar>(
    image: GridView<T>,
    base: Option<GridView<T>>,
    kernels: Seq<GridView<T>>,
    zero: T,
    i: nat,
) -> GridView<T> {
    octave_gaussian(image, base, kernels, zero, i + 1).difference(
        octave_gaussian(image, base, kernels, zero, i),
    )
}

/// Each operation of the construction of an octave is admissible.
pub open spec fn octave_defined<T: Scalar>(
    image: GridView<T>,
    base: Option<GridView<T>>,
    kernels: Seq<GridView<T>>,
    zero: T,
) -> bool {
    &&& base matches Some(k) ==> image.convolve_defined(k, zero)
    &&& forall|i: int|
        0 <= i < kernels.len() ==> {
            &&& (#[trigger] octave_gaussian(image, base, kernels, zero, i as nat)).convolve_defined(
                kernels[i],
                zero,
            )
            &&& octave_gaussian(image, base, kernels, zero, (i + 1) as nat).difference_defined(
                octave_gaussian(image, base, kernels, zero, i as nat),
            )
        }
}

/// The stacks have the sizes of an octave of `scales` scales over an image of
/// the given dimensions: `scales + 3` blurred images and `scales + 2`
/// differences, all well formed and of these dimensions.
pub open spec fn octave_shaped<T: Copy>(
    dogs: Seq<Grid<T>>,
    gaussians: Seq<Grid<T>>,
    scales: int,
    width: u32,
    height: u32,
) -> bool {
    &&& gaussians.len() == scales + 3
    &&& dogs.len() == scales + 2
    &&& forall|i: int|
        0 <= i < gaussians.len() ==> (#[trigger] gaussians[i]).wf() && gaussians[i].width == width
            && gaussians[i].height == height
    &&& forall|i: int|
        0 <= i < dogs.len() ==> (#[trigger] dogs[i]).wf() && dogs[i].width == width
            && dogs[i].height == height
}

/// The stacks hold the levels of the octave over `image`.
pub open spec fn is_octave<T: Scalar>(
    dogs: Seq<Grid<T>>,
    gaussians: Seq<Grid<T>>,
    image: GridView<T>,
    base: Option<GridView<T>>,
    kernels: Seq<GridView<T>>,
    zero: T,
) -> bool {
    &&& forall|i: int|
        0 <= i < gaussians.len() ==> (#[trigger] gaussians[i])@ == octave_gaussian(
            image,
            base,
            kernels,
            zero,
            i as nat,
        )
    &&& forall|i: int|
        0 <= i < dogs.len() ==> (#[trigger] dogs[i])@ == octave_dog(
            image,
            base,
            kernels,
            zero,
            i as nat,
        )
}

/// One octave over `image`: the stack of `scales + 3` blurred images and the
/// stack of `scales + 2` differences of neighbouring levels, the blurrier
/// minus the sharper. Level 0 is `image` blurred by `base_kernel`, or `image`
/// unchanged where there is none; level `i + 1` is level `i` blurred by
/// `level_kernels[i]`.
pub fn generate_octave<T: Scalar>(
    image: &Grid<T>,
    scales: usize,
    base_kernel: Option<&Grid<T>>,
    level_kernels: &[Grid<T>],
    zero: T,
) -> (stacks: (Vec<Grid<T>>, Vec<Grid<T>>))
    requires
        scales >= 1,
        image.wf(),
        level_kernels@.len() == scales + 2,
        base_kernel matches Some(k) ==> is_kernel(k),
        forall|i: int| 0 <= i < level_kernels@.len() ==> is_kernel(#[trigger] &level_kernels@[i]),
        arithmetic_total::<T>() || (arithmetic_lawful::<T>() && octave_defined(
            image@,
            base_view(base_kernel),
            kernel_views(level_kernels@),
            zero,
        )),
    ensures
        octave_shaped(stacks.0@, stacks.1@, scales as int, image.width, image.height),
        arithmetic_lawful::<T>() ==> is_octave(
            stacks.0@,
            stacks.1@,
            image@,
            base_view(base_kernel),
            kernel_views(level_kernels@),
            zero,
        ),
{
    let ghost base = base_view(base_kernel);
    let ghost kernels = kernel_views(level_kernels@);
    let mut gaussian_blurs: Vec<Grid<T>> = Vec::new();
    let g0: Grid<T> = match base_kernel {
        Some(k) => image.convolve(k, zero),
        None => Grid::new(image.get_buffer(), image.get_width(), image.get_height()),
    };
    assert(arithmetic_lawful::<T>() ==> g0@ == octave_gaussian(image@, base, kernels, zero, 0));
    gaussian_blurs.push(g0);
    let mut k: usize = 0;
    while k < level_kernels.len()
        invariant
            image.wf(),
            level_kernels@.len() == scales + 2,
            forall|i: int|
                0 <= i < level_kernels@.len() ==> is_kernel(#[trigger] &level_kernels@[i]),
            base == base_view(base_kernel),
            kernels == kernel_views(level_kernels@),
            arithmetic_total::<T>() || (arithmetic_lawful::<T>() && octave_defined(
                image@,
                base,
                kernels,
                zero,
            )),
            k <= scales + 2,
            gaussian_blurs@.len() == k + 1,
            forall|l: int|
                0 <= l <= k ==> (#[trigger] gaussian_blurs@[l]).wf() && gaussian_blurs@[l].width
                    == image.width && gaussian_blurs@[l].height == image.height,
            arithmetic_lawful::<T>() ==> forall|l: int|
                0 <= l <= k ==> (#[trigger] gaussian_blurs@[l])@ == octave_gaussian(
                    image@,
                    base,
                    kernels,
                    zero,
                    l as nat,
                ),
        decreases scales + 2 - k,
    {
        let kernel: &Grid<T> = &level_kernels[k];
        let prev: &Grid<T> = &gaussian_blurs[k];
        proof {
            assert(is_kernel(&level_kernels@[k as int]));
            assert(kernels[k as int] == kernel@);
            if arithmetic_lawful::<T>() {
                assert(prev@ == octave_gaussian(image@, base, kernels, zero, k as nat));
            }
        }
        let next: Grid<T> = prev.convolve(kernel, zero);
        gaussian_blurs.push(next);
        k += 1;
    }
    let mut dogs: Vec<Grid<T>> = Vec::new();
    let mut i: usize = 0;
    while i < level_kernels.len()
        invariant
            image.wf(),
            level_kernels@.len() == scales + 2,
            base == base_view(base_kernel),
            kernels == kernel_views(level_kernels@),
            arithmetic_total::<T>() || (arithmetic_lawful::<T>() && octave_defined(
                image@,
                base,
                kernels,
                zero,
            )),
            i <= scales + 2,
            gaussian_blurs@.len() == scales + 3,
            forall|l: int|
                0 <= l < scales + 3 ==> (#[trigger] gaussian_blurs@[l]).wf()
                    && gaussian_blurs@[l].width == image.width && gaussian_blurs@[l].height
                    == image.height,
            arithmetic_lawful::<T>() ==> forall|l: int|
                0 <= l < scales + 3 ==> (#[trigger] gaussian_blurs@[l])@ == octave_gaussian(
                    image@,
                    base,
                    kernels,
                    zero,
                    l as nat,
                ),
            dogs@.len() == i,
            forall|l: int|
                0 <= l < i ==> (#[trigger] dogs@[l]).wf() && dogs@[l].width == image.width
                    && dogs@[l].height == image.height,
            arithmetic_lawful::<T>() ==> forall|l: int|
                0 <= l < i ==> (#[trigger] dogs@[l])@ == octave_dog(
                    image@,
                    base,
                    kernels,
                    zero,
                    l as nat,
                ),
        decreases scales + 2 - i,
    {
        let prev: &Grid<T> = &gaussian_blurs[i];
        let next: &Grid<T> = &gaussian_blurs[i + 1];
        proof {
            if arithmetic_lawful::<T>() {
                assert(prev@ == octave_gaussian(image@, base, kernels, zero, i as nat));
                assert(next@ == octave_gaussian(image@, base, kernels, zero, (i + 1) as nat));
            }
        }
        let diff: Grid<T> = next.difference(prev);
        dogs.push(diff);
        i += 1;
    }
    (dogs, gaussian_blurs)
}

/// The number of octaves of a pyramid over an image of the given dimensions:
/// octaves are added, each at half the resolution of the one before, until
/// the shorter side is below 16 or `limit`, where there is one, is reached.
pub open spec fn octave_count(width: nat, height: nat, limit: Option<nat>) -> nat
    decreases width,
{
    if limit == Some(0nat) || width < 16 || height < 16 {
        0
    } else {
        1 + octave_count(
            half_len(width),
            half_len(height),
            match limit {
                Some(l) => Some((l - 1) as nat),
                None => None,
            },
        )
    }
}

/// The base image of octave `o` of a pyramid: the input for the first octave,
/// and for each further one the blurred image of level `scales` of the octave
/// before it at half the resolution. Only the first octave is blurred by the
/// base kernel.
pub open spec fn pyramid_base<T: Scalar>(
    image: GridView<T>,
    first: Option<GridView<T>>,
    kernels: Seq<GridView<T>>,
    scales: nat,
    zero: T,
    o: nat,
) -> GridView<T>
    decreases o,
{
    if o == 0 {
        image
    } else {
        octave_gaussian(
            pyramid_base(image, first, kernels, scales, zero, (o - 1) as nat),
            pyramid_kernel(first, (o - 1) as nat),
            kernels,
            zero,
            scales,
        ).halved()
    }
}

/// The base kernel of octave `o`: the given one for the first octave, none after it.
pub open spec fn pyramid_kernel<T>(first: Option<GridView<T>>, o: nat) -> Option<GridView<T>> {
    if o == 0 {
        first
    } else {
        None
    }
}

/// Each operation of the construction of the first `count` octaves is admissible.
pub open spec fn pyramid_defined<T: Scalar>(
    image: GridView<T>,
    first: Option<GridView<T>>,
    kernels: Seq<GridView<T>>,
    scales: nat,
    zero: T,
    count: nat,
) -> bool {
    forall|o: int|
        0 <= o < count ==> octave_defined(
            #[trigger] pyramid_base(image, first, kernels, scales, zero, o as nat),
            pyramid_kernel(first, o as nat),
            kernels,
            zero,
        )
}

/// The limit on the number of octaves as a natural number.
pub open spec fn limit_view(max_octaves: Option<usize>) -> Option<nat> {
    match max_octaves {
        Some(l) => Some(l as nat),
        None => None,
    }
}

/// Each octave has the sizes of an octave of `scales` scales, and within an
/// octave all levels have the same dimensions.
pub open spec fn pyramid_shaped<T: Copy>(
    dogs: Seq<Vec<Grid<T>>>,
    gaussians: Seq<Vec<Grid<T>>>,
    scales: int,
) -> bool {
    &&& dogs.len() == gaussians.len()
    &&& forall|o: int|
        0 <= o < dogs.len() ==> octave_shaped(
            (#[trigger] dogs[o])@,
            gaussians[o]@,
            scales,
            gaussians[o]@[0].width,
            gaussians[o]@[0].height,
        )
}

/// The stacks are the pyramid over `image`: as many octaves as
/// [`octave_count`] says, each of the sizes of an octave, and each holding the
/// levels of the octave over its base image.
pub open spec fn is_pyramid<T: Scalar>(
    dogs: Seq<Vec<Grid<T>>>,
    gaussians: Seq<Vec<Grid<T>>>,
    image: GridView<T>,
    first: Option<GridView<T>>,
    kernels: Seq<GridView<T>>,
    scales: nat,
    limit: Option<nat>,
    zero: T,
) -> bool {
    &&& dogs.len() == octave_count(image.width, image.height, limit)
    &&& pyramid_shaped(dogs, gaussians, scales as int)
    &&& forall|o: int|
        0 <= o < dogs.len() ==> is_octave(
            (#[trigger] dogs[o])@,
            gaussians[o]@,
            pyramid_base(image, first, kernels, scales, zero, o as nat),
            pyramid_kernel(first, o as nat),
            kernels,
            zero,
        )
}

/// The pyramid over `base`: for each octave the stack of differences and
/// the stack of blurred images, as [`generate_octave`] builds them. The first
/// octave starts from `base`, blurred by `first_kernel` where there is one;
/// each further octave starts from level `scales` of the octave before it at
/// half the resolution. Octaves are added until the shorter side of the next
/// base is below 16 or `max_octaves`, where given, is reached.
pub fn generate_pyramid<T: Scalar>(
    base: &Grid<T>,
    scales: usize,
    first_kernel: Option<&Grid<T>>,
    level_kernels: &[Grid<T>],
    max_octaves: Option<usize>,
    zero: T,
) -> (pyramid: (Vec<Vec<Grid<T>>>, Vec<Vec<Grid<T>>>))
    requires
        scales >= 1,
        base.wf(),
        level_kernels@.len() == scales + 2,
        first_kernel matches Some(k) ==> is_kernel(k),
        forall|i: int| 0 <= i < level_kernels@.len() ==> is_kernel(#[trigger] &level_kernels@[i]),
        arithmetic_total::<T>() || (arithmetic_lawful::<T>() && pyramid_defined(
            base@,
            base_view(first_kernel),
            kernel_views(level_kernels@),
            scales as nat,
            zero,
            octave_count(base.width as nat, base.height as nat, limit_view(max_octaves)),
        )),
    ensures
        pyramid.0@.len() == octave_count(
            base.width as nat,
            base.height as nat,
            limit_view(max_octaves),
        ),
        pyramid_shaped(pyramid.0@, pyramid.1@, scales as int),
        arithmetic_lawful::<T>() ==> is_pyramid(
            pyramid.0@,
            pyramid.1@,
            base@,
            base_view(first_kernel),
            kernel_views(level_kernels@),
            scales as nat,
            limit_view(max_octaves),
            zero,
        ),
{
    let ghost first = base_view(first_kernel);
    let ghost kernels = kernel_views(level_kernels@);
    let ghost total = octave_count(base.width as nat, base.height as nat, limit_view(max_octaves));
    let mut dog_vec: Vec<Vec<Grid<T>>> = Vec::new();
    let mut gaussian_vec: Vec<Vec<Grid<T>>> = Vec::new();
    let mut current_base: Grid<T> = Grid::new(
        base.get_buffer(),
        base.get_width(),
        base.get_height(),
    );
    let mut octave_idx: usize = 0;
    loop
        invariant
            scales >= 1,
            level_kernels@.len() == scales + 2,
            first_kernel matches Some(k) ==> is_kernel(k),
            forall|i: int|
                0 <= i < level_kernels@.len() ==> is_kernel(#[trigger] &level_kernels@[i]),
            first == base_view(first_kernel),
            kernels == kernel_views(level_kernels@),
            total == octave_count(base.width as nat, base.height as nat, limit_view(max_octaves)),
            arithmetic_total::<T>() || (arithmetic_lawful::<T>() && pyramid_defined(
                base@,
                first,
                kernels,
                scales as nat,
                zero,
                total,
            )),
            current_base.wf(),
            octave_idx + current_base.width <= base.width,
            octave_idx <= total,
            max_octaves matches Some(l) ==> octave_idx <= l,
            total == octave_idx + octave_count(
                current_base.width as nat,
                current_base.height as nat,
                match max_octaves {
                    Some(l) => Some((l - octave_idx) as nat),
                    None => None,
                },
            ),
            arithmetic_lawful::<T>() ==> current_base@ == pyramid_base(
                base@,
                first,
                kernels,
                scales as nat,
                zero,
                octave_idx as nat,
            ),
            dog_vec@.len() == octave_idx,
            pyramid_shaped(dog_vec@, gaussian_vec@, scales as int),
            arithmetic_lawful::<T>() ==> forall|o: int|
                0 <= o < octave_idx ==> is_octave(
                    (#[trigger] dog_vec@[o])@,
                    gaussian_vec@[o]@,
                    pyramid_base(base@, first, kernels, scales as nat, zero, o as nat),
                    pyramid_kernel(first, o as nat),
                    kernels,
                    zero,
                ),
        ensures
            dog_vec@.len() == total,
            pyramid_shaped(dog_vec@, gaussian_vec@, scales as int),
            arithmetic_lawful::<T>() ==> forall|o: int|
                0 <= o < dog_vec@.len() ==> is_octave(
                    (#[trigger] dog_vec@[o])@,
                    gaussian_vec@[o]@,
                    pyramid_base(base@, first, kernels, scales as nat, zero, o as nat),
                    pyramid_kernel(first, o as nat),
                    kernels,
                    zero,
                ),
        decreases current_base.width,
    {
        match max_octaves {
            Some(limit) => {
                if octave_idx >= limit {
                    break ;
                }
            },
            None => {},
        }
        let min_dim: u32 = if current_base.width <= current_base.height {
            current_base.width
        } else {
            current_base.height
        };
        if min_dim < 16 {
            break ;
        }
        let ghost image = current_base@;
        let ghost kernel_here = pyramid_kernel(first, octave_idx as nat);
        proof {
            assert(octave_count(
                current_base.width as nat,
                current_base.height as nat,
                match max_octaves {
                    Some(l) => Some((l - octave_idx) as nat),
                    None => None,
                },
            ) >= 1);
            assert(octave_idx < total);
            if arithmetic_lawful::<T>() && !arithmetic_total::<T>() {
                let o: int = octave_idx as int;
                assert(octave_defined(
                    pyramid_base(base@, first, kernels, scales as nat, zero, o as nat),
                    pyramid_kernel(first, o as nat),
                    kernels,
                    zero,
                ));
            }
            assert(base_view::<T>(None) == None::<GridView<T>>);
        }
        let (dogs, gaussians) = if octave_idx == 0 {
            generate_octave(&current_base, scales, first_kernel, level_kernels, zero)
        } else {
            generate_octave(&current_base, scales, None, level_kernels, zero)
        };
        let next_base: Grid<T> = downsample_half(&gaussians[scales]);
        proof {
            assert(octave_shaped(
                dogs@,
                gaussians@,
                scales as int,
                gaussians@[0].width,
                gaussians@[0].height,
            ));
            if arithmetic_lawful::<T>() {
                assert(is_octave(dogs@, gaussians@, image, kernel_here, kernels, zero));
                assert(gaussians@[scales as int]@ == octave_gaussian(
                    image,
                    kernel_here,
                    kernels,
                    zero,
                    scales as nat,
                ));
            }
        }
        let ghost dogs_before = dog_vec@;
        let ghost gaussians_before = gaussian_vec@;
        dog_vec.push(dogs);
        gaussian_vec.push(gaussians);
        proof {
            assert forall|o: int| 0 <= o < dog_vec@.len() implies octave_shaped(
                (#[trigger] dog_vec@[o])@,
                gaussian_vec@[o]@,
                scales as int,
                gaussian_vec@[o]@[0].width,
                gaussian_vec@[o]@[0].height,
            ) by {
                if o < octave_idx {
                    assert(dog_vec@[o] == dogs_before[o]);
                    assert(gaussian_vec@[o] == gaussians_before[o]);
                }
            }
            if arithmetic_lawful::<T>() {
                assert forall|o: int| 0 <= o < octave_idx + 1 implies is_octave(
                    (#[trigger] dog_vec@[o])@,
                    gaussian_vec@[o]@,
                    pyramid_base(base@, first, kernels, scales as nat, zero, o as nat),
                    pyramid_kernel(first, o as nat),
                    kernels,
                    zero,
                ) by {
                    if o < octave_idx {
                        assert(dog_vec@[o] == dogs_before[o]);
                        assert(gaussian_vec@[o] == gaussians_before[o]);
                    }
                }
            }
        }
        current_base = next_base;
        octave_idx += 1;
    }
    (dog_vec, gaussian_vec)
}

} // verus!

//! A dense two-dimensional buffer in row-major order, with direct and
//! border-replicating pixel access, element-wise difference and convolution.
use crate::numeric::{add_total, mul_total};
use std::ops::{Add, Mul, Sub};
use vstd::arithmetic::div_mod::lemma_fundamental_div_mod_converse;
use vstd::prelude::*;
use vstd::slice::slice_to_vec;
use vstd::std_specs::ops::{AddSpec, MulSpec, SubSpec};

verus! {

/// `v` moved to the nearest point of the range `lo..=hi`.
pub open spec fn clamp_int(v: int, lo: int, hi: int) -> int {
    if v < lo {
        lo
    } else if v > hi {
        hi
    } else {
        v
    }
}

/// The mathematical content of a [`Grid`]: its dimensions and its pixels, row by row.
pub struct GridView<T> {
    pub width: nat,
    pub height: nat,
    pub pixels: Seq<T>,
}

impl<T> GridView<T> {
    /// There is exactly one pixel for each position.
    pub open spec fn wf(self) -> bool {
        self.pixels.len() == self.width * self.height
    }

    /// The pixel in column `x` of row `y`.
    pub open spec fn at(self, x: int, y: int) -> T {
        self.pixels[y * self.width + x]
    }

    /// The pixel at `(x, y)`, or the nearest edge pixel when `(x, y)` lies outside.
    pub open spec fn at_clamped(self, x: int, y: int) -> T {
        self.at(clamp_int(x, 0, self.width - 1), clamp_int(y, 0, self.height - 1))
    }

    /// Every pixel is `value`.
    pub open spec fn is_constant(self, value: T) -> bool {
        forall|i: int| 0 <= i < self.pixels.len() ==> self.pixels[i] == value
    }
}

impl<T: Sub<Output = T>> GridView<T> {
    /// Each pixel of `other` may be subtracted from the pixel of `self` at its place.
    pub open spec fn difference_defined(self, other: GridView<T>) -> bool {
        forall|i: int|
            0 <= i < self.pixels.len() ==> #[trigger] self.pixels[i].sub_req(other.pixels[i])
    }

    /// `self - other`, pixel by pixel.
    pub open spec fn difference(self, other: GridView<T>) -> GridView<T> {
        GridView {
            width: self.width,
            height: self.height,
            pixels: Seq::new(self.pixels.len(), |i: int| self.pixels[i].sub_spec(other.pixels[i])),
        }
    }
}

impl<T: Add<Output = T> + Mul<Output = T>> GridView<T> {
    /// The pixel of `self` under tap `n` of `kernel` when the kernel is centred
    /// on `(x, y)`. Taps are counted row by row; the border is replicated.
    pub open spec fn tap_source(self, kernel: GridView<T>, x: int, y: int, n: int) -> T {
        self.at_clamped(
            x + n % (kernel.width as int) - kernel.width / 2,
            y + n / (kernel.width as int) - kernel.height / 2,
        )
    }

    /// What tap `n` contributes to the output pixel `(x, y)`.
    pub open spec fn tap_product(self, kernel: GridView<T>, x: int, y: int, n: int) -> T {
        self.tap_source(kernel, x, y, n).mul_spec(kernel.pixels[n])
    }

    /// The sum, starting from `zero`, of the contributions of the first `n` taps
    /// to the output pixel `(x, y)`, added in tap order.
    pub open spec fn partial_sum(self, kernel: GridView<T>, zero: T, x: int, y: int, n: nat) -> T
        decreases n,
    {
        if n == 0 {
            zero
        } else {
            self.partial_sum(kernel, zero, x, y, (n - 1) as nat).add_spec(
                self.tap_product(kernel, x, y, n - 1),
            )
        }
    }

    /// The multiplication and the addition that tap `n` asks for at `(x, y)` are admissible.
    pub open spec fn tap_defined(
        self,
        kernel: GridView<T>,
        zero: T,
        x: int,
        y: int,
        n: int,
    ) -> bool {
        &&& self.tap_source(kernel, x, y, n).mul_req(kernel.pixels[n])
        &&& self.partial_sum(kernel, zero, x, y, n as nat).add_req(
            self.tap_product(kernel, x, y, n),
        )
    }

    /// Every step of the convolution of `self` by `kernel` is admissible.
    pub open spec fn convolve_defined(self, kernel: GridView<T>, zero: T) -> bool {
        forall|x: int, y: int, n: int|
            0 <= x < self.width && 0 <= y < self.height && 0 <= n < kernel.pixels.len()
                ==> #[trigger] self.tap_defined(kernel, zero, x, y, n)
    }

    /// The output pixel `(x, y)` of the convolution by `kernel`.
    pub open spec fn convolve_at(self, kernel: GridView<T>, zero: T, x: int, y: int) -> T {
        self.partial_sum(kernel, zero, x, y, kernel.pixels.len())
    }

    /// The convolution of `self` by `kernel` with the border replicated: each
    /// output pixel is the sum over the kernel window of source pixel times
    /// kernel weight.
    pub open spec fn convolve(self, kernel: GridView<T>, zero: T) -> GridView<T> {
        GridView {
            width: self.width,
            height: self.height,
            pixels: Seq::new(
                self.width * self.height,
                |i: int|
                    self.convolve_at(
                        kernel,
                        zero,
                        i % (self.width as int),
                        i / (self.width as int),
                    ),
            ),
        }
    }
}

/// A `width` by `height` buffer of pixels in row-major order.
pub struct Grid<T> {
    pub width: u32,
    pub height: u32,
    pub data: Vec<T>,
}

impl<T> View for Grid<T> {
    type V = GridView<T>;

    open spec fn view(&self) -> GridView<T> {
        GridView { width: self.width as nat, height: self.height as nat, pixels: self.data@ }
    }
}

/// `coord` moved to the nearest point of `min_coord..=max_coord`.
pub fn clamp_coord(coord: i32, min_coord: i32, max_coord: i32) -> (r: i32)
    ensures
        r == clamp_int(coord as int, min_coord as int, max_coord as int),
{
    if coord < min_coord {
        min_coord
    } else if coord > max_coord {
        max_coord
    } else {
        coord
    }
}

/// `coord` moved to the nearest index of a row or column of `len` pixels.
pub fn clamp_index(coord: i64, len: u32) -> (r: u32)
    requires
        len > 0,
    ensures
        r == clamp_int(coord as int, 0, len - 1),
{
    if coord < 0 {
        0
    } else if coord > (len - 1) as i64 {
        len - 1
    } else {
        coord as u32
    }
}

/// Position `(x, y)` of a `width` by `height` grid lies within its buffer.
pub proof fn lemma_index_in_bounds(x: int, y: int, width: int, height: int)
    requires
        0 <= x < width,
        0 <= y < height,
    ensures
        0 <= y * width <= y * width + x < width * height,
{
    assert(y * width >= 0) by (nonlinear_arith)
        requires
            y >= 0,
            width >= 0,
    ;
    assert((y + 1) * width <= height * width) by (nonlinear_arith)
        requires
            y + 1 <= height,
            width >= 0,
    ;
    assert((y + 1) * width == y * width + width) by (nonlinear_arith);
    assert(height * width == width * height) by (nonlinear_arith);
}

impl<T: Copy> Grid<T> {
    /// The buffer holds exactly one pixel for each position.
    pub open spec fn wf(&self) -> bool {
        self@.wf()
    }

    /// A grid over a copy of `buffer`.
    pub fn new(buffer: &[T], width: u32, height: u32) -> (g: Self)
        requires
            buffer@.len() == width * height,
        ensures
            g.wf(),
            g.width == width,
            g.height == height,
            g.data@ == buffer@,
    {
        Grid { width, height, data: slice_to_vec(buffer) }
    }

    pub fn get_width(&self) -> (w: u32)
        ensures
            w == self.width,
    {
        self.width
    }

    pub fn get_height(&self) -> (h: u32)
        ensures
            h == self.height,
    {
        self.height
    }

    pub fn get_buffer(&self) -> (buffer: &[T])
        ensures
            buffer@ == self.data@,
    {
        self.data.as_slice()
    }

    /// The pixel in column `x` of row `y`.
    pub fn get_pixel(&self, x: u32, y: u32) -> (value: T)
        requires
            self.wf(),
            x < self.width,
            y < self.height,
        ensures
            value == self@.at(x as int, y as int),
    {
        proof {
            lemma_index_in_bounds(x as int, y as int, self.width as int, self.height as int);
            assert(self.data@.len() == self.data.len());
        }
        let idx: usize = (y as usize) * (self.width as usize) + (x as usize);
        self.data[idx]
    }

    /// Replaces the pixel in column `x` of row `y` by `value`.
    pub fn set_pixel(&mut self, x: u32, y: u32, value: T)
        requires
            old(self).wf(),
            x < old(self).width,
            y < old(self).height,
        ensures
            final(self).wf(),
            final(self).width == old(self).width,
            final(self).height == old(self).height,
            final(self).data@ == old(self).data@.update(y * old(self).width + x, value),
    {
        proof {
            lemma_index_in_bounds(x as int, y as int, self.width as int, self.height as int);
            assert(self.data@.len() == self.data.len());
        }
        let idx: usize = (y as usize) * (self.width as usize) + (x as usize);
        self.data.set(idx, value);
    }

    /// A grid in which every pixel is `value`.
    pub fn new_filled(width: u32, height: u32, value: T) -> (g: Self)
        requires
            width * height <= usize::MAX,
        ensures
            g.wf(),
            g.width == width,
            g.height == height,
            g@.is_constant(value),
    {
        let len: usize = (width as usize) * (height as usize);
        let mut data: Vec<T> = Vec::with_capacity(len);
        let mut i: usize = 0;
        while i < len
            invariant
                i <= len,
                data@.len() == i,
                forall|j: int| 0 <= j < i ==> data@[j] == value,
            decreases len - i,
        {
            data.push(value);
            i += 1;
        }
        Grid { width, height, data }
    }

    /// The pixel at `(x, y)`; a position outside the grid reads the nearest edge pixel.
    pub fn get_pixel_safe(&self, x: i32, y: i32) -> (value: T)
        requires
            self.wf(),
            self.width > 0,
            self.height > 0,
        ensures
            value == self@.at_clamped(x as int, y as int),
    {
        let cx: u32 = clamp_index(x as i64, self.width);
        let cy: u32 = clamp_index(y as i64, self.height);
        self.get_pixel(cx, cy)
    }
}

impl<T: Copy + Add<Output = T> + Mul<Output = T>> Grid<T> {
    /// One output pixel of the convolution by `kernel`: the kernel is centred on
    /// `(x, y)` and the products of source pixel and weight are added up, tap by
    /// tap, starting from `zero`.
    pub fn convolve_at(&self, kernel: &Grid<T>, zero: T, x: u32, y: u32) -> (acc: T)
        requires
            self.wf(),
            kernel.wf(),
            x < self.width,
            y < self.height,
            (add_total::<T>() && mul_total::<T>()) || (T::obeys_add_spec() && T::obeys_mul_spec()
                && forall|n: int|
                0 <= n < kernel.data@.len() ==> #[trigger] self@.tap_defined(
                    kernel@,
                    zero,
                    x as int,
                    y as int,
                    n,
                )),
        ensures
            T::obeys_add_spec() && T::obeys_mul_spec() ==> acc == self@.convolve_at(
                kernel@,
                zero,
                x as int,
                y as int,
            ),
    {
        let kernel_width: u32 = kernel.width;
        let kernel_height: u32 = kernel.height;
        let radius_x: i64 = (kernel_width / 2) as i64;
        let radius_y: i64 = (kernel_height / 2) as i64;
        let ghost lawful = T::obeys_add_spec() && T::obeys_mul_spec();
        let mut acc: T = zero;
        let mut ky: u32 = 0;
        while ky < kernel_height
            invariant
                self.wf(),
                kernel.wf(),
                x < self.width,
                y < self.height,
                kernel_width == kernel.width,
                kernel_height == kernel.height,
                radius_x == kernel.width / 2,
                radius_y == kernel.height / 2,
                ky <= kernel_height,
                lawful == (T::obeys_add_spec() && T::obeys_mul_spec()),
                (add_total::<T>() && mul_total::<T>()) || (lawful && forall|n: int|
                    0 <= n < kernel.data@.len() ==> #[trigger] self@.tap_defined(
                        kernel@,
                        zero,
                        x as int,
                        y as int,
                        n,
                    )),
                lawful ==> acc == self@.partial_sum(
                    kernel@,
                    zero,
                    x as int,
                    y as int,
                    (ky * kernel_width) as nat,
                ),
            decreases kernel_height - ky,
        {
            let mut kx: u32 = 0;
            while kx < kernel_width
                invariant
                    self.wf(),
                    kernel.wf(),
                    x < self.width,
                    y < self.height,
                    kernel_width == kernel.width,
                    kernel_height == kernel.height,
                    radius_x == kernel.width / 2,
                    radius_y == kernel.height / 2,
                    ky < kernel_height,
                    kx <= kernel_width,
                    lawful == (T::obeys_add_spec() && T::obeys_mul_spec()),
                    (add_total::<T>() && mul_total::<T>()) || (lawful && forall|n: int|
                        0 <= n < kernel.data@.len() ==> #[trigger] self@.tap_defined(
                            kernel@,
                            zero,
                            x as int,
                            y as int,
                            n,
                        )),
                    lawful ==> acc == self@.partial_sum(
                        kernel@,
                        zero,
                        x as int,
                        y as int,
                        (ky * kernel_width + kx) as nat,
                    ),
                decreases kernel_width - kx,
            {
                let ghost n: int = ky * kernel_width + kx;
                proof {
                    lemma_index_in_bounds(
                        kx as int,
                        ky as int,
                        kernel_width as int,
                        kernel_height as int,
                    );
                    lemma_fundamental_div_mod_converse(
                        n,
                        kernel_width as int,
                        ky as int,
                        kx as int,
                    );
                }
                let sx: u32 = clamp_index(x as i64 + kx as i64 - radius_x, self.width);
                let sy: u32 = clamp_index(y as i64 + ky as i64 - radius_y, self.height);
                let img_v: T = self.get_pixel(sx, sy);
                let k_v: T = kernel.get_pixel(kx, ky);
                assert(img_v == self@.tap_source(kernel@, x as int, y as int, n));
                assert(k_v == kernel@.pixels[n]);
                assert(lawful ==> self@.tap_defined(kernel@, zero, x as int, y as int, n));
                let product: T = img_v * k_v;
                acc = acc + product;
                kx += 1;
            }
            proof {
                assert((ky + 1) * kernel_width == ky * kernel_width + kernel_width)
                    by (nonlinear_arith);
            }
            ky += 1;
        }
        proof {
            assert(kernel_height * kernel_width == kernel.data@.len()) by (nonlinear_arith)
                requires
                    kernel.data@.len() == kernel_width * kernel_height,
            ;
        }
        acc
    }

    /// The convolution of the grid by `kernel`, whose width and height are odd.
    /// The image border is replicated outward, so the result has the
    /// dimensions of `self`.
    pub fn convolve(&self, kernel: &Grid<T>, zero: T) -> (out: Grid<T>)
        requires
            self.wf(),
            kernel.wf(),
            kernel.width % 2 == 1,
            kernel.height % 2 == 1,
            (add_total::<T>() && mul_total::<T>()) || (T::obeys_add_spec() && T::obeys_mul_spec()
                && self@.convolve_defined(kernel@, zero)),
        ensures
            out.wf(),
            out.width == self.width,
            out.height == self.height,
            T::obeys_add_spec() && T::obeys_mul_spec() ==> out@ == self@.convolve(kernel@, zero),
            T::obeys_add_spec() && T::obeys_mul_spec() ==> forall|x: int, y: int|
                0 <= x < self.width && 0 <= y < self.height ==> #[trigger] out@.at(x, y)
                    == self@.convolve_at(kernel@, zero, x, y),
    {
        let width: u32 = self.width;
        let height: u32 = self.height;
        let ghost lawful = T::obeys_add_spec() && T::obeys_mul_spec();
        let mut data: Vec<T> = Vec::new();
        let mut y: u32 = 0;
        while y < height
            invariant
                self.wf(),
                kernel.wf(),
                width == self.width,
                height == self.height,
                y <= height,
                lawful == (T::obeys_add_spec() && T::obeys_mul_spec()),
                (add_total::<T>() && mul_total::<T>()) || (lawful && self@.convolve_defined(
                    kernel@,
                    zero,
                )),
                data@.len() == y * width,
                lawful ==> forall|i: int|
                    0 <= i < data@.len() ==> data@[i] == self@.convolve_at(
                        kernel@,
                        zero,
                        i % (width as int),
                        i / (width as int),
                    ),
            decreases height - y,
        {
            let mut x: u32 = 0;
            while x < width
                invariant
                    self.wf(),
                    kernel.wf(),
                    width == self.width,
                    height == self.height,
                    y < height,
                    x <= width,
                    lawful == (T::obeys_add_spec() && T::obeys_mul_spec()),
                    (add_total::<T>() && mul_total::<T>()) || (lawful && self@.convolve_defined(
                        kernel@,
                        zero,
                    )),
                    data@.len() == y * width + x,
                    lawful ==> forall|i: int|
                        0 <= i < data@.len() ==> data@[i] == self@.convolve_at(
                            kernel@,
                            zero,
                            i % (width as int),
                            i / (width as int),
                        ),
                decreases width - x,
            {
                proof {
                    lemma_fundamental_div_mod_converse(
                        y * width + x,
                        width as int,
                        y as int,
                        x as int,
                    );
                }
                let acc: T = self.convolve_at(kernel, zero, x, y);
                data.push(acc);
                x += 1;
            }
            proof {
                assert((y + 1) * width == y * width + width) by (nonlinear_arith);
            }
            y += 1;
        }
        let out = Grid { width, height, data };
        proof {
            assert(height * width == width * height) by (nonlinear_arith);
            if lawful {
                assert(out@.pixels =~= self@.convolve(kernel@, zero).pixels);
                assert forall|x: int, y: int|
                    0 <= x < self.width && 0 <= y < self.height implies #[trigger] out@.at(x, y)
                    == self@.convolve_at(kernel@, zero, x, y) by {
                    lemma_index_in_bounds(x, y, width as int, height as int);
                    lemma_fundamental_div_mod_converse(y * width + x, width as int, y, x);
                }
            }
        }
        out
    }
}

impl<T: Copy + Sub<Output = T>> Grid<T> {
    /// `self - other`, pixel by pixel, for two grids of the same dimensions.
    pub fn difference(&self, other: &Grid<T>) -> (out: Grid<T>)
        requires
            self.wf(),
            other.wf(),
            self.width == other.width,
            self.height == other.height,
            self@.difference_defined(other@),
        ensures
            out.wf(),
            out.width == self.width,
            out.height == self.height,
            T::obeys_sub_spec() ==> out@ == self@.difference(other@),
    {
        let len: usize = self.data.len();
        let mut out_data: Vec<T> = Vec::with_capacity(len);
        let mut i: usize = 0;
        while i < len
            invariant
                len == self.data@.len(),
                len == other.data@.len(),
                self@.difference_defined(other@),
                i <= len,
                out_data@.len() == i,
                T::obeys_sub_spec() ==> forall|j: int|
                    0 <= j < i ==> out_data@[j] == self.data@[j].sub_spec(other.data@[j]),
            decreases len - i,
        {
            let a: T = self.data[i];
            let b: T = other.data[i];
            assert(self@.pixels[i as int].sub_req(other@.pixels[i as int]));
            out_data.push(a - b);
            i += 1;
        }
        let out = Grid { width: self.width, height: self.height, data: out_data };
        proof {
            if T::obeys_sub_spec() {
                assert(out@.pixels =~= self@.difference(other@).pixels);
            }
        }
        out
    }
}

/// What a kernel makes of a constant image of value `value`: the sum,
/// starting from `zero`, of `value` times each of its first `n` weights.
pub open spec fn constant_response<T: Add<Output = T> + Mul<Output = T>>(
    value: T,
    weights: Seq<T>,
    zero: T,
    n: nat,
) -> T
    decreases n,
{
    if n == 0 {
        zero
    } else {
        constant_response(value, weights, zero, (n - 1) as nat).add_spec(
            value.mul_spec(weights[n - 1]),
        )
    }
}

/// The sum of the first `n` of `weights`.
pub open spec fn weight_sum(weights: Seq<i64>, n: nat) -> int
    decreases n,
{
    if n == 0 {
        0
    } else {
        weight_sum(weights, (n - 1) as nat) + weights[n - 1]
    }
}

/// The difference of a grid with itself is zero wherever a pixel minus
/// itself is zero.
pub proof fn lemma_difference_with_itself<T: Sub<Output = T>>(a: GridView<T>, zero: T)
    requires
        forall|i: int| 0 <= i < a.pixels.len() ==> (#[trigger] a.pixels[i]).sub_spec(a.pixels[i])
            == zero,
    ensures
        a.difference(a).is_constant(zero),
        a.difference(a).width == a.width,
        a.difference(a).height == a.height,
{
}

/// The difference of a grid of integers with itself is defined and all zero.
pub proof fn lemma_difference_with_itself_is_zero(a: GridView<i64>)
    ensures
        a.difference_defined(a),
        a.difference(a).is_constant(0i64),
{
}

/// The convolution of a constant image is constant: each output pixel is
/// what the kernel makes of the constant value, wherever it lies.
pub proof fn lemma_convolve_constant<T: Add<Output = T> + Mul<Output = T>>(
    image: GridView<T>,
    kernel: GridView<T>,
    value: T,
    zero: T,
    x: int,
    y: int,
    n: nat,
)
    requires
        image.wf(),
        image.is_constant(value),
        0 <= x < image.width,
        0 <= y < image.height,
    ensures
        image.partial_sum(kernel, zero, x, y, n) == constant_response(
            value,
            kernel.pixels,
            zero,
            n,
        ),
    decreases n,
{
    if n > 0 {
        lemma_convolve_constant(image, kernel, value, zero, x, y, (n - 1) as nat);
        let sx = clamp_int(
            x + (n - 1) % (kernel.width as int) - kernel.width / 2,
            0,
            image.width - 1,
        );
        let sy = clamp_int(
            y + (n - 1) / (kernel.width as int) - kernel.height / 2,
            0,
            image.height - 1,
        );
        lemma_index_in_bounds(sx, sy, image.width as int, image.height as int);
        assert(image.tap_source(kernel, x, y, n - 1) == image.pixels[sy * image.width + sx]);
    }
}

/// In whole numbers, what a kernel makes of a constant value is the value
/// times the sum of the weights, as long as no step overflows.
pub proof fn lemma_constant_response_is_product(value: i64, weights: Seq<i64>, n: nat)
    requires
        n <= weights.len(),
        forall|k: int|
            0 <= k < n ==> {
                &&& value.mul_req(#[trigger] weights[k])
                &&& constant_response(value, weights, 0i64, k as nat).add_req(
                    value.mul_spec(weights[k]),
                )
            },
    ensures
        constant_response(value, weights, 0i64, n) == value * weight_sum(weights, n),
    decreases n,
{
    if n > 0 {
        lemma_constant_response_is_product(value, weights, (n - 1) as nat);
        let before = weight_sum(weights, (n - 1) as nat);
        let w = weights[n - 1];
        assert(value.mul_req(w));
        assert(value * (before + w) == value * before + value * w) by (nonlinear_arith);
    }
}

/// A kernel of whole numbers whose weights add up to one leaves a constant
/// image as it is, as long as no step of the convolution overflows.
pub proof fn lemma_normalized_kernel_preserves_constant(
    image: GridView<i64>,
    kernel: GridView<i64>,
    value: i64,
    x: int,
    y: int,
)
    requires
        image.wf(),
        image.is_constant(value),
        0 <= x < image.width,
        0 <= y < image.height,
        image.convolve_defined(kernel, 0i64),
        weight_sum(kernel.pixels, kernel.pixels.len()) == 1,
    ensures
        image.convolve(kernel, 0i64).at(x, y) == value,
{
    let n = kernel.pixels.len();
    assert forall|k: int| 0 <= k < n implies {
        &&& value.mul_req(#[trigger] kernel.pixels[k])
        &&& constant_response(value, kernel.pixels, 0i64, k as nat).add_req(
            value.mul_spec(kernel.pixels[k]),
        )
    } by {
        assert(image.tap_defined(kernel, 0i64, x, y, k));
        lemma_convolve_constant(image, kernel, value, 0i64, x, y, k as nat);
        lemma_convolve_constant(image, kernel, value, 0i64, x, y, (k + 1) as nat);
        let sx = clamp_int(x + k % (kernel.width as int) - kernel.width / 2, 0, image.width - 1);
        let sy = clamp_int(y + k / (kernel.width as int) - kernel.height / 2, 0, image.height - 1);
        lemma_index_in_bounds(sx, sy, image.width as int, image.height as int);
        assert(image.tap_source(kernel, x, y, k) == image.pixels[sy * image.width + sx]);
    }
    lemma_constant_response_is_product(value, kernel.pixels, n);
    lemma_convolve_constant(image, kernel, value, 0i64, x, y, n);
    lemma_index_in_bounds(x, y, image.width as int, image.height as int);
    lemma_fundamental_div_mod_converse(y * image.width + x, image.width as int, y, x);
}

} // verus!

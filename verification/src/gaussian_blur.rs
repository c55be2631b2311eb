//! Gaussian blur: the size of the kernel for a given spread, the
//! normalization of its weights, and the blur itself.
//!
//! The Gaussian density is evaluated by the caller; this module receives its
//! values at the kernel's positions, row by row.
use crate::grid::{Grid, GridView};
use crate::numeric::{add_total, arithmetic_lawful, arithmetic_total, div_total, Scalar};
use vstd::prelude::*;
use vstd::std_specs::ops::{AddSpec, DivSpec};

verus! {

/// `m` can be the side of a kernel that covers `span`: it is odd, at least 3
/// and at least `span`.
pub open spec fn covers(m: int, span: int) -> bool {
    m % 2 == 1 && m >= 3 && m >= span
}

/// The smallest odd number that is at least `span`, but at least 3.
pub open spec fn odd_size(span: int) -> int {
    let odd = if span % 2 == 0 {
        span + 1
    } else {
        span
    };
    if odd < 3 {
        3
    } else {
        odd
    }
}

/// The side of the kernel for a Gaussian of standard deviation sigma, from
/// `span`, which is six times sigma rounded up to a whole number: the
/// smallest odd number that is at least `span`, but at least 3.
pub fn kernel_size_for_sigma(span: u32) -> (size: u32)
    ensures
        size == odd_size(span as int),
        covers(size as int, span as int),
        forall|m: int| #[trigger] covers(m, span as int) ==> size <= m,
{
    let mut size: u32 = span;
    if size % 2 == 0 {
        size += 1;
    }
    if size < 3 {
        3
    } else {
        size
    }
}

/// The sum of the first `n` of `values`, added in order to `start`.
pub open spec fn running_sum<T: Scalar>(values: Seq<T>, start: T, n: nat) -> T
    decreases n,
{
    if n == 0 {
        start
    } else {
        running_sum(values, start, (n - 1) as nat).add_spec(values[n - 1])
    }
}

/// The weights of a kernel with the given density: each value divided by the
/// sum of `epsilon` and all values.
pub open spec fn normalized_weights<T: Scalar>(density: Seq<T>, epsilon: T) -> Seq<T> {
    let sum = running_sum(density, epsilon, density.len());
    Seq::new(density.len(), |i: int| density[i].div_spec(sum))
}

/// Each addition and each division of the normalization is admissible.
pub open spec fn weights_defined<T: Scalar>(density: Seq<T>, epsilon: T) -> bool {
    &&& forall|n: int|
        0 <= n < density.len() ==> (#[trigger] running_sum(density, epsilon, n as nat)).add_req(
            density[n],
        )
    &&& forall|i: int|
        0 <= i < density.len() ==> (#[trigger] density[i]).div_req(
            running_sum(density, epsilon, density.len()),
        )
}

/// The view of the kernel of side `size` with the given density.
pub open spec fn kernel_view<T: Scalar>(size: u32, density: Seq<T>, epsilon: T) -> GridView<T> {
    GridView {
        width: size as nat,
        height: size as nat,
        pixels: normalized_weights(density, epsilon),
    }
}

/// The blur kernel of odd side `size` whose weights are the values
/// `density` of the Gaussian at its positions, row by row, normalized so that
/// they add up to one: each is divided by their sum, to which `epsilon` is
/// added so that it cannot be zero.
pub fn gaussian_kernel<T: Scalar>(size: u32, density: &[T], epsilon: T) -> (kernel: Grid<T>)
    requires
        size % 2 == 1,
        density@.len() == size * size,
        (add_total::<T>() && div_total::<T>()) || (arithmetic_lawful::<T>() && weights_defined(
            density@,
            epsilon,
        )),
    ensures
        kernel.wf(),
        kernel.width == size,
        kernel.height == size,
        arithmetic_lawful::<T>() ==> kernel@ == kernel_view(size, density@, epsilon),
{
    let mut sum: T = epsilon;
    let mut i: usize = 0;
    while i < density.len()
        invariant
            i <= density@.len(),
            (add_total::<T>() && div_total::<T>()) || (arithmetic_lawful::<T>()
                && weights_defined(density@, epsilon)),
            arithmetic_lawful::<T>() ==> sum == running_sum(density@, epsilon, i as nat),
        decreases density@.len() - i,
    {
        let ghost n: int = i as int;
        assert(!add_total::<T>() ==> running_sum(density@, epsilon, n as nat).add_req(
            density@[n],
        ));
        sum = sum + density[i];
        i += 1;
    }
    let mut data: Vec<T> = Vec::with_capacity(density.len());
    let mut i: usize = 0;
    while i < density.len()
        invariant
            i <= density@.len(),
            (add_total::<T>() && div_total::<T>()) || (arithmetic_lawful::<T>()
                && weights_defined(density@, epsilon)),
            arithmetic_lawful::<T>() ==> sum == running_sum(density@, epsilon, density@.len()),
            data@.len() == i,
            arithmetic_lawful::<T>() ==> forall|j: int|
                0 <= j < i ==> data@[j] == normalized_weights(density@, epsilon)[j],
        decreases density@.len() - i,
    {
        assert(!div_total::<T>() ==> density@[i as int].div_req(
            running_sum(density@, epsilon, density@.len()),
        ));
        data.push(density[i] / sum);
        i += 1;
    }
    let kernel = Grid { width: size, height: size, data };
    proof {
        if arithmetic_lawful::<T>() {
            assert(kernel@.pixels =~= normalized_weights(density@, epsilon));
        }
    }
    kernel
}

/// The image blurred by the Gaussian kernel of odd side `kernel_size` whose
/// density at the kernel's positions is `density`.
pub fn gaussian_blur<T: Scalar>(
    image_grid: &Grid<T>,
    kernel_size: u32,
    density: &[T],
    epsilon: T,
    zero: T,
) -> (blurred: Grid<T>)
    requires
        image_grid.wf(),
        kernel_size % 2 == 1,
        density@.len() == kernel_size * kernel_size,
        arithmetic_total::<T>() || (arithmetic_lawful::<T>() && weights_defined(
            density@,
            epsilon,
        ) && image_grid@.convolve_defined(kernel_view(kernel_size, density@, epsilon), zero)),
    ensures
        blurred.wf(),
        blurred.width == image_grid.width,
        blurred.height == image_grid.height,
        arithmetic_lawful::<T>() ==> blurred@ == image_grid@.convolve(
            kernel_view(kernel_size, density@, epsilon),
            zero,
        ),
{
    let kernel: Grid<T> = gaussian_kernel(kernel_size, density, epsilon);
    image_grid.convolve(&kernel, zero)
}

} // verus!

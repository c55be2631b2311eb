//! Image gradients by central differences, and the square window round a
//! keypoint in which they are sampled.
use crate::grid::{Grid, GridView};
use std::ops::Sub;
use vstd::prelude::*;
use vstd::std_specs::ops::SubSpec;

verus! {

/// Positions along one side of the window of half-width `radius`.
pub open spec fn window_side(radius: int) -> int {
    if radius < 0 {
        0
    } else {
        2 * radius + 1
    }
}

/// Positions in the window of half-width `radius`; they are counted row by row.
pub open spec fn window_len(radius: int) -> int {
    window_side(radius) * window_side(radius)
}

/// The horizontal offset of window position `k` from the centre.
pub open spec fn window_dx(radius: int, k: int) -> int {
    k % window_side(radius) - radius
}

/// The vertical offset of window position `k` from the centre.
pub open spec fn window_dy(radius: int, k: int) -> int {
    k / window_side(radius) - radius
}

impl<T> GridView<T> {
    /// `(x, y)` is a pixel that has a neighbour on each of its four sides.
    pub open spec fn is_interior(self, x: int, y: int) -> bool {
        1 <= x < self.width - 1 && 1 <= y < self.height - 1
    }
}

impl<T: Sub<Output = T>> GridView<T> {
    /// The central difference in x at `(x, y)`: right neighbour minus left neighbour.
    pub open spec fn gradient_x(self, x: int, y: int) -> T {
        self.at(x + 1, y).sub_spec(self.at(x - 1, y))
    }

    /// The central difference in y at `(x, y)`: lower neighbour minus upper neighbour.
    pub open spec fn gradient_y(self, x: int, y: int) -> T {
        self.at(x, y + 1).sub_spec(self.at(x, y - 1))
    }

    /// Both central differences at `(x, y)` are admissible.
    pub open spec fn gradient_defined(self, x: int, y: int) -> bool {
        &&& self.at(x + 1, y).sub_req(self.at(x - 1, y))
        &&& self.at(x, y + 1).sub_req(self.at(x, y - 1))
    }
}

/// The pixel `(center_x + dx, center_y + dy)` of `image` where it is an
/// interior pixel.
pub fn interior_position<T: Copy>(
    image: &Grid<T>,
    center_x: u32,
    center_y: u32,
    dx: i64,
    dy: i64,
) -> (position: Option<(u32, u32)>)
    requires
        -0x1_0000_0000 <= dx <= 0x1_0000_0000,
        -0x1_0000_0000 <= dy <= 0x1_0000_0000,
    ensures
        position is Some <==> image@.is_interior(center_x + dx, center_y + dy),
        position matches Some(p) ==> p.0 == center_x + dx && p.1 == center_y + dy,
{
    let x: i64 = center_x as i64 + dx;
    let y: i64 = center_y as i64 + dy;
    if x < 1 || y < 1 || x >= image.width as i64 - 1 || y >= image.height as i64 - 1 {
        None
    } else {
        Some((x as u32, y as u32))
    }
}

/// The gradient of `image` at the interior pixel `(x, y)` by central differences.
pub fn central_gradient<T: Copy + Sub<Output = T>>(image: &Grid<T>, x: u32, y: u32) -> (gradient: (
    T,
    T,
))
    requires
        image.wf(),
        image@.is_interior(x as int, y as int),
        image@.gradient_defined(x as int, y as int),
    ensures
        T::obeys_sub_spec() ==> gradient == (
            image@.gradient_x(x as int, y as int),
            image@.gradient_y(x as int, y as int),
        ),
{
    let gx: T = image.get_pixel(x + 1, y) - image.get_pixel(x - 1, y);
    let gy: T = image.get_pixel(x, y + 1) - image.get_pixel(x, y - 1);
    (gx, gy)
}

} // verus!

//! The descriptor of a keypoint: a histogram of gradient orientations over a
//! grid of 4 by 4 cells with 8 orientation bins each, normalized twice.
//!
//! The histogram is built in three stages. Gradient sampling walks a square
//! window round the keypoint and takes the central differences of the image.
//! What a gradient contributes (into which cell and bin, and how much) is a matter
//! of rotating and scaling by the keypoint's angle and scale; that is handed in as
//! a function, and its answer is a [`Sample`]. Accumulation spreads a sample over
//! the two nearest cells in each direction and the two nearest bins.
//! Normalization divides by the Euclidean norm, clips, and divides again.
use crate::gradient::{
    central_gradient, interior_position, window_dx, window_dy, window_len, window_side,
};
use crate::grid::{Grid, GridView};
use crate::keypoints::{Keypoint, ScaleLevel};
use crate::numeric::{
    add_total, arithmetic_lawful, arithmetic_total, at_least, at_most, div_total, greater, less,
    mul_total, rem_total, Scalar,
};
use std::ops::{Neg, Rem};
use vstd::arithmetic::div_mod::lemma_fundamental_div_mod_converse;
use vstd::prelude::*;
use vstd::std_specs::ops::{AddSpec, DivSpec, MulSpec, NegSpec, RemSpec, SubSpec};

verus! {

/// Cells along each side of the descriptor grid.
pub const CELLS: usize = 4;

/// Orientation bins in each cell.
pub const BINS: usize = 8;

/// Components of a descriptor.
pub const DESCRIPTOR_LEN: usize = 128;

/// What one gradient of the sampling window contributes to a descriptor.
///
/// `cell_x`, `cell_y` and `bin` index the cell and the orientation bin at or
/// below the sample; `frac_x`, `frac_y` and `frac_bin` say how far the sample
/// lies from them towards the next; `weight` is the weighted gradient magnitude.
pub struct Sample<T> {
    pub cell_x: i32,
    pub cell_y: i32,
    pub bin: i32,
    pub frac_x: T,
    pub frac_y: T,
    pub frac_bin: T,
    pub weight: T,
}

/// The component of a descriptor that holds orientation bin `bin` of the cell
/// in column `cell_x` and row `cell_y`.
pub open spec fn slot_index(cell_x: int, cell_y: int, bin: int) -> int {
    (cell_y * 4 + cell_x) * 8 + bin
}

impl<T: Scalar> Sample<T> {
    /// The component that corner `c` of the sample adds to, if any. The eight
    /// corners are counted with the step in x first, then the step in y, then
    /// the step in orientation. A corner whose cell lies outside the grid is
    /// dropped; the orientation bin wraps round.
    pub open spec fn corner_slot(self, c: int) -> Option<int> {
        let cell_x = self.cell_x + c / 4;
        let cell_y = self.cell_y + (c / 2) % 2;
        let bin = (self.bin + c % 2) % 8;
        if 0 <= cell_x < 4 && 0 <= cell_y < 4 {
            Some(slot_index(cell_x, cell_y, bin))
        } else {
            None
        }
    }

    /// The share of one axis: the fraction itself for the far neighbour,
    /// its complement for the near one.
    pub open spec fn axis_weight(frac: T, one: T, far: bool) -> T {
        if far {
            frac
        } else {
            one.sub_spec(frac)
        }
    }

    /// What corner `c` receives: the sample's weight times its share in x, in
    /// y and in orientation, multiplied in this order.
    pub open spec fn corner_weight(self, one: T, c: int) -> T {
        self.weight.mul_spec(Self::axis_weight(self.frac_x, one, c / 4 == 1)).mul_spec(
            Self::axis_weight(self.frac_y, one, (c / 2) % 2 == 1),
        ).mul_spec(Self::axis_weight(self.frac_bin, one, c % 2 == 1))
    }

    /// The histogram after the first `n` corners of the sample were added.
    pub open spec fn spread(self, hist: Seq<T>, one: T, n: nat) -> Seq<T>
        decreases n,
    {
        if n == 0 {
            hist
        } else {
            let before = self.spread(hist, one, (n - 1) as nat);
            match self.corner_slot(n - 1) {
                Some(i) => before.update(i, before[i].add_spec(self.corner_weight(one, n - 1))),
                None => before,
            }
        }
    }

    /// Each operation that adding corner `c` to `hist` asks for is admissible.
    pub open spec fn corner_defined(self, hist: Seq<T>, one: T, c: int) -> bool {
        self.corner_slot(c) matches Some(i) ==> {
            let wx = Self::axis_weight(self.frac_x, one, c / 4 == 1);
            let wy = Self::axis_weight(self.frac_y, one, (c / 2) % 2 == 1);
            let wo = Self::axis_weight(self.frac_bin, one, c % 2 == 1);
            &&& c / 4 == 0 ==> one.sub_req(self.frac_x)
            &&& (c / 2) % 2 == 0 ==> one.sub_req(self.frac_y)
            &&& c % 2 == 0 ==> one.sub_req(self.frac_bin)
            &&& self.weight.mul_req(wx)
            &&& self.weight.mul_spec(wx).mul_req(wy)
            &&& self.weight.mul_spec(wx).mul_spec(wy).mul_req(wo)
            &&& self.spread(hist, one, c as nat)[i].add_req(self.corner_weight(one, c))
        }
    }

    /// Each operation that adding the sample to `hist` asks for is admissible.
    pub open spec fn spread_defined(self, hist: Seq<T>, one: T) -> bool {
        forall|c: int| 0 <= c < 8 ==> #[trigger] self.corner_defined(hist, one, c)
    }
}

/// `i` reduced to the range `0..8`.
fn wrap_bin(i: i64) -> (r: usize)
    requires
        i32::MIN <= i <= i32::MAX + 1,
    ensures
        r == i % 8,
{
    if i >= 0 {
        (i % 8) as usize
    } else {
        let below: i64 = -1 - i;
        (7 - below % 8) as usize
    }
}

/// The share of one axis: `frac` for the far neighbour, `one - frac` for the near one.
fn axis_share<T: Scalar>(frac: T, one: T, far: bool) -> (w: T)
    requires
        far || one.sub_req(frac),
    ensures
        T::obeys_sub_spec() ==> w == Sample::<T>::axis_weight(frac, one, far),
{
    if far {
        frac
    } else {
        one - frac
    }
}

/// Adds `sample` to the histogram `hist`: its weight is shared out between
/// the two nearest cells in x, the two nearest in y and the two nearest
/// orientation bins. Cells outside the 4 by 4 grid receive nothing.
pub fn accumulate_sample<T: Scalar>(hist: &mut Vec<T>, sample: &Sample<T>, one: T)
    requires
        old(hist)@.len() == DESCRIPTOR_LEN,
        arithmetic_total::<T>() || (arithmetic_lawful::<T>() && sample.spread_defined(
            old(hist)@,
            one,
        )),
    ensures
        final(hist)@.len() == DESCRIPTOR_LEN,
        arithmetic_lawful::<T>() ==> final(hist)@ == sample.spread(old(hist)@, one, 8),
{
    let ghost start = hist@;
    let mut c: u8 = 0;
    while c < 8
        invariant
            c <= 8,
            hist@.len() == DESCRIPTOR_LEN,
            arithmetic_total::<T>() || (arithmetic_lawful::<T>() && sample.spread_defined(
                start,
                one,
            )),
            arithmetic_lawful::<T>() ==> hist@ == sample.spread(start, one, c as nat),
        decreases 8 - c,
    {
        let far_x: bool = c / 4 == 1;
        let far_y: bool = (c / 2) % 2 == 1;
        let far_bin: bool = c % 2 == 1;
        let cell_x: i64 = sample.cell_x as i64 + (c / 4) as i64;
        let cell_y: i64 = sample.cell_y as i64 + ((c / 2) % 2) as i64;
        if 0 <= cell_x && cell_x < 4 && 0 <= cell_y && cell_y < 4 {
            let bin: usize = wrap_bin(sample.bin as i64 + (c % 2) as i64);
            let index: usize = ((cell_y as usize) * CELLS + (cell_x as usize)) * BINS + bin;
            assert(sample.corner_slot(c as int) == Some(index as int));
            assert(arithmetic_lawful::<T>() ==> sample.corner_defined(start, one, c as int));
            let wx: T = axis_share(sample.frac_x, one, far_x);
            let wy: T = axis_share(sample.frac_y, one, far_y);
            let wo: T = axis_share(sample.frac_bin, one, far_bin);
            let share: T = sample.weight * wx * wy * wo;
            let sum: T = hist[index] + share;
            hist.set(index, sum);
        } else {
            assert(sample.corner_slot(c as int) is None);
        }
        c += 1;
    }
}

/// The sum, starting from `zero`, of the squares of the first `n` values, added in order.
pub open spec fn squares_sum<T: Scalar>(values: Seq<T>, zero: T, n: nat) -> T
    decreases n,
{
    if n == 0 {
        zero
    } else {
        squares_sum(values, zero, (n - 1) as nat).add_spec(values[n - 1].mul_spec(values[n - 1]))
    }
}

/// Each square and each addition of [`squares_sum`] is admissible.
pub open spec fn squares_defined<T: Scalar>(values: Seq<T>, zero: T) -> bool {
    forall|n: int|
        0 <= n < values.len() ==> #[trigger] values[n].mul_req(values[n]) && squares_sum(
            values,
            zero,
            n as nat,
        ).add_req(values[n].mul_spec(values[n]))
}

/// Each value divided by `divisor`.
pub open spec fn divided<T: Scalar>(values: Seq<T>, divisor: T) -> Seq<T> {
    Seq::new(values.len(), |i: int| values[i].div_spec(divisor))
}

/// Each value that is greater than `limit` replaced by `limit`.
pub open spec fn clipped<T: Scalar>(values: Seq<T>, limit: T) -> Seq<T> {
    Seq::new(
        values.len(),
        |i: int|
            if greater(values[i], limit) {
                limit
            } else {
                values[i]
            },
    )
}

/// `values` divided by `norm` where `norm` is greater than `zero`, and unchanged otherwise.
pub open spec fn scaled_to<T: Scalar>(values: Seq<T>, norm: T, zero: T) -> Seq<T> {
    if greater(norm, zero) {
        divided(values, norm)
    } else {
        values
    }
}

/// The histogram `raw` normalized with `first_norm`, clipped at `limit`, and
/// normalized again with `second_norm`.
pub open spec fn normalized<T: Scalar>(
    raw: Seq<T>,
    first_norm: T,
    second_norm: T,
    zero: T,
    limit: T,
) -> Seq<T> {
    scaled_to(clipped(scaled_to(raw, first_norm, zero), limit), second_norm, zero)
}

/// `first_norm` and `second_norm` are what `root` returned for the sum of the
/// squares of `raw` and for the sum of the squares of the clipped histogram.
pub open spec fn norms_of<T: Scalar, R: Fn(T) -> T>(
    root: &R,
    raw: Seq<T>,
    first_norm: T,
    second_norm: T,
    zero: T,
    limit: T,
) -> bool {
    &&& call_ensures(root, (squares_sum(raw, zero, raw.len()),), first_norm)
    &&& call_ensures(
        root,
        (
            squares_sum(
                clipped(scaled_to(raw, first_norm, zero), limit),
                zero,
                raw.len(),
            ),
        ),
        second_norm,
    )
}

/// The sum of the squares of `values`, added in order to `zero`.
pub fn sum_of_squares<T: Scalar>(values: &Vec<T>, zero: T) -> (sum: T)
    requires
        (add_total::<T>() && mul_total::<T>()) || (arithmetic_lawful::<T>() && squares_defined(
            values@,
            zero,
        )),
    ensures
        arithmetic_lawful::<T>() ==> sum == squares_sum(values@, zero, values@.len()),
{
    let mut sum: T = zero;
    let mut i: usize = 0;
    while i < values.len()
        invariant
            i <= values@.len(),
            (add_total::<T>() && mul_total::<T>()) || (arithmetic_lawful::<T>() && squares_defined(
                values@,
                zero,
            )),
            arithmetic_lawful::<T>() ==> sum == squares_sum(values@, zero, i as nat),
        decreases values@.len() - i,
    {
        let v: T = values[i];
        assert(arithmetic_lawful::<T>() ==> values@[i as int].mul_req(values@[i as int]));
        let square: T = v * v;
        sum = sum + square;
        i += 1;
    }
    sum
}

/// Divides each value by `divisor`.
pub fn divide_all<T: Scalar>(values: &mut Vec<T>, divisor: T)
    requires
        forall|i: int| 0 <= i < old(values)@.len() ==> #[trigger] old(values)@[i].div_req(divisor),
    ensures
        final(values)@.len() == old(values)@.len(),
        T::obeys_div_spec() ==> final(values)@ == divided(old(values)@, divisor),
{
    let ghost start = values@;
    let mut i: usize = 0;
    while i < values.len()
        invariant
            values@.len() == start.len(),
            i <= values@.len(),
            forall|j: int| 0 <= j < start.len() ==> #[trigger] start[j].div_req(divisor),
            forall|j: int| i <= j < start.len() ==> values@[j] == start[j],
            T::obeys_div_spec() ==> forall|j: int|
                0 <= j < i ==> values@[j] == start[j].div_spec(divisor),
        decreases values@.len() - i,
    {
        let v: T = values[i];
        assert(start[i as int].div_req(divisor));
        values.set(i, v / divisor);
        i += 1;
    }
    proof {
        if T::obeys_div_spec() {
            assert(values@ =~= divided(start, divisor));
        }
    }
}

/// Replaces each value that is greater than `limit` by `limit`.
pub fn clip_above<T: Scalar>(values: &mut Vec<T>, limit: T)
    ensures
        final(values)@.len() == old(values)@.len(),
        arithmetic_lawful::<T>() ==> final(values)@ == clipped(old(values)@, limit),
{
    let ghost start = values@;
    let mut i: usize = 0;
    while i < values.len()
        invariant
            values@.len() == start.len(),
            i <= values@.len(),
            forall|j: int| i <= j < start.len() ==> values@[j] == start[j],
            arithmetic_lawful::<T>() ==> forall|j: int|
                0 <= j < i ==> values@[j] == clipped(start, limit)[j],
        decreases values@.len() - i,
    {
        let v: T = values[i];
        if v > limit {
            values.set(i, limit);
        }
        i += 1;
    }
    proof {
        if arithmetic_lawful::<T>() {
            assert(values@ =~= clipped(start, limit));
        }
    }
}

/// Divides `values` by `norm` where `norm` is greater than `zero`.
fn scale_to<T: Scalar>(values: &mut Vec<T>, norm: T, zero: T)
    requires
        div_total::<T>(),
    ensures
        final(values)@.len() == old(values)@.len(),
        arithmetic_lawful::<T>() ==> final(values)@ == scaled_to(old(values)@, norm, zero),
{
    if norm > zero {
        divide_all(values, norm);
    }
}

/// Normalizes the histogram `hist` for changes of illumination: divides it by
/// its Euclidean norm, clips every component at `limit`, and divides by the
/// norm again. A norm that is not greater than `zero` leaves the histogram as
/// it is. `root` takes the square root of a sum of squares.
pub fn normalize_descriptor<T: Scalar, R: Fn(T) -> T>(
    hist: &mut Vec<T>,
    root: &R,
    zero: T,
    limit: T,
)
    requires
        arithmetic_total::<T>(),
        forall|x: T| call_requires(root, (x,)),
    ensures
        final(hist)@.len() == old(hist)@.len(),
        arithmetic_lawful::<T>() ==> exists|first_norm: T, second_norm: T|
            {
                &&& #[trigger] norms_of(root, old(hist)@, first_norm, second_norm, zero, limit)
                &&& final(hist)@ == normalized(old(hist)@, first_norm, second_norm, zero, limit)
            },
{
    let ghost raw = hist@;
    let first_norm: T = root(sum_of_squares(hist, zero));
    scale_to(hist, first_norm, zero);
    clip_above(hist, limit);
    let second_norm: T = root(sum_of_squares(hist, zero));
    scale_to(hist, second_norm, zero);
    proof {
        if arithmetic_lawful::<T>() {
            assert(norms_of(root, raw, first_norm, second_norm, zero, limit));
        }
    }
}

/// What the sampling function is asked at window position `k` round the
/// keypoint `(kp_x, kp_y)`: the keypoint's scale and angle, the gradient of the
/// image there, and the offset from the keypoint. Nothing is asked where the
/// position is not an interior pixel.
pub open spec fn probe_input<T: Scalar>(
    image: GridView<T>,
    kp_x: int,
    kp_y: int,
    kp_sigma: T,
    kp_angle: T,
    radius: int,
    k: int,
) -> Option<(T, T, T, T, i32, i32)> {
    let dx = window_dx(radius, k);
    let dy = window_dy(radius, k);
    if image.is_interior(kp_x + dx, kp_y + dy) {
        Some(
            (
                kp_sigma,
                kp_angle,
                image.gradient_x(kp_x + dx, kp_y + dy),
                image.gradient_y(kp_x + dx, kp_y + dy),
                dx as i32,
                dy as i32,
            ),
        )
    } else {
        None
    }
}

/// `samples` holds, for each of the first `n` window positions in turn, what
/// `probe` answered there, and nothing where it was not asked.
pub open spec fn sampled<T: Scalar, P: Fn(T, T, T, T, i32, i32) -> Option<Sample<T>>>(
    probe: &P,
    image: GridView<T>,
    kp_x: int,
    kp_y: int,
    kp_sigma: T,
    kp_angle: T,
    radius: int,
    samples: Seq<Option<Sample<T>>>,
    n: int,
) -> bool {
    &&& samples.len() == n
    &&& forall|k: int|
        0 <= k < n ==> match #[trigger] probe_input(
            image,
            kp_x,
            kp_y,
            kp_sigma,
            kp_angle,
            radius,
            k,
        ) {
            Some(input) => call_ensures(probe, input, samples[k]),
            None => samples[k] is None,
        }
}

/// The histogram that starts with `zero` in every component and receives the
/// first `n` of `samples` in turn.
pub open spec fn histogram_of<T: Scalar>(
    samples: Seq<Option<Sample<T>>>,
    zero: T,
    one: T,
    n: nat,
) -> Seq<T>
    decreases n,
{
    if n == 0 {
        Seq::new(DESCRIPTOR_LEN as nat, |i: int| zero)
    } else {
        let before = histogram_of(samples, zero, one, (n - 1) as nat);
        match samples[n - 1] {
            Some(sample) => sample.spread(before, one, 8),
            None => before,
        }
    }
}

/// The histogram of gradient orientations round the keypoint `(kp_x, kp_y)`
/// of `image`, before normalization. The window of half-width `radius` is
/// walked row by row; at each interior pixel the gradient is taken and handed
/// to `probe` with the keypoint's scale and angle and the offset from the
/// keypoint, and the sample that it answers with, if any, is accumulated.
pub fn sample_histogram<T: Scalar, P: Fn(T, T, T, T, i32, i32) -> Option<Sample<T>>>(
    image: &Grid<T>,
    kp_x: u32,
    kp_y: u32,
    kp_sigma: T,
    kp_angle: T,
    radius: i32,
    probe: &P,
    zero: T,
    one: T,
) -> (hist: Vec<T>)
    requires
        image.wf(),
        arithmetic_total::<T>(),
        forall|s: T, a: T, gx: T, gy: T, dx: i32, dy: i32|
            call_requires(probe, (s, a, gx, gy, dx, dy)),
    ensures
        hist@.len() == DESCRIPTOR_LEN,
        arithmetic_lawful::<T>() ==> exists|samples: Seq<Option<Sample<T>>>|
            {
                &&& #[trigger] sampled(
                    probe,
                    image@,
                    kp_x as int,
                    kp_y as int,
                    kp_sigma,
                    kp_angle,
                    radius as int,
                    samples,
                    window_len(radius as int),
                )
                &&& hist@ == histogram_of(samples, zero, one, samples.len())
            },
{
    let mut hist: Vec<T> = Vec::with_capacity(DESCRIPTOR_LEN);
    let mut i: usize = 0;
    while i < DESCRIPTOR_LEN
        invariant
            i <= DESCRIPTOR_LEN,
            hist@.len() == i,
            forall|j: int| 0 <= j < i ==> hist@[j] == zero,
        decreases DESCRIPTOR_LEN - i,
    {
        hist.push(zero);
        i += 1;
    }
    let ghost mut samples: Seq<Option<Sample<T>>> = Seq::empty();
    assert(hist@ =~= histogram_of(samples, zero, one, 0));
    let reach: i64 = radius as i64;
    let ghost side = window_side(radius as int);
    let mut dy: i64 = -reach;
    assert((dy + reach) * side == 0) by (nonlinear_arith)
        requires
            dy + reach == 0,
    ;
    while dy <= reach
        invariant
            image.wf(),
            arithmetic_total::<T>(),
            forall|s: T, a: T, gx: T, gy: T, dx: i32, dy: i32|
                call_requires(probe, (s, a, gx, gy, dx, dy)),
            reach == radius,
            side == window_side(radius as int),
            -reach <= dy <= reach + 1 || (reach < 0 && dy == -reach),
            hist@.len() == DESCRIPTOR_LEN,
            reach >= 0 ==> samples.len() == (dy + reach) * side,
            reach >= 0 && arithmetic_lawful::<T>() ==> sampled(
                probe,
                image@,
                kp_x as int,
                kp_y as int,
                kp_sigma,
                kp_angle,
                radius as int,
                samples,
                (dy + reach) * side,
            ),
            reach < 0 ==> samples.len() == 0,
            arithmetic_lawful::<T>() ==> hist@ == histogram_of(samples, zero, one, samples.len()),
        decreases reach + 1 - dy,
    {
        let mut dx: i64 = -reach;
        while dx <= reach
            invariant
                image.wf(),
                arithmetic_total::<T>(),
                forall|s: T, a: T, gx: T, gy: T, dx: i32, dy: i32|
                    call_requires(probe, (s, a, gx, gy, dx, dy)),
                reach == radius,
                reach >= 0,
                side == window_side(radius as int),
                -reach <= dy <= reach,
                -reach <= dx <= reach + 1,
                hist@.len() == DESCRIPTOR_LEN,
                samples.len() == (dy + reach) * side + (dx + reach),
                arithmetic_lawful::<T>() ==> sampled(
                    probe,
                    image@,
                    kp_x as int,
                    kp_y as int,
                    kp_sigma,
                    kp_angle,
                    radius as int,
                    samples,
                    (dy + reach) * side + (dx + reach),
                ),
                arithmetic_lawful::<T>() ==> hist@ == histogram_of(
                    samples,
                    zero,
                    one,
                    samples.len(),
                ),
            decreases reach + 1 - dx,
        {
            let ghost k: int = (dy + reach) * side + (dx + reach);
            let ghost before = samples;
            proof {
                lemma_fundamental_div_mod_converse(k, side, dy + reach, dx + reach);
                assert(window_dx(radius as int, k) == dx);
                assert(window_dy(radius as int, k) == dy);
            }
            let mut answer: Option<Sample<T>> = None;
            match interior_position(image, kp_x, kp_y, dx, dy) {
                Some((x, y)) => {
                    let (gx, gy): (T, T) = central_gradient(image, x, y);
                    answer = probe(kp_sigma, kp_angle, gx, gy, dx as i32, dy as i32);
                },
                None => {},
            }
            proof {
                samples = samples.push(answer);
                assert(forall|j: int| 0 <= j < k ==> samples[j] == before[j]);
                assert(samples[k] == answer);
                assert(samples.drop_last() =~= before);
                if arithmetic_lawful::<T>() {
                    assert(histogram_of(samples, zero, one, k as nat) == histogram_of(
                        before,
                        zero,
                        one,
                        k as nat,
                    )) by {
                        lemma_histogram_of_prefix(samples, before, zero, one, k as nat);
                    }
                }
            }
            match &answer {
                Some(sample) => {
                    accumulate_sample(&mut hist, sample, one);
                },
                None => {},
            }
            dx += 1;
        }
        proof {
            assert((dy + 1 + reach) * side == (dy + reach) * side + side) by (nonlinear_arith);
        }
        dy += 1;
    }
    proof {
        if reach >= 0 {
            assert((reach + 1 + reach) * side == window_len(radius as int));
        } else {
            assert(window_len(radius as int) == 0);
        }
        assert(samples.len() == window_len(radius as int));
    }
    hist
}

/// A histogram depends only on the samples that it has received.
pub proof fn lemma_histogram_of_prefix<T: Scalar>(
    a: Seq<Option<Sample<T>>>,
    b: Seq<Option<Sample<T>>>,
    zero: T,
    one: T,
    n: nat,
)
    requires
        n <= a.len(),
        n <= b.len(),
        forall|j: int| 0 <= j < n ==> a[j] == b[j],
    ensures
        histogram_of(a, zero, one, n) == histogram_of(b, zero, one, n),
    decreases n,
{
    if n > 0 {
        lemma_histogram_of_prefix(a, b, zero, one, (n - 1) as nat);
    }
}

/// `descriptor` is the descriptor that `samples` and the two norms lead to.
pub open spec fn described_by<T: Scalar, R: Fn(T) -> T>(
    root: &R,
    samples: Seq<Option<Sample<T>>>,
    first_norm: T,
    second_norm: T,
    zero: T,
    one: T,
    limit: T,
    descriptor: Seq<T>,
) -> bool {
    let raw = histogram_of(samples, zero, one, samples.len());
    &&& norms_of(root, raw, first_norm, second_norm, zero, limit)
    &&& descriptor == normalized(raw, first_norm, second_norm, zero, limit)
}

/// `descriptor` is a descriptor of the keypoint `(kp_x, kp_y)` of `image`:
/// there are answers of `probe` for the window of half-width `radius` and
/// answers of `root` for the two norms that lead to it.
pub open spec fn is_descriptor<
    T: Scalar,
    P: Fn(T, T, T, T, i32, i32) -> Option<Sample<T>>,
    R: Fn(T) -> T,
>(
    probe: &P,
    root: &R,
    image: GridView<T>,
    kp_x: int,
    kp_y: int,
    kp_sigma: T,
    kp_angle: T,
    radius: int,
    zero: T,
    one: T,
    limit: T,
    descriptor: Seq<T>,
) -> bool {
    exists|samples: Seq<Option<Sample<T>>>, first_norm: T, second_norm: T|
        {
            &&& #[trigger] sampled(
                probe,
                image,
                kp_x,
                kp_y,
                kp_sigma,
                kp_angle,
                radius,
                samples,
                window_len(radius),
            )
            &&& #[trigger] described_by(
                root,
                samples,
                first_norm,
                second_norm,
                zero,
                one,
                limit,
                descriptor,
            )
        }
}

/// The descriptor of the keypoint `(kp_x, kp_y)` of `image`: the histogram
/// that [`sample_histogram`] collects in the window of half-width `radius`,
/// normalized by [`normalize_descriptor`].
pub fn compute_descriptor_for<
    T: Scalar,
    P: Fn(T, T, T, T, i32, i32) -> Option<Sample<T>>,
    R: Fn(T) -> T,
>(
    image: &Grid<T>,
    kp_x: u32,
    kp_y: u32,
    kp_sigma: T,
    kp_angle: T,
    radius: i32,
    probe: &P,
    root: &R,
    zero: T,
    one: T,
    limit: T,
) -> (descriptor: Vec<T>)
    requires
        image.wf(),
        arithmetic_total::<T>(),
        forall|s: T, a: T, gx: T, gy: T, dx: i32, dy: i32|
            call_requires(probe, (s, a, gx, gy, dx, dy)),
        forall|x: T| call_requires(root, (x,)),
    ensures
        descriptor@.len() == DESCRIPTOR_LEN,
        arithmetic_lawful::<T>() ==> is_descriptor(
            probe,
            root,
            image@,
            kp_x as int,
            kp_y as int,
            kp_sigma,
            kp_angle,
            radius as int,
            zero,
            one,
            limit,
            descriptor@,
        ),
{
    let mut hist: Vec<T> = sample_histogram(
        image,
        kp_x,
        kp_y,
        kp_sigma,
        kp_angle,
        radius,
        probe,
        zero,
        one,
    );
    let ghost raw = hist@;
    normalize_descriptor(&mut hist, root, zero, limit);
    proof {
        if arithmetic_lawful::<T>() {
            let samples = choose|samples: Seq<Option<Sample<T>>>|
                {
                    &&& #[trigger] sampled(
                        probe,
                        image@,
                        kp_x as int,
                        kp_y as int,
                        kp_sigma,
                        kp_angle,
                        radius as int,
                        samples,
                        window_len(radius as int),
                    )
                    &&& raw == histogram_of(samples, zero, one, samples.len())
                };
            let (first_norm, second_norm) = choose|first_norm: T, second_norm: T|
                {
                    &&& #[trigger] norms_of(root, raw, first_norm, second_norm, zero, limit)
                    &&& hist@ == normalized(raw, first_norm, second_norm, zero, limit)
                };
            assert(described_by(
                root,
                samples,
                first_norm,
                second_norm,
                zero,
                one,
                limit,
                hist@,
            ));
        }
    }
    hist
}

/// Descriptor number `i` of the descriptors that `flat` holds one after the other.
pub open spec fn descriptor_at<T>(flat: Seq<T>, i: int) -> Seq<T> {
    flat.subrange(i * DESCRIPTOR_LEN, (i + 1) * DESCRIPTOR_LEN)
}

/// Each keypoint names a well-formed Gaussian image of the pyramid and a
/// level of the table.
pub open spec fn keypoints_fit<T: Scalar>(
    gaussians: Seq<Vec<Grid<T>>>,
    keypoints: Seq<Keypoint<T>>,
    levels: Seq<ScaleLevel<T>>,
) -> bool {
    forall|i: int|
        0 <= i < keypoints.len() ==> {
            let kp = #[trigger] keypoints[i];
            &&& kp.octave < gaussians.len()
            &&& kp.level < gaussians[kp.octave as int]@.len()
            &&& gaussians[kp.octave as int]@[kp.level as int].wf()
            &&& kp.level < levels.len()
        }
}

/// The descriptors of `keypoints`, one after the other in the order of the
/// keypoints, [`DESCRIPTOR_LEN`] components each. The descriptor of a
/// keypoint is computed by [`compute_descriptor_for`] in the Gaussian image of
/// its octave and level, in the window that `levels` gives for its level.
pub fn extract_descriptors<
    T: Scalar,
    P: Fn(T, T, T, T, i32, i32) -> Option<Sample<T>>,
    R: Fn(T) -> T,
>(
    gaussians: &[Vec<Grid<T>>],
    keypoints: &[Keypoint<T>],
    levels: &[ScaleLevel<T>],
    probe: &P,
    root: &R,
    zero: T,
    one: T,
    limit: T,
) -> (out: Vec<T>)
    requires
        keypoints_fit(gaussians@, keypoints@, levels@),
        arithmetic_total::<T>(),
        forall|s: T, a: T, gx: T, gy: T, dx: i32, dy: i32|
            call_requires(probe, (s, a, gx, gy, dx, dy)),
        forall|x: T| call_requires(root, (x,)),
    ensures
        out@.len() == keypoints@.len() * DESCRIPTOR_LEN,
        arithmetic_lawful::<T>() ==> forall|i: int|
            0 <= i < keypoints@.len() ==> {
                let kp = #[trigger] keypoints@[i];
                is_descriptor(
                    probe,
                    root,
                    gaussians@[kp.octave as int]@[kp.level as int]@,
                    kp.x as int,
                    kp.y as int,
                    kp.sigma,
                    kp.angle,
                    levels@[kp.level as int].descriptor_radius as int,
                    zero,
                    one,
                    limit,
                    descriptor_at(out@, i),
                )
            },
{
    let mut out: Vec<T> = Vec::new();
    let mut n: usize = 0;
    while n < keypoints.len()
        invariant
            keypoints_fit(gaussians@, keypoints@, levels@),
            arithmetic_total::<T>(),
            forall|s: T, a: T, gx: T, gy: T, dx: i32, dy: i32|
                call_requires(probe, (s, a, gx, gy, dx, dy)),
            forall|x: T| call_requires(root, (x,)),
            n <= keypoints@.len(),
            out@.len() == n * DESCRIPTOR_LEN,
            arithmetic_lawful::<T>() ==> forall|i: int|
                0 <= i < n ==> {
                    let kp = #[trigger] keypoints@[i];
                    is_descriptor(
                        probe,
                        root,
                        gaussians@[kp.octave as int]@[kp.level as int]@,
                        kp.x as int,
                        kp.y as int,
                        kp.sigma,
                        kp.angle,
                        levels@[kp.level as int].descriptor_radius as int,
                        zero,
                        one,
                        limit,
                        descriptor_at(out@, i),
                    )
                },
        decreases keypoints@.len() - n,
    {
        let kp: &Keypoint<T> = &keypoints[n];
        let image: &Grid<T> = &gaussians[kp.octave][kp.level];
        let mut descriptor: Vec<T> = compute_descriptor_for(
            image,
            kp.x,
            kp.y,
            kp.sigma,
            kp.angle,
            levels[kp.level].descriptor_radius,
            probe,
            root,
            zero,
            one,
            limit,
        );
        let ghost before = out@;
        let ghost added = descriptor@;
        out.append(&mut descriptor);
        proof {
            assert(descriptor_at(out@, n as int) =~= added);
            assert forall|i: int| 0 <= i < n implies #[trigger] descriptor_at(out@, i)
                == descriptor_at(before, i) by {
                assert(descriptor_at(out@, i) =~= descriptor_at(before, i));
            }
        }
        n += 1;
    }
    out
}

/// The angle `a` brought into the range from `zero` to a full turn `tau`:
/// the remainder of `a` by `tau`, and one turn more where that is below `zero`.
pub open spec fn wrapped_angle<T: Scalar + Rem<Output = T>>(a: T, tau: T, zero: T) -> T {
    let ang = a.rem_spec(tau);
    if less(ang, zero) {
        ang.add_spec(tau)
    } else {
        ang
    }
}

/// The operations of [`wrap_angle_2pi`] on these values are admissible.
pub open spec fn wrap_defined<T: Scalar + Rem<Output = T>>(a: T, tau: T, zero: T) -> bool {
    &&& a.rem_req(tau)
    &&& less(a.rem_spec(tau), zero) ==> a.rem_spec(tau).add_req(tau)
}

/// The angle `a` brought into the range from `zero` to a full turn `tau`.
pub fn wrap_angle_2pi<T: Scalar + Rem<Output = T>>(a: T, tau: T, zero: T) -> (ang: T)
    requires
        (rem_total::<T>() && add_total::<T>()) || (arithmetic_lawful::<T>() && T::obeys_rem_spec()
            && wrap_defined(a, tau, zero)),
    ensures
        arithmetic_lawful::<T>() && T::obeys_rem_spec() ==> ang == wrapped_angle(a, tau, zero),
{
    let mut ang: T = a % tau;
    if ang < zero {
        ang = ang + tau;
    }
    ang
}

/// The constants of the descriptor grid as values of the number type.
pub struct CellFrame<T> {
    /// The side of a cell in pixels at scale 1, which is 4.
    pub bin_size: T,
    /// The number of cells along a side, which is 4.
    pub cells: T,
    /// The number of orientation bins, which is 8.
    pub bins: T,
    /// A full turn.
    pub tau: T,
    pub zero: T,
    pub half: T,
    pub two: T,
    pub minus_one: T,
}

/// Where a pixel of the sampling window lies in the frame of the keypoint.
pub struct SamplePosition<T> {
    /// The offset from the keypoint, turned by the keypoint's angle and in
    /// units of cells, along the keypoint's orientation and across it.
    pub rotated_x: T,
    pub rotated_y: T,
    /// The same counted from the corner of the descriptor grid.
    pub cell_x: T,
    pub cell_y: T,
    /// The exponent of the weight that falls off with the distance from the
    /// keypoint.
    pub exponent: T,
}

/// One coordinate of the offset `(dx, dy)` in the frame of the keypoint:
/// `a * dx + b * dy`, divided by the cell size and by the keypoint's scale.
pub open spec fn frame_coordinate<T: Scalar>(a: T, b: T, dx: T, dy: T, bin_size: T, sigma: T) -> T {
    a.mul_spec(dx).add_spec(b.mul_spec(dy)).div_spec(bin_size).div_spec(sigma)
}

/// A coordinate of the keypoint's frame counted in cells from the corner of
/// the grid: half the number of cells is added and half a cell taken off.
pub open spec fn cell_coordinate<T: Scalar>(rotated: T, frame: CellFrame<T>) -> T {
    rotated.add_spec(frame.cells.div_spec(frame.two)).sub_spec(frame.half)
}

/// The exponent of the weight of a sample at `(rx, ry)` in the keypoint's
/// frame: minus the squared distance over twice the square of half the
/// number of cells.
pub open spec fn weight_exponent<T: Scalar>(rx: T, ry: T, frame: CellFrame<T>) -> T {
    let spread = frame.half.mul_spec(frame.cells);
    rx.mul_spec(rx).add_spec(ry.mul_spec(ry)).neg_spec().div_spec(
        frame.two.mul_spec(spread).mul_spec(spread),
    )
}

/// The cell coordinates lie within reach of the grid: above minus one and
/// below the number of cells.
pub open spec fn within_grid<T: Scalar>(cell_x: T, cell_y: T, frame: CellFrame<T>) -> bool {
    &&& !at_most(cell_x, frame.minus_one)
    &&& !at_most(cell_y, frame.minus_one)
    &&& !at_least(cell_x, frame.cells)
    &&& !at_least(cell_y, frame.cells)
}

/// The position in the keypoint's frame of the pixel at offset `(dx, dy)`,
/// for a keypoint of scale `kp_sigma` whose angle has the cosine `cos_t` and
/// the sine `sin_t`; none where the position is out of reach of the grid.
pub open spec fn positioned<T: Scalar>(
    kp_sigma: T,
    cos_t: T,
    sin_t: T,
    dx: T,
    dy: T,
    frame: CellFrame<T>,
) -> Option<SamplePosition<T>> {
    let rotated_x = frame_coordinate(cos_t, sin_t, dx, dy, frame.bin_size, kp_sigma);
    let rotated_y = frame_coordinate(sin_t.neg_spec(), cos_t, dx, dy, frame.bin_size, kp_sigma);
    let cell_x = cell_coordinate(rotated_x, frame);
    let cell_y = cell_coordinate(rotated_y, frame);
    if within_grid(cell_x, cell_y, frame) {
        Some(
            SamplePosition {
                rotated_x,
                rotated_y,
                cell_x,
                cell_y,
                exponent: weight_exponent(rotated_x, rotated_y, frame),
            },
        )
    } else {
        None
    }
}

/// Each operation of [`frame_coordinate`] on these values is admissible.
pub open spec fn frame_coordinate_defined<T: Scalar>(
    a: T,
    b: T,
    dx: T,
    dy: T,
    bin_size: T,
    sigma: T,
) -> bool {
    let sum = a.mul_spec(dx).add_spec(b.mul_spec(dy));
    &&& a.mul_req(dx)
    &&& b.mul_req(dy)
    &&& a.mul_spec(dx).add_req(b.mul_spec(dy))
    &&& sum.div_req(bin_size)
    &&& sum.div_spec(bin_size).div_req(sigma)
}

/// Each operation of [`cell_coordinate`] on these values is admissible.
pub open spec fn cell_coordinate_defined<T: Scalar>(rotated: T, frame: CellFrame<T>) -> bool {
    &&& frame.cells.div_req(frame.two)
    &&& rotated.add_req(frame.cells.div_spec(frame.two))
    &&& rotated.add_spec(frame.cells.div_spec(frame.two)).sub_req(frame.half)
}

/// Each operation of [`weight_exponent`] on these values is admissible.
pub open spec fn weight_exponent_defined<T: Scalar>(rx: T, ry: T, frame: CellFrame<T>) -> bool {
    let spread = frame.half.mul_spec(frame.cells);
    let distance = rx.mul_spec(rx).add_spec(ry.mul_spec(ry));
    &&& frame.half.mul_req(frame.cells)
    &&& rx.mul_req(rx)
    &&& ry.mul_req(ry)
    &&& rx.mul_spec(rx).add_req(ry.mul_spec(ry))
    &&& distance.neg_req()
    &&& frame.two.mul_req(spread)
    &&& frame.two.mul_spec(spread).mul_req(spread)
    &&& distance.neg_spec().div_req(frame.two.mul_spec(spread).mul_spec(spread))
}

/// Each operation that [`sample_position`] performs on these values is admissible.
pub open spec fn positioned_defined<T: Scalar>(
    kp_sigma: T,
    cos_t: T,
    sin_t: T,
    dx: T,
    dy: T,
    frame: CellFrame<T>,
) -> bool {
    let rotated_x = frame_coordinate(cos_t, sin_t, dx, dy, frame.bin_size, kp_sigma);
    let rotated_y = frame_coordinate(sin_t.neg_spec(), cos_t, dx, dy, frame.bin_size, kp_sigma);
    &&& sin_t.neg_req()
    &&& frame_coordinate_defined(cos_t, sin_t, dx, dy, frame.bin_size, kp_sigma)
    &&& frame_coordinate_defined(sin_t.neg_spec(), cos_t, dx, dy, frame.bin_size, kp_sigma)
    &&& cell_coordinate_defined(rotated_x, frame)
    &&& cell_coordinate_defined(rotated_y, frame)
    &&& within_grid(cell_coordinate(rotated_x, frame), cell_coordinate(rotated_y, frame), frame)
        ==> weight_exponent_defined(rotated_x, rotated_y, frame)
}

/// One coordinate of an offset in the frame of the keypoint.
fn to_frame<T: Scalar>(a: T, b: T, dx: T, dy: T, bin_size: T, sigma: T) -> (r: T)
    requires
        arithmetic_total::<T>() || (arithmetic_lawful::<T>() && frame_coordinate_defined(
            a,
            b,
            dx,
            dy,
            bin_size,
            sigma,
        )),
    ensures
        arithmetic_lawful::<T>() ==> r == frame_coordinate(a, b, dx, dy, bin_size, sigma),
{
    (a * dx + b * dy) / bin_size / sigma
}

/// The position in the keypoint's frame of the pixel at offset `(dx, dy)`
/// from a keypoint of scale `kp_sigma` whose angle has the cosine `cos_t` and
/// the sine `sin_t`. The offset is turned back by the keypoint's angle and
/// divided by the cell size and the scale; a position whose cell coordinates
/// are not above minus one and below the number of cells is discarded.
pub fn sample_position<T: Scalar>(
    kp_sigma: T,
    cos_t: T,
    sin_t: T,
    dx: T,
    dy: T,
    frame: &CellFrame<T>,
) -> (position: Option<SamplePosition<T>>)
    requires
        arithmetic_total::<T>() || (arithmetic_lawful::<T>() && positioned_defined(
            kp_sigma,
            cos_t,
            sin_t,
            dx,
            dy,
            *frame,
        )),
    ensures
        arithmetic_lawful::<T>() ==> position == positioned(
            kp_sigma,
            cos_t,
            sin_t,
            dx,
            dy,
            *frame,
        ),
{
    let rotated_x: T = to_frame(cos_t, sin_t, dx, dy, frame.bin_size, kp_sigma);
    let rotated_y: T = to_frame(sin_t.neg(), cos_t, dx, dy, frame.bin_size, kp_sigma);
    let cell_x: T = rotated_x + frame.cells / frame.two - frame.half;
    let cell_y: T = rotated_y + frame.cells / frame.two - frame.half;
    if cell_x <= frame.minus_one || cell_y <= frame.minus_one || cell_x >= frame.cells || cell_y
        >= frame.cells {
        return None;
    }
    let spread: T = frame.half * frame.cells;
    let distance: T = rotated_x * rotated_x + rotated_y * rotated_y;
    let exponent: T = distance.neg() / (frame.two * spread * spread);
    Some(SamplePosition { rotated_x, rotated_y, cell_x, cell_y, exponent })
}

/// The orientation of a gradient of angle `gradient_angle` relative to a
/// keypoint of angle `kp_angle`, in orientation bins: the difference of the
/// angles, wrapped into one turn, times the number of bins over a full turn.
pub open spec fn relative_bin<T: Scalar + Rem<Output = T>>(
    gradient_angle: T,
    kp_angle: T,
    frame: CellFrame<T>,
) -> T {
    wrapped_angle(gradient_angle.sub_spec(kp_angle), frame.tau, frame.zero).mul_spec(
        frame.bins,
    ).div_spec(frame.tau)
}

/// Each operation of [`relative_bin`] on these values is admissible.
pub open spec fn relative_bin_defined<T: Scalar + Rem<Output = T>>(
    gradient_angle: T,
    kp_angle: T,
    frame: CellFrame<T>,
) -> bool {
    let turned = gradient_angle.sub_spec(kp_angle);
    let wrapped = wrapped_angle(turned, frame.tau, frame.zero);
    &&& gradient_angle.sub_req(kp_angle)
    &&& wrap_defined(turned, frame.tau, frame.zero)
    &&& wrapped.mul_req(frame.bins)
    &&& wrapped.mul_spec(frame.bins).div_req(frame.tau)
}

/// The orientation of a gradient relative to the keypoint, in orientation bins.
pub fn orientation_bin<T: Scalar + Rem<Output = T>>(
    gradient_angle: T,
    kp_angle: T,
    frame: &CellFrame<T>,
) -> (bin: T)
    requires
        (arithmetic_total::<T>() && rem_total::<T>()) || (arithmetic_lawful::<T>()
            && T::obeys_rem_spec() && relative_bin_defined(gradient_angle, kp_angle, *frame)),
    ensures
        arithmetic_lawful::<T>() && T::obeys_rem_spec() ==> bin == relative_bin(
            gradient_angle,
            kp_angle,
            *frame,
        ),
{
    let angle: T = wrap_angle_2pi(gradient_angle - kp_angle, frame.tau, frame.zero);
    angle * frame.bins / frame.tau
}

/// The sample of a gradient: the cell and bin below it, the fractions by
/// which it lies beyond them, and its magnitude times its weight.
/// `floor_x`, `floor_y` and `floor_bin` are the cell coordinates and the
/// orientation rounded down, as indices and as numbers.
pub fn make_sample<T: Scalar>(
    position: &SamplePosition<T>,
    orientation: T,
    weight: T,
    magnitude: T,
    floor_x: (i32, T),
    floor_y: (i32, T),
    floor_bin: (i32, T),
) -> (sample: Sample<T>)
    requires
        arithmetic_total::<T>() || (arithmetic_lawful::<T>() && position.cell_x.sub_req(floor_x.1)
            && position.cell_y.sub_req(floor_y.1) && orientation.sub_req(floor_bin.1)
            && weight.mul_req(magnitude)),
    ensures
        sample.cell_x == floor_x.0,
        sample.cell_y == floor_y.0,
        sample.bin == floor_bin.0,
        arithmetic_lawful::<T>() ==> {
            &&& sample.frac_x == position.cell_x.sub_spec(floor_x.1)
            &&& sample.frac_y == position.cell_y.sub_spec(floor_y.1)
            &&& sample.frac_bin == orientation.sub_spec(floor_bin.1)
            &&& sample.weight == weight.mul_spec(magnitude)
        },
{
    Sample {
        cell_x: floor_x.0,
        cell_y: floor_y.0,
        bin: floor_bin.0,
        frac_x: position.cell_x - floor_x.1,
        frac_y: position.cell_y - floor_y.1,
        frac_bin: orientation - floor_bin.1,
        weight: weight * magnitude,
    }
}

} // verus!

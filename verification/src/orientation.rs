//! The dominant gradient orientation round a keypoint: a histogram of 36
//! orientation bins, filled from the gradients of a square window, and the
//! bin with the greatest count.
//!
//! Into which bin a gradient falls and with what weight is a matter of its
//! angle, its magnitude and its distance from the keypoint; that is handed in
//! as a function, whose answer is a [`Vote`].
use crate::gradient::{
    central_gradient, interior_position, window_dx, window_dy, window_len, window_side,
};
use crate::grid::{Grid, GridView};
use crate::numeric::{arithmetic_lawful, arithmetic_total, greater, Scalar};
use vstd::arithmetic::div_mod::lemma_fundamental_div_mod_converse;
use vstd::prelude::*;
use vstd::std_specs::ops::AddSpec;

verus! {

/// Bins of the orientation histogram, each ten degrees wide.
pub const ORIENTATION_BINS: usize = 36;

/// What one gradient of the window adds to the orientation histogram: the
/// number of its bin, which is taken modulo the number of bins, and its
/// weighted magnitude.
pub struct Vote<T> {
    pub bin: usize,
    pub weight: T,
}

impl<T: Scalar> Vote<T> {
    /// The histogram `hist` after the vote was cast.
    pub open spec fn cast(self, hist: Seq<T>) -> Seq<T> {
        let bin = self.bin as int % 36;
        hist.update(bin, hist[bin].add_spec(self.weight))
    }

    /// The vote's weight may be added to the count of its bin.
    pub open spec fn cast_defined(self, hist: Seq<T>) -> bool {
        hist[self.bin as int % 36].add_req(self.weight)
    }
}

/// The greatest of the first `n` counts of `hist` beyond `floor`, by strict
/// comparison in turn, or `floor` where no count is greater.
pub open spec fn peak_value<T: Scalar>(hist: Seq<T>, floor: T, n: nat) -> T
    decreases n,
{
    if n == 0 {
        floor
    } else {
        let before = peak_value(hist, floor, (n - 1) as nat);
        if greater(hist[n - 1], before) {
            hist[n - 1]
        } else {
            before
        }
    }
}

/// The bin among the first `n` at which [`peak_value`] was reached first, or
/// bin 0 where no count is greater than `floor`.
pub open spec fn peak_bin<T: Scalar>(hist: Seq<T>, floor: T, n: nat) -> int
    decreases n,
{
    if n == 0 {
        0
    } else {
        if greater(hist[n - 1], peak_value(hist, floor, (n - 1) as nat)) {
            n - 1
        } else {
            peak_bin(hist, floor, (n - 1) as nat)
        }
    }
}

/// The bin of `hist` whose count is the first to exceed `floor` and every
/// count before it, and which no later count exceeds.
pub fn dominant_bin<T: Scalar>(hist: &Vec<T>, floor: T) -> (bin: usize)
    ensures
        bin < hist@.len() || (bin == 0 && hist@.len() == 0),
        arithmetic_lawful::<T>() ==> bin == peak_bin(hist@, floor, hist@.len()),
{
    let mut max_bin: usize = 0;
    let mut max_val: T = floor;
    let mut i: usize = 0;
    while i < hist.len()
        invariant
            i <= hist@.len(),
            max_bin < i || max_bin == 0,
            arithmetic_lawful::<T>() ==> max_val == peak_value(hist@, floor, i as nat),
            arithmetic_lawful::<T>() ==> max_bin == peak_bin(hist@, floor, i as nat),
        decreases hist@.len() - i,
    {
        let v: T = hist[i];
        if v > max_val {
            max_val = v;
            max_bin = i;
        }
        i += 1;
    }
    max_bin
}

/// Adds the weight of `vote` to the count of its bin.
pub fn cast_vote<T: Scalar>(hist: &mut Vec<T>, vote: &Vote<T>)
    requires
        old(hist)@.len() == ORIENTATION_BINS,
        vote.cast_defined(old(hist)@),
    ensures
        final(hist)@.len() == ORIENTATION_BINS,
        T::obeys_add_spec() ==> final(hist)@ == vote.cast(old(hist)@),
{
    let bin: usize = vote.bin % ORIENTATION_BINS;
    let sum: T = hist[bin] + vote.weight;
    hist.set(bin, sum);
}

/// What the voting function is asked at window position `k` round the point
/// `(x, y)`: the scale, the gradient of the image there, and the offset from
/// the point. Nothing is asked where the position is not an interior pixel.
pub open spec fn vote_input<T: Scalar>(
    image: GridView<T>,
    x: int,
    y: int,
    sigma: T,
    radius: int,
    k: int,
) -> Option<(T, T, T, i32, i32)> {
    let dx = window_dx(radius, k);
    let dy = window_dy(radius, k);
    if image.is_interior(x + dx, y + dy) {
        Some(
            (
                sigma,
                image.gradient_x(x + dx, y + dy),
                image.gradient_y(x + dx, y + dy),
                dx as i32,
                dy as i32,
            ),
        )
    } else {
        None
    }
}

/// `votes` holds, for each of the first `n` window positions in turn, what
/// `vote` answered there, and nothing where it was not asked.
pub open spec fn voted<T: Scalar, V: Fn(T, T, T, i32, i32) -> Vote<T>>(
    vote: &V,
    image: GridView<T>,
    x: int,
    y: int,
    sigma: T,
    radius: int,
    votes: Seq<Option<Vote<T>>>,
    n: int,
) -> bool {
    &&& votes.len() == n
    &&& forall|k: int|
        0 <= k < n ==> match #[trigger] vote_input(image, x, y, sigma, radius, k) {
            Some(input) => votes[k] matches Some(v) && call_ensures(vote, input, v),
            None => votes[k] is None,
        }
}

/// The orientation histogram that starts with `zero` in every bin and
/// receives the first `n` of `votes` in turn.
pub open spec fn orientation_histogram<T: Scalar>(
    votes: Seq<Option<Vote<T>>>,
    zero: T,
    n: nat,
) -> Seq<T>
    decreases n,
{
    if n == 0 {
        Seq::new(ORIENTATION_BINS as nat, |i: int| zero)
    } else {
        let before = orientation_histogram(votes, zero, (n - 1) as nat);
        match votes[n - 1] {
            Some(v) => v.cast(before),
            None => before,
        }
    }
}

/// An orientation histogram depends only on the votes that it has received.
pub proof fn lemma_orientation_histogram_prefix<T: Scalar>(
    a: Seq<Option<Vote<T>>>,
    b: Seq<Option<Vote<T>>>,
    zero: T,
    n: nat,
)
    requires
        n <= a.len(),
        n <= b.len(),
        forall|j: int| 0 <= j < n ==> a[j] == b[j],
    ensures
        orientation_histogram(a, zero, n) == orientation_histogram(b, zero, n),
    decreases n,
{
    if n > 0 {
        lemma_orientation_histogram_prefix(a, b, zero, (n - 1) as nat);
    }
}

/// The dominant orientation bin at the point `(x, y)` of `image`. The window
/// of half-width `radius` is walked row by row; at each interior pixel the
/// gradient is taken and handed to `vote` with `sigma` and the offset from the
/// point, and the vote that it answers with is cast. The result is the bin
/// with the greatest count, the first of them where several are equal;
/// `floor` is a value below every count.
pub fn assign_orientation<T: Scalar, V: Fn(T, T, T, i32, i32) -> Vote<T>>(
    image: &Grid<T>,
    x: u32,
    y: u32,
    sigma: T,
    radius: i32,
    vote: &V,
    zero: T,
    floor: T,
) -> (bin: usize)
    requires
        image.wf(),
        arithmetic_total::<T>(),
        forall|s: T, gx: T, gy: T, dx: i32, dy: i32| call_requires(vote, (s, gx, gy, dx, dy)),
    ensures
        bin < ORIENTATION_BINS,
        arithmetic_lawful::<T>() ==> exists|votes: Seq<Option<Vote<T>>>|
            {
                &&& #[trigger] voted(
                    vote,
                    image@,
                    x as int,
                    y as int,
                    sigma,
                    radius as int,
                    votes,
                    window_len(radius as int),
                )
                &&& bin == peak_bin(
                    orientation_histogram(votes, zero, votes.len()),
                    floor,
                    ORIENTATION_BINS as nat,
                )
            },
{
    let mut hist: Vec<T> = Vec::with_capacity(ORIENTATION_BINS);
    let mut i: usize = 0;
    while i < ORIENTATION_BINS
        invariant
            i <= ORIENTATION_BINS,
            hist@.len() == i,
            forall|j: int| 0 <= j < i ==> hist@[j] == zero,
        decreases ORIENTATION_BINS - i,
    {
        hist.push(zero);
        i += 1;
    }
    let ghost mut votes: Seq<Option<Vote<T>>> = Seq::empty();
    assert(hist@ =~= orientation_histogram(votes, zero, 0));
    let reach: i64 = radius as i64;
    let ghost side = window_side(radius as int);
    let mut dy: i64 = -reach;
    assert((dy + reach) * side == 0) by (nonlinear_arith)
        requires
            dy + reach == 0,
    ;
    while dy <= reach
        invariant
            image.wf(),
            arithmetic_total::<T>(),
            forall|s: T, gx: T, gy: T, dx: i32, dy: i32| call_requires(vote, (s, gx, gy, dx, dy)),
            reach == radius,
            side == window_side(radius as int),
            -reach <= dy <= reach + 1 || (reach < 0 && dy == -reach),
            hist@.len() == ORIENTATION_BINS,
            reach >= 0 ==> votes.len() == (dy + reach) * side,
            reach >= 0 && arithmetic_lawful::<T>() ==> voted(
                vote,
                image@,
                x as int,
                y as int,
                sigma,
                radius as int,
                votes,
                (dy + reach) * side,
            ),
            reach < 0 ==> votes.len() == 0,
            arithmetic_lawful::<T>() ==> hist@ == orientation_histogram(votes, zero, votes.len()),
        decreases reach + 1 - dy,
    {
        let mut dx: i64 = -reach;
        while dx <= reach
            invariant
                image.wf(),
                arithmetic_total::<T>(),
                forall|s: T, gx: T, gy: T, dx: i32, dy: i32|
                    call_requires(vote, (s, gx, gy, dx, dy)),
                reach == radius,
                reach >= 0,
                side == window_side(radius as int),
                -reach <= dy <= reach,
                -reach <= dx <= reach + 1,
                hist@.len() == ORIENTATION_BINS,
                votes.len() == (dy + reach) * side + (dx + reach),
                arithmetic_lawful::<T>() ==> voted(
                    vote,
                    image@,
                    x as int,
                    y as int,
                    sigma,
                    radius as int,
                    votes,
                    (dy + reach) * side + (dx + reach),
                ),
                arithmetic_lawful::<T>() ==> hist@ == orientation_histogram(
                    votes,
                    zero,
                    votes.len(),
                ),
            decreases reach + 1 - dx,
        {
            let ghost k: int = (dy + reach) * side + (dx + reach);
            let ghost before = votes;
            proof {
                lemma_fundamental_div_mod_converse(k, side, dy + reach, dx + reach);
                assert(window_dx(radius as int, k) == dx);
                assert(window_dy(radius as int, k) == dy);
            }
            match interior_position(image, x, y, dx, dy) {
                Some((px, py)) => {
                    let (gx, gy): (T, T) = central_gradient(image, px, py);
                    let answer: Vote<T> = vote(sigma, gx, gy, dx as i32, dy as i32);
                    cast_vote(&mut hist, &answer);
                    proof {
                        votes = votes.push(Some(answer));
                    }
                },
                None => {
                    proof {
                        votes = votes.push(None);
                    }
                },
            }
            proof {
                assert(forall|j: int| 0 <= j < k ==> votes[j] == before[j]);
                if arithmetic_lawful::<T>() {
                    lemma_orientation_histogram_prefix(votes, before, zero, k as nat);
                }
            }
            dx += 1;
        }
        proof {
            assert((dy + 1 + reach) * side == (dy + reach) * side + side) by (nonlinear_arith);
        }
        dy += 1;
    }
    proof {
        if reach >= 0 {
            assert((reach + 1 + reach) * side == window_len(radius as int));
        } else {
            assert(window_len(radius as int) == 0);
        }
        assert(votes.len() == window_len(radius as int));
    }
    dominant_bin(&hist, floor)
}

} // verus!

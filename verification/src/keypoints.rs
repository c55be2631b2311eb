//! Detection of keypoints: extrema of the difference-of-Gaussians stack in
//! space and scale that stand out against their surroundings and do not lie
//! on an edge, each with its scale and its dominant orientation.
use crate::gradient::window_len;
use crate::grid::{clamp_index, Grid, GridView};
use crate::numeric::{
    arithmetic_lawful, arithmetic_total, at_least, at_most, less, neg_total, Scalar,
};
use crate::orientation::{
    assign_orientation, orientation_histogram, peak_bin, voted, Vote, ORIENTATION_BINS,
};
use std::ops::Neg;
use vstd::prelude::*;
use vstd::std_specs::ops::{AddSpec, DivSpec, MulSpec, NegSpec, SubSpec};

verus! {

/// A detected keypoint. `x` and `y` are pixel coordinates within the
/// keypoint's octave; `level` is the scale level within that octave.
#[derive(Clone, Debug)]
pub struct Keypoint<T> {
    pub x: u32,
    pub y: u32,
    pub octave: usize,
    pub level: usize,
    pub sigma: T,
    pub angle: T,
}

/// The three kernels of second differences, each 3 by 3.
pub struct HessianKernels<T> {
    pub dxx: Grid<T>,
    pub dyy: Grid<T>,
    pub dxy: Grid<T>,
}

impl<T: Scalar> HessianKernels<T> {
    /// Each kernel is a well-formed 3 by 3 grid.
    pub open spec fn wf(&self) -> bool {
        &&& self.dxx.wf() && self.dxx.width == 3 && self.dxx.height == 3
        &&& self.dyy.wf() && self.dyy.width == 3 && self.dyy.height == 3
        &&& self.dxy.wf() && self.dxy.width == 3 && self.dxy.height == 3
    }

    /// The finite-difference kernels of the second derivatives: in x the row
    /// `1, -2, 1`, in y the same as a column, and for the mixed derivative a
    /// quarter at two opposite corners and minus a quarter at the other two.
    pub fn from_weights(zero: T, one: T, minus_two: T, quarter: T, minus_quarter: T) -> (k: Self)
        ensures
            k.wf(),
            k.dxx.data@ == seq![zero, zero, zero, one, minus_two, one, zero, zero, zero],
            k.dyy.data@ == seq![zero, one, zero, zero, minus_two, zero, zero, one, zero],
            k.dxy.data@ == seq![
                quarter,
                zero,
                minus_quarter,
                zero,
                zero,
                zero,
                minus_quarter,
                zero,
                quarter,
            ],
    {
        let dxx: [T; 9] = [zero, zero, zero, one, minus_two, one, zero, zero, zero];
        let dyy: [T; 9] = [zero, one, zero, zero, minus_two, zero, zero, one, zero];
        let dxy: [T; 9] = [
            quarter,
            zero,
            minus_quarter,
            zero,
            zero,
            zero,
            minus_quarter,
            zero,
            quarter,
        ];
        HessianKernels {
            dxx: Grid::new(dxx.as_slice(), 3, 3),
            dyy: Grid::new(dyy.as_slice(), 3, 3),
            dxy: Grid::new(dxy.as_slice(), 3, 3),
        }
    }
}

/// The second differences of `dog` in x, in y, and mixed.
pub fn hessian_terms<T: Scalar>(dog: &Grid<T>, kernels: &HessianKernels<T>, zero: T) -> (terms: (
    Grid<T>,
    Grid<T>,
    Grid<T>,
))
    requires
        dog.wf(),
        kernels.wf(),
        arithmetic_total::<T>() || (arithmetic_lawful::<T>() && dog@.convolve_defined(
            kernels.dxx@,
            zero,
        ) && dog@.convolve_defined(kernels.dyy@, zero) && dog@.convolve_defined(
            kernels.dxy@,
            zero,
        )),
    ensures
        terms.0.wf() && terms.0.width == dog.width && terms.0.height == dog.height,
        terms.1.wf() && terms.1.width == dog.width && terms.1.height == dog.height,
        terms.2.wf() && terms.2.width == dog.width && terms.2.height == dog.height,
        arithmetic_lawful::<T>() ==> {
            &&& terms.0@ == dog@.convolve(kernels.dxx@, zero)
            &&& terms.1@ == dog@.convolve(kernels.dyy@, zero)
            &&& terms.2@ == dog@.convolve(kernels.dxy@, zero)
        },
{
    let dxx = dog.convolve(&kernels.dxx, zero);
    let dyy = dog.convolve(&kernels.dyy, zero);
    let dxy = dog.convolve(&kernels.dxy, zero);
    (dxx, dyy, dxy)
}

/// The determinant `xx * yy - xy * xy` of the Hessian with these entries.
pub open spec fn hessian_det<T: Scalar>(xx: T, yy: T, xy: T) -> T {
    xx.mul_spec(yy).sub_spec(xy.mul_spec(xy))
}

/// The squared trace of the Hessian over its determinant.
pub open spec fn edge_ratio<T: Scalar>(xx: T, yy: T, xy: T) -> T {
    xx.add_spec(yy).mul_spec(xx.add_spec(yy)).div_spec(hessian_det(xx, yy, xy))
}

/// The bound `(r + 1)^2 / r` on the edge ratio.
pub open spec fn edge_limit<T: Scalar>(r: T, one: T) -> T {
    r.add_spec(one).mul_spec(r.add_spec(one)).div_spec(r)
}

/// The point is no edge: the determinant of its Hessian is greater than
/// `zero`, and the ratio of the squared trace to it is below the bound for `r`.
pub open spec fn passes_edge<T: Scalar>(xx: T, yy: T, xy: T, r: T, zero: T, one: T) -> bool {
    &&& !at_most(hessian_det(xx, yy, xy), zero)
    &&& less(edge_ratio(xx, yy, xy), edge_limit(r, one))
}

/// Each operation of the edge test on these values is admissible.
pub open spec fn edge_defined<T: Scalar>(xx: T, yy: T, xy: T, r: T, zero: T, one: T) -> bool {
    let tr = xx.add_spec(yy);
    let det = hessian_det(xx, yy, xy);
    let above = r.add_spec(one);
    &&& xx.add_req(yy)
    &&& xx.mul_req(yy)
    &&& xy.mul_req(xy)
    &&& xx.mul_spec(yy).sub_req(xy.mul_spec(xy))
    &&& !at_most(det, zero) ==> {
        &&& tr.mul_req(tr)
        &&& tr.mul_spec(tr).div_req(det)
        &&& r.add_req(one)
        &&& above.mul_req(above)
        &&& above.mul_spec(above).div_req(r)
    }
}

/// Tells whether the point `(x, y)` is no edge, by the ratio of the principal
/// curvatures that the second differences `dxx`, `dyy` and `dxy` give there.
pub fn pass_edge_response<T: Scalar>(
    dxx: &Grid<T>,
    dyy: &Grid<T>,
    dxy: &Grid<T>,
    x: u32,
    y: u32,
    r: T,
    zero: T,
    one: T,
) -> (pass: bool)
    requires
        dxx.wf() && x < dxx.width && y < dxx.height,
        dyy.wf() && x < dyy.width && y < dyy.height,
        dxy.wf() && x < dxy.width && y < dxy.height,
        arithmetic_total::<T>() || (arithmetic_lawful::<T>() && edge_defined(
            dxx@.at(x as int, y as int),
            dyy@.at(x as int, y as int),
            dxy@.at(x as int, y as int),
            r,
            zero,
            one,
        )),
    ensures
        arithmetic_lawful::<T>() ==> pass == passes_edge(
            dxx@.at(x as int, y as int),
            dyy@.at(x as int, y as int),
            dxy@.at(x as int, y as int),
            r,
            zero,
            one,
        ),
{
    let gradient_xx: T = dxx.get_pixel(x, y);
    let gradient_yy: T = dyy.get_pixel(x, y);
    let gradient_xy: T = dxy.get_pixel(x, y);
    let tr: T = gradient_xx + gradient_yy;
    let det: T = gradient_xx * gradient_yy - gradient_xy * gradient_xy;
    if det <= zero {
        return false;
    }
    let edge_ratio: T = (tr * tr) / det;
    let r_cond: T = ((r + one) * (r + one)) / r;
    edge_ratio < r_cond
}

/// The views of the levels of one octave.
pub open spec fn levels_view<T>(levels: Seq<Grid<T>>) -> Seq<GridView<T>> {
    Seq::new(levels.len(), |i: int| levels[i]@)
}

/// `c` itself, or its negation where `c` is below `zero`.
pub open spec fn magnitude_of<T: Scalar>(c: T, zero: T) -> T {
    if less(c, zero) {
        c.neg_spec()
    } else {
        c
    }
}

/// Neighbour `m` of the point `(x, y)` on level `s`: the 27 points of the
/// cube round it are counted level by level and row by row, so that the point
/// itself is number 13. Outside a level the nearest edge pixel is read.
pub open spec fn neighbour<T>(levels: Seq<GridView<T>>, s: int, x: int, y: int, m: int) -> T {
    levels[s - 1 + m / 9].at_clamped(x + m % 3 - 1, y + (m / 3) % 3 - 1)
}

/// The point is strictly greater than each of its first `n` neighbours.
pub open spec fn exceeds_neighbours<T: Scalar>(
    levels: Seq<GridView<T>>,
    s: int,
    x: int,
    y: int,
    n: int,
) -> bool {
    forall|m: int|
        0 <= m < n && m != 13 ==> !at_most(
            levels[s].at(x, y),
            #[trigger] neighbour(levels, s, x, y, m),
        )
}

/// The point is strictly less than each of its first `n` neighbours.
pub open spec fn below_neighbours<T: Scalar>(
    levels: Seq<GridView<T>>,
    s: int,
    x: int,
    y: int,
    n: int,
) -> bool {
    forall|m: int|
        0 <= m < n && m != 13 ==> !at_least(
            levels[s].at(x, y),
            #[trigger] neighbour(levels, s, x, y, m),
        )
}

/// The point `(x, y)` of level `s` is an extremum in space and scale: its
/// magnitude is not below `contrast_thresh`, and it is strictly greater than
/// all 26 neighbours or strictly less than all of them.
pub open spec fn is_extremum<T: Scalar>(
    levels: Seq<GridView<T>>,
    s: int,
    x: int,
    y: int,
    contrast_thresh: T,
    zero: T,
) -> bool {
    &&& !less(magnitude_of(levels[s].at(x, y), zero), contrast_thresh)
    &&& exceeds_neighbours(levels, s, x, y, 27) || below_neighbours(levels, s, x, y, 27)
}

/// Tells whether the point `(x, y)` of level `s` of the stack `dogs_octave`
/// is an extremum in space and scale with sufficient contrast.
pub fn is_local_extremum<T: Scalar>(
    dogs_octave: &Vec<Grid<T>>,
    s: usize,
    x: u32,
    y: u32,
    contrast_thresh: T,
    zero: T,
) -> (extremum: bool)
    requires
        1 <= s,
        s + 1 < dogs_octave@.len(),
        forall|l: int|
            s - 1 <= l <= s + 1 ==> (#[trigger] dogs_octave@[l]).wf() && dogs_octave@[l].width > 0
                && dogs_octave@[l].height > 0,
        x < dogs_octave@[s as int].width,
        y < dogs_octave@[s as int].height,
        neg_total::<T>() || (arithmetic_lawful::<T>() && (less(
            dogs_octave@[s as int]@.at(x as int, y as int),
            zero,
        ) ==> dogs_octave@[s as int]@.at(x as int, y as int).neg_req())),
    ensures
        arithmetic_lawful::<T>() ==> extremum == is_extremum(
            levels_view(dogs_octave@),
            s as int,
            x as int,
            y as int,
            contrast_thresh,
            zero,
        ),
{
    let ghost levels = levels_view(dogs_octave@);
    let center: T = dogs_octave[s].get_pixel(x, y);
    assert(center == levels[s as int].at(x as int, y as int));
    let magnitude: T = if center < zero {
        center.neg()
    } else {
        center
    };
    if magnitude < contrast_thresh {
        return false;
    }
    let mut greater: bool = true;
    let mut less: bool = true;
    let mut m: usize = 0;
    assert(dogs_octave@.len() == dogs_octave.len());
    while m < 27
        invariant
            1 <= s,
            s + 1 < dogs_octave@.len(),
            forall|l: int|
                s - 1 <= l <= s + 1 ==> (#[trigger] dogs_octave@[l]).wf() && dogs_octave@[l].width
                    > 0 && dogs_octave@[l].height > 0,
            dogs_octave@.len() <= usize::MAX,
            levels == levels_view(dogs_octave@),
            center == levels[s as int].at(x as int, y as int),
            m <= 27,
            greater || less,
            arithmetic_lawful::<T>() ==> greater == exceeds_neighbours(
                levels,
                s as int,
                x as int,
                y as int,
                m as int,
            ),
            arithmetic_lawful::<T>() ==> less == below_neighbours(
                levels,
                s as int,
                x as int,
                y as int,
                m as int,
            ),
        decreases 27 - m,
    {
        if m != 13 {
            let level: &Grid<T> = &dogs_octave[s - 1 + m / 9];
            let nx: u32 = clamp_index(x as i64 + (m % 3) as i64 - 1, level.width);
            let ny: u32 = clamp_index(y as i64 + ((m / 3) % 3) as i64 - 1, level.height);
            let v: T = level.get_pixel(nx, ny);
            assert(v == neighbour(levels, s as int, x as int, y as int, m as int));
            if center <= v {
                greater = false;
            }
            if center >= v {
                less = false;
            }
            if !(greater || less) {
                return false;
            }
        }
        m += 1;
    }
    true
}

/// What the detector needs to know of one scale level: its absolute scale,
/// and the half-widths of the windows in which the orientation and the
/// descriptor of a keypoint of that level are sampled.
pub struct ScaleLevel<T> {
    pub sigma: T,
    pub orientation_radius: i32,
    pub descriptor_radius: i32,
}

/// The views of the levels of each octave of a pyramid.
pub open spec fn pyramid_view<T>(pyramid: Seq<Vec<Grid<T>>>) -> Seq<Seq<GridView<T>>> {
    Seq::new(pyramid.len(), |o: int| levels_view(pyramid[o]@))
}

/// A place in scale space: a pixel of a level of an octave.
pub struct Site {
    pub octave: int,
    pub level: int,
    pub x: int,
    pub y: int,
}

impl Site {
    /// `self` is scanned before `other`: octaves in ascending order, within an
    /// octave the levels in ascending order, and each level row by row.
    pub open spec fn precedes(self, other: Site) -> bool {
        ||| self.octave < other.octave
        ||| self.octave == other.octave && self.level < other.level
        ||| self.octave == other.octave && self.level == other.level && self.y < other.y
        ||| self.octave == other.octave && self.level == other.level && self.y == other.y && self.x
            < other.x
    }
}

impl<T> Keypoint<T> {
    /// Where the keypoint lies.
    pub open spec fn site(self) -> Site {
        Site {
            octave: self.octave as int,
            level: self.level as int,
            x: self.x as int,
            y: self.y as int,
        }
    }
}

/// All that detection reads: the two pyramids, the number of scales, the
/// tables by level and by orientation bin, the thresholds, the kernels of
/// second differences, and the constants.
pub struct Scene<T> {
    pub dogs: Seq<Seq<GridView<T>>>,
    pub gaussians: Seq<Seq<GridView<T>>>,
    pub scales: int,
    pub levels: Seq<ScaleLevel<T>>,
    pub bin_angles: Seq<T>,
    pub contrast_thresh: T,
    pub edge_r: T,
    pub dxx: GridView<T>,
    pub dyy: GridView<T>,
    pub dxy: GridView<T>,
    pub zero: T,
    pub one: T,
    pub floor: T,
}

impl<T: Scalar> Scene<T> {
    /// The site lies within the scanned part of the pyramid: on one of the
    /// levels `1..=scales` of an octave, and not on the border of its level.
    pub open spec fn scans(self, s: Site) -> bool {
        &&& 0 <= s.octave < self.dogs.len()
        &&& 1 <= s.level <= self.scales
        &&& self.dogs[s.octave][s.level].is_interior(s.x, s.y)
    }

    /// The site is a keypoint: it is scanned, it is an extremum in space and
    /// scale with sufficient contrast, and it is no edge.
    pub open spec fn holds_keypoint(self, s: Site) -> bool {
        let dog = self.dogs[s.octave][s.level];
        &&& self.scans(s)
        &&& is_extremum(self.dogs[s.octave], s.level, s.x, s.y, self.contrast_thresh, self.zero)
        &&& passes_edge(
            dog.convolve(self.dxx, self.zero).at(s.x, s.y),
            dog.convolve(self.dyy, self.zero).at(s.x, s.y),
            dog.convolve(self.dxy, self.zero).at(s.x, s.y),
            self.edge_r,
            self.zero,
            self.one,
        )
    }

    /// The keypoint carries the scale of its level, and as its angle the
    /// angle of the dominant orientation bin of the votes that `vote` cast
    /// round it in the Gaussian image of its level.
    pub open spec fn describes<V: Fn(T, T, T, i32, i32) -> Vote<T>>(
        self,
        vote: &V,
        kp: Keypoint<T>,
    ) -> bool {
        let level = self.levels[kp.level as int];
        &&& kp.sigma == level.sigma
        &&& exists|votes: Seq<Option<Vote<T>>>|
            {
                &&& #[trigger] voted(
                    vote,
                    self.gaussians[kp.octave as int][kp.level as int],
                    kp.x as int,
                    kp.y as int,
                    level.sigma,
                    level.orientation_radius as int,
                    votes,
                    window_len(level.orientation_radius as int),
                )
                &&& kp.angle == self.bin_angles[peak_bin(
                    orientation_histogram(votes, self.zero, votes.len()),
                    self.floor,
                    ORIENTATION_BINS as nat,
                )]
            }
    }

    /// `keypoints` is the result of the scan up to `cursor`: each of them is
    /// a keypoint before `cursor` with its scale and angle, they stand in scan
    /// order, and no keypoint before `cursor` is missing.
    pub open spec fn detected<V: Fn(T, T, T, i32, i32) -> Vote<T>>(
        self,
        vote: &V,
        keypoints: Seq<Keypoint<T>>,
        cursor: Site,
    ) -> bool {
        &&& forall|i: int|
            0 <= i < keypoints.len() ==> {
                &&& self.holds_keypoint((#[trigger] keypoints[i]).site())
                &&& keypoints[i].site().precedes(cursor)
                &&& self.describes(vote, keypoints[i])
            }
        &&& forall|i: int, j: int|
            0 <= i < j < keypoints.len() ==> (#[trigger] keypoints[i]).site().precedes(
                (#[trigger] keypoints[j]).site(),
            )
        &&& forall|s: Site| #[trigger]
            self.holds_keypoint(s) && s.precedes(cursor) ==> exists|i: int|
                0 <= i < keypoints.len() && (#[trigger] keypoints[i]).site() == s
    }

    /// The keypoints lie within the scanned part of the pyramid before
    /// `cursor`, and they stand in scan order, so that none occurs twice.
    pub open spec fn scanned(self, keypoints: Seq<Keypoint<T>>, cursor: Site) -> bool {
        &&& forall|i: int|
            0 <= i < keypoints.len() ==> self.scans((#[trigger] keypoints[i]).site())
                && keypoints[i].site().precedes(cursor)
        &&& forall|i: int, j: int|
            0 <= i < j < keypoints.len() ==> (#[trigger] keypoints[i]).site().precedes(
                (#[trigger] keypoints[j]).site(),
            )
    }

    /// Keypoints scanned before `from` are scanned before any later `to`.
    pub proof fn lemma_scanned_advance(self, keypoints: Seq<Keypoint<T>>, from: Site, to: Site)
        requires
            self.scanned(keypoints, from),
            from.precedes(to),
        ensures
            self.scanned(keypoints, to),
    {
    }

    /// A keypoint at `from` may follow keypoints scanned before `from`.
    pub proof fn lemma_scanned_push(
        self,
        keypoints: Seq<Keypoint<T>>,
        kp: Keypoint<T>,
        from: Site,
        to: Site,
    )
        requires
            self.scanned(keypoints, from),
            kp.site() == from,
            self.scans(from),
            from.precedes(to),
        ensures
            self.scanned(keypoints.push(kp), to),
    {
        let after = keypoints.push(kp);
        assert forall|i: int| 0 <= i < after.len() implies self.scans(
            (#[trigger] after[i]).site(),
        ) && after[i].site().precedes(to) by {
            if i < keypoints.len() {
                assert(after[i] == keypoints[i]);
            }
        }
        assert forall|i: int, j: int| 0 <= i < j < after.len() implies (#[trigger] after[i]).site().precedes(
            (#[trigger] after[j]).site(),
        ) by {
            assert(after[i] == keypoints[i]);
            if j < keypoints.len() {
                assert(after[j] == keypoints[j]);
            }
        }
    }

    /// The scan may move on from `from` to `to` when no keypoint lies between them.
    pub proof fn lemma_advance<V: Fn(T, T, T, i32, i32) -> Vote<T>>(
        self,
        vote: &V,
        keypoints: Seq<Keypoint<T>>,
        from: Site,
        to: Site,
    )
        requires
            self.detected(vote, keypoints, from),
            from.precedes(to),
            forall|s: Site| #[trigger] self.scans(s) && s.precedes(to) ==> s.precedes(from),
        ensures
            self.detected(vote, keypoints, to),
    {
        assert forall|s: Site| #[trigger] self.holds_keypoint(s) && s.precedes(to) implies exists|
            i: int,
        |
            0 <= i < keypoints.len() && (#[trigger] keypoints[i]).site() == s by {
            assert(self.scans(s));
        }
    }

    /// The scan may move on from `from`, which is no keypoint, to `to` when
    /// no keypoint lies between them.
    pub proof fn lemma_passed<V: Fn(T, T, T, i32, i32) -> Vote<T>>(
        self,
        vote: &V,
        keypoints: Seq<Keypoint<T>>,
        from: Site,
        to: Site,
    )
        requires
            self.detected(vote, keypoints, from),
            !self.holds_keypoint(from),
            from.precedes(to),
            forall|s: Site| #[trigger]
                self.scans(s) && s.precedes(to) ==> s.precedes(from) || s == from,
        ensures
            self.detected(vote, keypoints, to),
    {
        assert forall|s: Site| #[trigger] self.holds_keypoint(s) && s.precedes(to) implies exists|
            i: int,
        |
            0 <= i < keypoints.len() && (#[trigger] keypoints[i]).site() == s by {
            assert(self.scans(s));
        }
    }

    /// The scan may move on from `from` to `to` with the keypoint at `from`
    /// added, when no other keypoint lies between them.
    pub proof fn lemma_found<V: Fn(T, T, T, i32, i32) -> Vote<T>>(
        self,
        vote: &V,
        keypoints: Seq<Keypoint<T>>,
        kp: Keypoint<T>,
        from: Site,
        to: Site,
    )
        requires
            self.detected(vote, keypoints, from),
            kp.site() == from,
            self.holds_keypoint(from),
            self.describes(vote, kp),
            from.precedes(to),
            forall|s: Site| #[trigger]
                self.scans(s) && s.precedes(to) ==> s.precedes(from) || s == from,
        ensures
            self.detected(vote, keypoints.push(kp), to),
    {
        let after = keypoints.push(kp);
        assert forall|i: int| 0 <= i < after.len() implies {
            &&& self.holds_keypoint((#[trigger] after[i]).site())
            &&& after[i].site().precedes(to)
            &&& self.describes(vote, after[i])
        } by {
            if i < keypoints.len() {
                assert(after[i] == keypoints[i]);
            }
        }
        assert forall|i: int, j: int| 0 <= i < j < after.len() implies (#[trigger] after[i]).site().precedes(
            (#[trigger] after[j]).site(),
        ) by {
            assert(after[i] == keypoints[i]);
            if j < keypoints.len() {
                assert(after[j] == keypoints[j]);
            }
        }
        assert forall|s: Site| #[trigger] self.holds_keypoint(s) && s.precedes(to) implies exists|
            i: int,
        |
            0 <= i < after.len() && (#[trigger] after[i]).site() == s by {
            assert(self.scans(s));
            if s == from {
                assert(after[keypoints.len() as int].site() == s);
            } else {
                let i = choose|i: int|
                    0 <= i < keypoints.len() && (#[trigger] keypoints[i]).site() == s;
                assert(after[i] == keypoints[i]);
            }
        }
    }
}

/// What detection reads, as taken from its arguments.
pub open spec fn scene_of<T: Scalar>(
    dogs: Seq<Vec<Grid<T>>>,
    gaussians: Seq<Vec<Grid<T>>>,
    scales: usize,
    levels: Seq<ScaleLevel<T>>,
    bin_angles: Seq<T>,
    contrast_thresh: T,
    edge_r: T,
    kernels: HessianKernels<T>,
    zero: T,
    one: T,
    floor: T,
) -> Scene<T> {
    Scene {
        dogs: pyramid_view(dogs),
        gaussians: pyramid_view(gaussians),
        scales: scales as int,
        levels,
        bin_angles,
        contrast_thresh,
        edge_r,
        dxx: kernels.dxx@,
        dyy: kernels.dyy@,
        dxy: kernels.dxy@,
        zero,
        one,
        floor,
    }
}

/// The pyramids and tables fit together: each octave has the levels
/// `0..=scales + 1` of differences, all of one size, and the levels
/// `1..=scales` of Gaussian images; there is a table entry for each of these
/// levels and an angle for each orientation bin.
pub open spec fn scene_fits<T: Scalar>(
    dogs: Seq<Vec<Grid<T>>>,
    gaussians: Seq<Vec<Grid<T>>>,
    scales: usize,
    levels: Seq<ScaleLevel<T>>,
    bin_angles: Seq<T>,
    kernels: HessianKernels<T>,
) -> bool {
    &&& dogs.len() <= gaussians.len()
    &&& forall|o: int|
        0 <= o < dogs.len() ==> {
            &&& (#[trigger] dogs[o])@.len() >= scales + 2
            &&& gaussians[o]@.len() > scales
        }
    &&& forall|o: int, l: int|
        0 <= o < dogs.len() && 0 <= l <= scales + 1 ==> {
            &&& (#[trigger] dogs[o]@[l]).wf()
            &&& dogs[o]@[l].width == dogs[o]@[0].width
            &&& dogs[o]@[l].height == dogs[o]@[0].height
        }
    &&& forall|o: int, l: int|
        0 <= o < dogs.len() && 1 <= l <= scales ==> (#[trigger] gaussians[o]@[l]).wf()
    &&& levels.len() > scales
    &&& bin_angles.len() == ORIENTATION_BINS
    &&& kernels.wf()
}

/// Scans level `level` of octave `octave` and appends its keypoints.
fn detect_in_level<T: Scalar, V: Fn(T, T, T, i32, i32) -> Vote<T>>(
    dogs: &[Vec<Grid<T>>],
    gaussians: &[Vec<Grid<T>>],
    scales: usize,
    levels: &[ScaleLevel<T>],
    bin_angles: &[T],
    contrast_thresh: T,
    edge_r: T,
    kernels: &HessianKernels<T>,
    vote: &V,
    zero: T,
    one: T,
    floor: T,
    octave: usize,
    level: usize,
    keypoints: &mut Vec<Keypoint<T>>,
)
    requires
        scene_fits(dogs@, gaussians@, scales, levels@, bin_angles@, *kernels),
        arithmetic_total::<T>(),
        forall|s: T, gx: T, gy: T, dx: i32, dy: i32| call_requires(vote, (s, gx, gy, dx, dy)),
        octave < dogs@.len(),
        1 <= level <= scales,
        scene_of(
            dogs@,
            gaussians@,
            scales,
            levels@,
            bin_angles@,
            contrast_thresh,
            edge_r,
            *kernels,
            zero,
            one,
            floor,
        ).scanned(
            old(keypoints)@,
            Site { octave: octave as int, level: level as int, x: 0, y: 0 },
        ),
        arithmetic_lawful::<T>() ==> scene_of(
            dogs@,
            gaussians@,
            scales,
            levels@,
            bin_angles@,
            contrast_thresh,
            edge_r,
            *kernels,
            zero,
            one,
            floor,
        ).detected(
            vote,
            old(keypoints)@,
            Site { octave: octave as int, level: level as int, x: 0, y: 0 },
        ),
    ensures
        scene_of(
            dogs@,
            gaussians@,
            scales,
            levels@,
            bin_angles@,
            contrast_thresh,
            edge_r,
            *kernels,
            zero,
            one,
            floor,
        ).scanned(
            final(keypoints)@,
            Site { octave: octave as int, level: level + 1, x: 0, y: 0 },
        ),
        arithmetic_lawful::<T>() ==> scene_of(
            dogs@,
            gaussians@,
            scales,
            levels@,
            bin_angles@,
            contrast_thresh,
            edge_r,
            *kernels,
            zero,
            one,
            floor,
        ).detected(
            vote,
            final(keypoints)@,
            Site { octave: octave as int, level: level + 1, x: 0, y: 0 },
        ),
{
    let ghost scene = scene_of(
        dogs@,
        gaussians@,
        scales,
        levels@,
        bin_angles@,
        contrast_thresh,
        edge_r,
        *kernels,
        zero,
        one,
        floor,
    );
    let ghost o = octave as int;
    let ghost l = level as int;
    let dogs_octave: &Vec<Grid<T>> = &dogs[octave];
    let difference_of_gaussian: &Grid<T> = &dogs_octave[level];
    let gaussian: &Grid<T> = &gaussians[octave][level];
    let image_width: u32 = difference_of_gaussian.width;
    let image_height: u32 = difference_of_gaussian.height;
    assert(scene.dogs[o][l] == difference_of_gaussian@);
    assert(scene.dogs[o] == levels_view(dogs_octave@));
    assert(scene.gaussians[o][l] == gaussian@);
    if image_width < 3 || image_height < 3 {
        proof {
            scene.lemma_scanned_advance(
                keypoints@,
                Site { octave: o, level: l, x: 0, y: 0 },
                Site { octave: o, level: l + 1, x: 0, y: 0 },
            );
            if arithmetic_lawful::<T>() {
                scene.lemma_advance(
                    vote,
                    keypoints@,
                    Site { octave: o, level: l, x: 0, y: 0 },
                    Site { octave: o, level: l + 1, x: 0, y: 0 },
                );
            }
        }
        return ;
    }
    let (hessian_xx, hessian_yy, hessian_xy) = hessian_terms(difference_of_gaussian, kernels, zero);
    let level_scale: &ScaleLevel<T> = &levels[level];
    proof {
        scene.lemma_scanned_advance(
            keypoints@,
            Site { octave: o, level: l, x: 0, y: 0 },
            Site { octave: o, level: l, x: 0, y: 1 },
        );
        if arithmetic_lawful::<T>() {
            scene.lemma_advance(
                vote,
                keypoints@,
                Site { octave: o, level: l, x: 0, y: 0 },
                Site { octave: o, level: l, x: 0, y: 1 },
            );
        }
    }
    let mut y_coord: u32 = 1;
    while y_coord < image_height - 1
        invariant
            scene_fits(dogs@, gaussians@, scales, levels@, bin_angles@, *kernels),
            arithmetic_total::<T>(),
            forall|s: T, gx: T, gy: T, dx: i32, dy: i32| call_requires(vote, (s, gx, gy, dx, dy)),
            octave < dogs@.len(),
            1 <= level <= scales,
            o == octave,
            l == level,
            scene == scene_of(
                dogs@,
                gaussians@,
                scales,
                levels@,
                bin_angles@,
                contrast_thresh,
                edge_r,
                *kernels,
                zero,
                one,
                floor,
            ),
            *dogs_octave == dogs@[o],
            *difference_of_gaussian == dogs@[o]@[l],
            *gaussian == gaussians@[o]@[l],
            *level_scale == levels@[l],
            scene.dogs[o][l] == difference_of_gaussian@,
            scene.dogs[o] == levels_view(dogs_octave@),
            scene.gaussians[o][l] == gaussian@,
            image_width == difference_of_gaussian.width,
            image_height == difference_of_gaussian.height,
            image_width >= 3,
            image_height >= 3,
            hessian_xx.wf() && hessian_xx.width == image_width && hessian_xx.height
                == image_height,
            hessian_yy.wf() && hessian_yy.width == image_width && hessian_yy.height
                == image_height,
            hessian_xy.wf() && hessian_xy.width == image_width && hessian_xy.height
                == image_height,
            arithmetic_lawful::<T>() ==> {
                &&& hessian_xx@ == difference_of_gaussian@.convolve(kernels.dxx@, zero)
                &&& hessian_yy@ == difference_of_gaussian@.convolve(kernels.dyy@, zero)
                &&& hessian_xy@ == difference_of_gaussian@.convolve(kernels.dxy@, zero)
            },
            1 <= y_coord <= image_height - 1,
            scene.scanned(
                keypoints@,
                Site { octave: o, level: l, x: 0, y: y_coord as int },
            ),
            arithmetic_lawful::<T>() ==> scene.detected(
                vote,
                keypoints@,
                Site { octave: o, level: l, x: 0, y: y_coord as int },
            ),
        decreases image_height - y_coord,
    {
        proof {
            scene.lemma_scanned_advance(
                keypoints@,
                Site { octave: o, level: l, x: 0, y: y_coord as int },
                Site { octave: o, level: l, x: 1, y: y_coord as int },
            );
            if arithmetic_lawful::<T>() {
                scene.lemma_advance(
                    vote,
                    keypoints@,
                    Site { octave: o, level: l, x: 0, y: y_coord as int },
                    Site { octave: o, level: l, x: 1, y: y_coord as int },
                );
            }
        }
        let mut x_coord: u32 = 1;
        while x_coord < image_width - 1
            invariant
                scene_fits(dogs@, gaussians@, scales, levels@, bin_angles@, *kernels),
                arithmetic_total::<T>(),
                forall|s: T, gx: T, gy: T, dx: i32, dy: i32|
                    call_requires(vote, (s, gx, gy, dx, dy)),
                octave < dogs@.len(),
                1 <= level <= scales,
                o == octave,
                l == level,
                scene == scene_of(
                    dogs@,
                    gaussians@,
                    scales,
                    levels@,
                    bin_angles@,
                    contrast_thresh,
                    edge_r,
                    *kernels,
                    zero,
                    one,
                    floor,
                ),
                *dogs_octave == dogs@[o],
                *difference_of_gaussian == dogs@[o]@[l],
                *gaussian == gaussians@[o]@[l],
                *level_scale == levels@[l],
                scene.dogs[o][l] == difference_of_gaussian@,
                scene.dogs[o] == levels_view(dogs_octave@),
                scene.gaussians[o][l] == gaussian@,
                image_width == difference_of_gaussian.width,
                image_height == difference_of_gaussian.height,
                image_width >= 3,
                image_height >= 3,
                hessian_xx.wf() && hessian_xx.width == image_width && hessian_xx.height
                    == image_height,
                hessian_yy.wf() && hessian_yy.width == image_width && hessian_yy.height
                    == image_height,
                hessian_xy.wf() && hessian_xy.width == image_width && hessian_xy.height
                    == image_height,
                arithmetic_lawful::<T>() ==> {
                    &&& hessian_xx@ == difference_of_gaussian@.convolve(kernels.dxx@, zero)
                    &&& hessian_yy@ == difference_of_gaussian@.convolve(kernels.dyy@, zero)
                    &&& hessian_xy@ == difference_of_gaussian@.convolve(kernels.dxy@, zero)
                },
                1 <= y_coord < image_height - 1,
                1 <= x_coord <= image_width - 1,
                scene.scanned(
                    keypoints@,
                    Site { octave: o, level: l, x: x_coord as int, y: y_coord as int },
                ),
                arithmetic_lawful::<T>() ==> scene.detected(
                    vote,
                    keypoints@,
                    Site { octave: o, level: l, x: x_coord as int, y: y_coord as int },
                ),
            decreases image_width - x_coord,
        {
            let ghost here = Site { octave: o, level: l, x: x_coord as int, y: y_coord as int };
            let ghost next = Site {
                octave: o,
                level: l,
                x: x_coord as int + 1,
                y: y_coord as int,
            };
            let ghost before = keypoints@;
            assert(scene.scans(here));
            let is_keypoint: bool = is_local_extremum(
                dogs_octave,
                level,
                x_coord,
                y_coord,
                contrast_thresh,
                zero,
            ) && pass_edge_response(
                &hessian_xx,
                &hessian_yy,
                &hessian_xy,
                x_coord,
                y_coord,
                edge_r,
                zero,
                one,
            );
            assert(arithmetic_lawful::<T>() ==> is_keypoint == scene.holds_keypoint(here));
            if is_keypoint {
                let keypoint_sigma: T = level_scale.sigma;
                let bin: usize = assign_orientation(
                    gaussian,
                    x_coord,
                    y_coord,
                    keypoint_sigma,
                    level_scale.orientation_radius,
                    vote,
                    zero,
                    floor,
                );
                let kp = Keypoint {
                    x: x_coord,
                    y: y_coord,
                    octave,
                    level,
                    sigma: keypoint_sigma,
                    angle: bin_angles[bin],
                };
                keypoints.push(kp);
                proof {
                    assert(kp.site() == here);
                    scene.lemma_scanned_push(before, kp, here, next);
                    if arithmetic_lawful::<T>() {
                        assert(scene.describes(vote, kp));
                        scene.lemma_found(vote, before, kp, here, next);
                    }
                }
            } else {
                proof {
                    scene.lemma_scanned_advance(before, here, next);
                    if arithmetic_lawful::<T>() {
                        scene.lemma_passed(vote, before, here, next);
                    }
                }
            }
            x_coord += 1;
        }
        proof {
            scene.lemma_scanned_advance(
                keypoints@,
                Site { octave: o, level: l, x: x_coord as int, y: y_coord as int },
                Site { octave: o, level: l, x: 0, y: y_coord as int + 1 },
            );
            if arithmetic_lawful::<T>() {
                scene.lemma_advance(
                    vote,
                    keypoints@,
                    Site { octave: o, level: l, x: x_coord as int, y: y_coord as int },
                    Site { octave: o, level: l, x: 0, y: y_coord as int + 1 },
                );
            }
        }
        y_coord += 1;
    }
    proof {
        scene.lemma_scanned_advance(
            keypoints@,
            Site { octave: o, level: l, x: 0, y: y_coord as int },
            Site { octave: o, level: l + 1, x: 0, y: 0 },
        );
        if arithmetic_lawful::<T>() {
            scene.lemma_advance(
                vote,
                keypoints@,
                Site { octave: o, level: l, x: 0, y: y_coord as int },
                Site { octave: o, level: l + 1, x: 0, y: 0 },
            );
        }
    }
}

/// The keypoints of a pyramid. The octaves are scanned in ascending order,
/// in each the levels `1..=scales` in ascending order, and each level row by
/// row without its border. A point becomes a keypoint when it passes
/// [`is_local_extremum`] and [`pass_edge_response`]; it is given the scale of
/// its level from `levels` and the angle from `bin_angles` of the orientation
/// bin that [`assign_orientation`] finds round it in the Gaussian image of
/// its level. Coordinates are those of the keypoint's own octave.
pub fn detect_keypoints<T: Scalar, V: Fn(T, T, T, i32, i32) -> Vote<T>>(
    dogs: &[Vec<Grid<T>>],
    gaussians: &[Vec<Grid<T>>],
    scales: usize,
    levels: &[ScaleLevel<T>],
    bin_angles: &[T],
    contrast_thresh: T,
    edge_r: T,
    kernels: &HessianKernels<T>,
    vote: &V,
    zero: T,
    one: T,
    floor: T,
) -> (keypoints: Vec<Keypoint<T>>)
    requires
        scene_fits(dogs@, gaussians@, scales, levels@, bin_angles@, *kernels),
        arithmetic_total::<T>(),
        forall|s: T, gx: T, gy: T, dx: i32, dy: i32| call_requires(vote, (s, gx, gy, dx, dy)),
    ensures
        scene_of(
            dogs@,
            gaussians@,
            scales,
            levels@,
            bin_angles@,
            contrast_thresh,
            edge_r,
            *kernels,
            zero,
            one,
            floor,
        ).scanned(keypoints@, Site { octave: dogs@.len() as int, level: 0, x: 0, y: 0 }),
        arithmetic_lawful::<T>() ==> scene_of(
            dogs@,
            gaussians@,
            scales,
            levels@,
            bin_angles@,
            contrast_thresh,
            edge_r,
            *kernels,
            zero,
            one,
            floor,
        ).detected(vote, keypoints@, Site { octave: dogs@.len() as int, level: 0, x: 0, y: 0 }),
{
    let ghost scene = scene_of(
        dogs@,
        gaussians@,
        scales,
        levels@,
        bin_angles@,
        contrast_thresh,
        edge_r,
        *kernels,
        zero,
        one,
        floor,
    );
    let mut keypoints: Vec<Keypoint<T>> = Vec::new();
    let mut octave: usize = 0;
    while octave < dogs.len()
        invariant
            scene_fits(dogs@, gaussians@, scales, levels@, bin_angles@, *kernels),
            arithmetic_total::<T>(),
            forall|s: T, gx: T, gy: T, dx: i32, dy: i32| call_requires(vote, (s, gx, gy, dx, dy)),
            scene == scene_of(
                dogs@,
                gaussians@,
                scales,
                levels@,
                bin_angles@,
                contrast_thresh,
                edge_r,
                *kernels,
                zero,
                one,
                floor,
            ),
            octave <= dogs@.len(),
            scene.scanned(
                keypoints@,
                Site { octave: octave as int, level: 0, x: 0, y: 0 },
            ),
            arithmetic_lawful::<T>() ==> scene.detected(
                vote,
                keypoints@,
                Site { octave: octave as int, level: 0, x: 0, y: 0 },
            ),
        decreases dogs@.len() - octave,
    {
        proof {
            assert(dogs@[octave as int]@.len() == dogs@[octave as int].len());
            scene.lemma_scanned_advance(
                keypoints@,
                Site { octave: octave as int, level: 0, x: 0, y: 0 },
                Site { octave: octave as int, level: 1, x: 0, y: 0 },
            );
            if arithmetic_lawful::<T>() {
                scene.lemma_advance(
                    vote,
                    keypoints@,
                    Site { octave: octave as int, level: 0, x: 0, y: 0 },
                    Site { octave: octave as int, level: 1, x: 0, y: 0 },
                );
            }
        }
        let mut scale_level: usize = 1;
        while scale_level <= scales
            invariant
                scene_fits(dogs@, gaussians@, scales, levels@, bin_angles@, *kernels),
                arithmetic_total::<T>(),
                forall|s: T, gx: T, gy: T, dx: i32, dy: i32|
                    call_requires(vote, (s, gx, gy, dx, dy)),
                scene == scene_of(
                    dogs@,
                    gaussians@,
                    scales,
                    levels@,
                    bin_angles@,
                    contrast_thresh,
                    edge_r,
                    *kernels,
                    zero,
                    one,
                    floor,
                ),
                octave < dogs@.len(),
                scales + 2 <= usize::MAX,
                1 <= scale_level <= scales + 1,
                scene.scanned(
                    keypoints@,
                    Site { octave: octave as int, level: scale_level as int, x: 0, y: 0 },
                ),
                arithmetic_lawful::<T>() ==> scene.detected(
                    vote,
                    keypoints@,
                    Site { octave: octave as int, level: scale_level as int, x: 0, y: 0 },
                ),
            decreases scales + 1 - scale_level,
        {
            detect_in_level(
                dogs,
                gaussians,
                scales,
                levels,
                bin_angles,
                contrast_thresh,
                edge_r,
                kernels,
                vote,
                zero,
                one,
                floor,
                octave,
                scale_level,
                &mut keypoints,
            );
            scale_level += 1;
        }
        proof {
            scene.lemma_scanned_advance(
                keypoints@,
                Site { octave: octave as int, level: scale_level as int, x: 0, y: 0 },
                Site { octave: octave as int + 1, level: 0, x: 0, y: 0 },
            );
            if arithmetic_lawful::<T>() {
                scene.lemma_advance(
                    vote,
                    keypoints@,
                    Site { octave: octave as int, level: scale_level as int, x: 0, y: 0 },
                    Site { octave: octave as int + 1, level: 0, x: 0, y: 0 },
                );
            }
        }
        octave += 1;
    }
    keypoints
}

/// Every keypoint of the scene is reported, and once only.
pub proof fn lemma_detection_is_complete<T: Scalar, V: Fn(T, T, T, i32, i32) -> Vote<T>>(
    scene: Scene<T>,
    vote: &V,
    keypoints: Seq<Keypoint<T>>,
    s: Site,
)
    requires
        scene.detected(
            vote,
            keypoints,
            Site { octave: scene.dogs.len() as int, level: 0, x: 0, y: 0 },
        ),
        scene.holds_keypoint(s),
    ensures
        exists|i: int|
            0 <= i < keypoints.len() && (#[trigger] keypoints[i]).site() == s && forall|j: int|
                0 <= j < keypoints.len() && j != i ==> (#[trigger] keypoints[j]).site() != s,
{
    let i = choose|i: int| 0 <= i < keypoints.len() && (#[trigger] keypoints[i]).site() == s;
    assert forall|j: int| 0 <= j < keypoints.len() && j != i implies (#[trigger] keypoints[j]).site()
        != s by {
        if j < i {
            assert(keypoints[j].site().precedes(keypoints[i].site()));
        } else {
            assert(keypoints[i].site().precedes(keypoints[j].site()));
        }
    }
}

/// Values that a keypoint is flattened to.
pub const KEYPOINT_FIELDS: usize = 6;

/// `flat` holds `kp` at place `i`: its x, y, octave and level as `widen`
/// gave them, then its scale and its angle.
pub open spec fn holds_flat<T, W: Fn(usize) -> T>(
    widen: &W,
    flat: Seq<T>,
    i: int,
    kp: Keypoint<T>,
) -> bool {
    &&& call_ensures(widen, (kp.x as usize,), flat[6 * i])
    &&& call_ensures(widen, (kp.y as usize,), flat[6 * i + 1])
    &&& call_ensures(widen, (kp.octave,), flat[6 * i + 2])
    &&& call_ensures(widen, (kp.level,), flat[6 * i + 3])
    &&& flat[6 * i + 4] == kp.sigma
    &&& flat[6 * i + 5] == kp.angle
}

/// The keypoints as one flat sequence of numbers, six for each keypoint in
/// turn: x, y, octave, level, scale and angle. `widen` turns a whole number
/// into a number of the pixel type.
pub fn flatten_keypoints<T: Copy, W: Fn(usize) -> T>(kps: &[Keypoint<T>], widen: &W) -> (out: Vec<
    T,
>)
    requires
        forall|v: usize| call_requires(widen, (v,)),
    ensures
        out@.len() == KEYPOINT_FIELDS * kps@.len(),
        forall|i: int| 0 <= i < kps@.len() ==> holds_flat(widen, out@, i, #[trigger] kps@[i]),
{
    let mut out: Vec<T> = Vec::new();
    let mut n: usize = 0;
    while n < kps.len()
        invariant
            forall|v: usize| call_requires(widen, (v,)),
            n <= kps@.len(),
            out@.len() == KEYPOINT_FIELDS * n,
            forall|i: int| 0 <= i < n ==> holds_flat(widen, out@, i, #[trigger] kps@[i]),
        decreases kps@.len() - n,
    {
        let kp: &Keypoint<T> = &kps[n];
        let ghost before = out@;
        out.push(widen(kp.x as usize));
        out.push(widen(kp.y as usize));
        out.push(widen(kp.octave));
        out.push(widen(kp.level));
        out.push(kp.sigma);
        out.push(kp.angle);
        proof {
            assert forall|i: int| 0 <= i < n implies holds_flat(widen, out@, i, #[trigger] kps@[i]) by {
                assert(holds_flat(widen, before, i, kps@[i]));
                assert(forall|j: int| 0 <= j < before.len() ==> out@[j] == before[j]);
            }
        }
        n += 1;
    }
    out
}

} // verus!

//! Matching of two sets of descriptors by exhaustive search: for each
//! descriptor of the first set the nearest and the second nearest of the
//! second set, the ratio test between the two, an optional check that the
//! match is mutual, and the ranking of the accepted matches by distance.
//!
//! A set of descriptors is one flat sequence in which the descriptors, all of
//! the same length, follow one another.
use crate::numeric::{
    add_total, arithmetic_lawful, arithmetic_total, greater, less, mul_total, sub_total, Scalar,
};
use std::ops::Neg;
use vstd::prelude::*;
use vstd::slice::slice_subrange;
use vstd::std_specs::ops::{AddSpec, DivSpec, MulSpec, NegSpec, SubSpec};

verus! {

/// An accepted match: descriptor `query` of the first set, descriptor
/// `reference` of the second set, and the squared distance between the two.
pub struct Match<T> {
    pub query: usize,
    pub reference: usize,
    pub distance: T,
}

/// The sum, starting from `zero`, of the squared differences of the first `n`
/// components of `a` and `b`, added in order.
pub open spec fn squared_distance<T: Scalar>(a: Seq<T>, b: Seq<T>, zero: T, n: nat) -> T
    decreases n,
{
    if n == 0 {
        zero
    } else {
        let diff = a[n - 1].sub_spec(b[n - 1]);
        squared_distance(a, b, zero, (n - 1) as nat).add_spec(diff.mul_spec(diff))
    }
}

/// Each subtraction, multiplication and addition of [`squared_distance`] over
/// the whole of `a` is admissible.
pub open spec fn distance_defined<T: Scalar>(a: Seq<T>, b: Seq<T>, zero: T) -> bool {
    forall|n: int|
        0 <= n < a.len() ==> {
            let diff = a[n].sub_spec(b[n]);
            &&& #[trigger] a[n].sub_req(b[n])
            &&& diff.mul_req(diff)
            &&& squared_distance(a, b, zero, n as nat).add_req(diff.mul_spec(diff))
        }
}

/// Descriptor `j` of a set whose descriptors have `d` components.
pub open spec fn descriptor_of<T>(set: Seq<T>, d: int, j: int) -> Seq<T> {
    set.subrange(j * d, j * d + d)
}

/// The number of whole descriptors of `d` components in `set`.
pub open spec fn descriptor_count<T>(set: Seq<T>, d: int) -> int {
    set.len() as int / d
}

/// The squared distances from `query` to each descriptor of `set` in turn.
pub open spec fn distances<T: Scalar>(query: Seq<T>, set: Seq<T>, d: int, zero: T) -> Seq<T> {
    Seq::new(
        descriptor_count(set, d) as nat,
        |j: int| squared_distance(query, descriptor_of(set, d, j), zero, query.len()),
    )
}

/// The distance from `query` to each descriptor of `set` can be computed.
pub open spec fn distances_defined<T: Scalar>(
    query: Seq<T>,
    set: Seq<T>,
    d: int,
    zero: T,
) -> bool {
    forall|j: int|
        0 <= j < descriptor_count(set, d) ==> distance_defined(
            query,
            #[trigger] descriptor_of(set, d, j),
            zero,
        )
}

/// What a scan for the two nearest has found: the place of the nearest, if
/// any distance was below the starting value, the nearest distance and the
/// second nearest.
pub struct TwoNearest<T> {
    pub index: Option<int>,
    pub best: T,
    pub second: T,
}

/// The scan of the first `n` distances for the two smallest. Both start at
/// `infinity`. A distance strictly below the best becomes the best, and the
/// former best the second; otherwise one strictly below the second becomes the
/// second.
pub open spec fn scan_two<T: Scalar>(dists: Seq<T>, infinity: T, n: nat) -> TwoNearest<T>
    decreases n,
{
    if n == 0 {
        TwoNearest { index: None, best: infinity, second: infinity }
    } else {
        let before = scan_two(dists, infinity, (n - 1) as nat);
        let dist = dists[n - 1];
        if less(dist, before.best) {
            TwoNearest { index: Some(n - 1), best: dist, second: before.best }
        } else if less(dist, before.second) {
            TwoNearest { index: before.index, best: before.best, second: dist }
        } else {
            before
        }
    }
}

/// The scan of the first `n` distances for the smallest: its place and its
/// value. The value starts at `infinity` and the place at 0; a distance
/// strictly below the best becomes the best.
pub open spec fn scan_one<T: Scalar>(dists: Seq<T>, infinity: T, n: nat) -> (int, T)
    decreases n,
{
    if n == 0 {
        (0, infinity)
    } else {
        let before = scan_one(dists, infinity, (n - 1) as nat);
        if less(dists[n - 1], before.1) {
            (n - 1, dists[n - 1])
        } else {
            before
        }
    }
}

/// The squared Euclidean distance between two vectors of the same length.
pub fn l2_sq<T: Scalar>(a: &[T], b: &[T], zero: T) -> (acc: T)
    requires
        a@.len() == b@.len(),
        (add_total::<T>() && sub_total::<T>() && mul_total::<T>()) || (arithmetic_lawful::<T>()
            && distance_defined(a@, b@, zero)),
    ensures
        arithmetic_lawful::<T>() ==> acc == squared_distance(a@, b@, zero, a@.len()),
{
    let mut acc: T = zero;
    let mut i: usize = 0;
    while i < a.len()
        invariant
            a@.len() == b@.len(),
            i <= a@.len(),
            (add_total::<T>() && sub_total::<T>() && mul_total::<T>()) || (arithmetic_lawful::<
                T,
            >() && distance_defined(a@, b@, zero)),
            arithmetic_lawful::<T>() ==> acc == squared_distance(a@, b@, zero, i as nat),
        decreases a@.len() - i,
    {
        assert(arithmetic_lawful::<T>() ==> a@[i as int].sub_req(b@[i as int]));
        let d: T = a[i] - b[i];
        acc = acc + d * d;
        i += 1;
    }
    acc
}

/// Descriptor `j` of a set of `n` descriptors of `d` components lies within the set.
pub proof fn lemma_descriptor_in_bounds(len: int, d: int, j: int)
    requires
        d > 0,
        len >= 0,
        0 <= j < len / d,
    ensures
        0 <= j * d,
        j * d + d <= len,
{
    assert(j * d >= 0) by (nonlinear_arith)
        requires
            j >= 0,
            d > 0,
    ;
    assert((j + 1) * d <= (len / d) * d) by (nonlinear_arith)
        requires
            j + 1 <= len / d,
            d > 0,
    ;
    assert((j + 1) * d == j * d + d) by (nonlinear_arith);
    assert((len / d) * d <= len) by (nonlinear_arith)
        requires
            d > 0,
            len >= 0,
    ;
}

/// The squared distance from `query` to descriptor `j` of `set`.
fn distance_to<T: Scalar>(query: &[T], set: &[T], d: usize, j: usize, zero: T) -> (dist: T)
    requires
        d > 0,
        query@.len() == d,
        j < descriptor_count(set@, d as int),
        (add_total::<T>() && sub_total::<T>() && mul_total::<T>()) || (arithmetic_lawful::<T>()
            && distances_defined(query@, set@, d as int, zero)),
    ensures
        arithmetic_lawful::<T>() ==> dist == distances(query@, set@, d as int, zero)[j as int],
{
    proof {
        lemma_descriptor_in_bounds(set@.len() as int, d as int, j as int);
        assert(set@.len() == set.len());
    }
    let start: usize = j * d;
    let cand: &[T] = slice_subrange(set, start, start + d);
    assert(cand@ == descriptor_of(set@, d as int, j as int));
    l2_sq(query, cand, zero)
}

/// The nearest descriptor of `set` to `query` with the squared distances of
/// the nearest and of the second nearest, as the scan of all distances finds
/// them; none where `d` is 0 or no distance is below `infinity`.
pub open spec fn best_two<T: Scalar>(
    query: Seq<T>,
    set: Seq<T>,
    d: int,
    zero: T,
    infinity: T,
) -> Option<(int, T, T)> {
    if d == 0 {
        None
    } else {
        let dists = distances(query, set, d, zero);
        let found = scan_two(dists, infinity, dists.len());
        match found.index {
            Some(j) => Some((j, found.best, found.second)),
            None => None,
        }
    }
}

/// The descriptor of `set` nearest to `query`, with its squared distance and
/// the squared distance of the second nearest. There is none where `d` is 0,
/// where the set is empty, or where no distance is below `infinity`.
pub fn best_two_in_set<T: Scalar>(query: &[T], set: &[T], d: usize, zero: T, infinity: T) -> (r:
    Option<(usize, T, T)>)
    requires
        d > 0 ==> query@.len() == d,
        (add_total::<T>() && sub_total::<T>() && mul_total::<T>()) || (arithmetic_lawful::<T>()
            && distances_defined(query@, set@, d as int, zero)),
    ensures
        r matches Some(found) ==> d > 0 && found.0 < descriptor_count(set@, d as int),
        d == 0 || descriptor_count(set@, d as int) == 0 ==> r is None,
        arithmetic_lawful::<T>() ==> (match r {
            Some(found) => Some((found.0 as int, found.1, found.2)),
            None => None,
        }) == best_two(query@, set@, d as int, zero, infinity),
{
    if d == 0 {
        return None;
    }
    let n: usize = set.len() / d;
    if n == 0 {
        return None;
    }
    let ghost dists = distances(query@, set@, d as int, zero);
    let mut best_idx: Option<usize> = None;
    let mut best: T = infinity;
    let mut second: T = infinity;
    let mut j: usize = 0;
    while j < n
        invariant
            d > 0,
            query@.len() == d,
            n == descriptor_count(set@, d as int),
            dists == distances(query@, set@, d as int, zero),
            (add_total::<T>() && sub_total::<T>() && mul_total::<T>()) || (arithmetic_lawful::<
                T,
            >() && distances_defined(query@, set@, d as int, zero)),
            j <= n,
            best_idx matches Some(b) ==> b < n,
            arithmetic_lawful::<T>() ==> scan_two(dists, infinity, j as nat) == (TwoNearest {
                index: match best_idx {
                    Some(b) => Some(b as int),
                    None => None,
                },
                best,
                second,
            }),
        decreases n - j,
    {
        let dist: T = distance_to(query, set, d, j, zero);
        if dist < best {
            second = best;
            best = dist;
            best_idx = Some(j);
        } else if dist < second {
            second = dist;
        }
        j += 1;
    }
    match best_idx {
        Some(b) => Some((b, best, second)),
        None => None,
    }
}

/// The nearest descriptor of `set` to `query`, as the scan of all distances
/// finds it; none where `d` is 0 or the set is empty.
pub open spec fn best_index<T: Scalar>(
    query: Seq<T>,
    set: Seq<T>,
    d: int,
    zero: T,
    infinity: T,
) -> Option<int> {
    if d == 0 || descriptor_count(set, d) == 0 {
        None
    } else {
        let dists = distances(query, set, d, zero);
        Some(scan_one(dists, infinity, dists.len()).0)
    }
}

/// The descriptor of `set` nearest to `query`: the first whose distance is
/// below `infinity` and below all before it, and which none after it
/// undercuts; descriptor 0 where no distance is below `infinity`. There is
/// none where `d` is 0 or the set is empty.
pub fn best_index_in_set<T: Scalar>(query: &[T], set: &[T], d: usize, zero: T, infinity: T) -> (r:
    Option<usize>)
    requires
        d > 0 ==> query@.len() == d,
        (add_total::<T>() && sub_total::<T>() && mul_total::<T>()) || (arithmetic_lawful::<T>()
            && distances_defined(query@, set@, d as int, zero)),
    ensures
        r matches Some(b) ==> d > 0 && b < descriptor_count(set@, d as int),
        r is None <==> d == 0 || descriptor_count(set@, d as int) == 0,
        arithmetic_lawful::<T>() ==> (match r {
            Some(b) => Some(b as int),
            None => None,
        }) == best_index(query@, set@, d as int, zero, infinity),
{
    if d == 0 {
        return None;
    }
    let n: usize = set.len() / d;
    if n == 0 {
        return None;
    }
    let ghost dists = distances(query@, set@, d as int, zero);
    let mut best_idx: usize = 0;
    let mut best: T = infinity;
    let mut j: usize = 0;
    while j < n
        invariant
            d > 0,
            query@.len() == d,
            n == descriptor_count(set@, d as int),
            n > 0,
            dists == distances(query@, set@, d as int, zero),
            (add_total::<T>() && sub_total::<T>() && mul_total::<T>()) || (arithmetic_lawful::<
                T,
            >() && distances_defined(query@, set@, d as int, zero)),
            j <= n,
            best_idx < n,
            arithmetic_lawful::<T>() ==> scan_one(dists, infinity, j as nat) == (
                best_idx as int,
                best,
            ),
        decreases n - j,
    {
        let dist: T = distance_to(query, set, d, j, zero);
        if dist < best {
            best = dist;
            best_idx = j;
        }
        j += 1;
    }
    Some(best_idx)
}

/// `x` lies strictly between minus `infinity` and `infinity`.
pub open spec fn finite<T: Scalar>(x: T, infinity: T) -> bool {
    less(x, infinity) && less(infinity.neg_spec(), x)
}

/// Tells whether `x` lies strictly between minus `infinity` and `infinity`.
pub fn is_finite<T: Scalar>(x: T, infinity: T) -> (r: bool)
    requires
        infinity.neg_req(),
    ensures
        arithmetic_lawful::<T>() ==> r == finite(x, infinity),
{
    x < infinity && infinity.neg() < x
}

/// The ratio test: both distances are finite, the second is greater than
/// `zero`, and the best divided by the second is below `ratio`.
pub open spec fn passes_ratio<T: Scalar>(
    best: T,
    second: T,
    ratio: T,
    zero: T,
    infinity: T,
) -> bool {
    &&& finite(second, infinity)
    &&& finite(best, infinity)
    &&& greater(second, zero)
    &&& less(best.div_spec(second), ratio)
}

/// The division of the ratio test is admissible where the test comes to it.
pub open spec fn ratio_defined<T: Scalar>(best: T, second: T, zero: T, infinity: T) -> bool {
    finite(second, infinity) && finite(best, infinity) && greater(second, zero) ==> best.div_req(
        second,
    )
}

/// Tells whether the nearest and the second nearest distance pass the ratio test.
pub fn ratio_test<T: Scalar>(best: T, second: T, ratio: T, zero: T, infinity: T) -> (pass: bool)
    requires
        infinity.neg_req(),
        forall|a: T, b: T| #[trigger] a.div_req(b) || (arithmetic_lawful::<T>() && ratio_defined(
            best,
            second,
            zero,
            infinity,
        )),
    ensures
        arithmetic_lawful::<T>() ==> pass == passes_ratio(best, second, ratio, zero, infinity),
{
    is_finite(second, infinity) && is_finite(best, infinity) && second > zero && (best / second)
        < ratio
}

/// The match that descriptor `i` of the first set gives rise to, if any: its
/// nearest neighbour in the second set, where the nearest and the second
/// nearest pass the ratio test and, with `cross_check`, where descriptor `i` is
/// in turn the nearest neighbour in the first set of the one found.
pub open spec fn match_of<T: Scalar>(
    desc1: Seq<T>,
    desc2: Seq<T>,
    d: int,
    ratio: T,
    cross_check: bool,
    zero: T,
    infinity: T,
    i: int,
) -> Option<Match<T>> {
    let forward = distances(descriptor_of(desc1, d, i), desc2, d, zero);
    let found = scan_two(forward, infinity, forward.len());
    match found.index {
        Some(j) => {
            let backward = distances(descriptor_of(desc2, d, j), desc1, d, zero);
            if passes_ratio(found.best, found.second, ratio, zero, infinity) && (cross_check
                ==> scan_one(backward, infinity, backward.len()).0 == i) {
                Some(Match { query: i as usize, reference: j as usize, distance: found.best })
            } else {
                None
            }
        },
        None => None,
    }
}

/// The matches of the first `n` descriptors of the first set, in their order.
pub open spec fn matches_of<T: Scalar>(
    desc1: Seq<T>,
    desc2: Seq<T>,
    d: int,
    ratio: T,
    cross_check: bool,
    zero: T,
    infinity: T,
    n: nat,
) -> Seq<Match<T>>
    decreases n,
{
    if n == 0 {
        Seq::empty()
    } else {
        let before = matches_of(
            desc1,
            desc2,
            d,
            ratio,
            cross_check,
            zero,
            infinity,
            (n - 1) as nat,
        );
        match match_of(desc1, desc2, d, ratio, cross_check, zero, infinity, n - 1) {
            Some(m) => before.push(m),
            None => before,
        }
    }
}

/// Each operation of the matching of the two sets is admissible: the
/// negation of `infinity`, every distance between a descriptor of one set and
/// a descriptor of the other, and the division of each ratio test.
pub open spec fn matching_defined<T: Scalar>(
    desc1: Seq<T>,
    desc2: Seq<T>,
    d: int,
    zero: T,
    infinity: T,
) -> bool {
    &&& infinity.neg_req()
    &&& forall|i: int|
        0 <= i < descriptor_count(desc1, d) ==> {
            let forward = distances(#[trigger] descriptor_of(desc1, d, i), desc2, d, zero);
            let found = scan_two(forward, infinity, forward.len());
            &&& distances_defined(descriptor_of(desc1, d, i), desc2, d, zero)
            &&& ratio_defined(found.best, found.second, zero, infinity)
        }
    &&& forall|j: int|
        0 <= j < descriptor_count(desc2, d) ==> distances_defined(
            #[trigger] descriptor_of(desc2, d, j),
            desc1,
            d,
            zero,
        )
}

/// Each match names a descriptor of either set.
pub open spec fn matches_in_range<T>(matches: Seq<Match<T>>, n1: int, n2: int) -> bool {
    forall|k: int|
        0 <= k < matches.len() ==> (#[trigger] matches[k]).query < n1 && matches[k].reference
            < n2
}

/// The accepted matches between two sets of descriptors of `d` components
/// each, in ascending order of the descriptor of the first set. A descriptor
/// of the first set is matched to its nearest neighbour in the second set
/// where the squared distances to the nearest and to the second nearest pass
/// the ratio test with `ratio`, and, with `cross_check`, where it is itself the
/// nearest neighbour in the first set of the descriptor found.
pub fn match_descriptors_with_scores<T: Scalar>(
    desc1: &[T],
    desc2: &[T],
    d: usize,
    ratio: T,
    cross_check: bool,
    zero: T,
    infinity: T,
) -> (out: Vec<Match<T>>)
    requires
        d > 0,
        desc1@.len() as int % d as int == 0,
        desc2@.len() as int % d as int == 0,
        arithmetic_total::<T>() || (arithmetic_lawful::<T>() && matching_defined(
            desc1@,
            desc2@,
            d as int,
            zero,
            infinity,
        )),
    ensures
        matches_in_range(
            out@,
            descriptor_count(desc1@, d as int),
            descriptor_count(desc2@, d as int),
        ),
        out@.len() <= descriptor_count(desc1@, d as int),
        descriptor_count(desc2@, d as int) == 0 ==> out@.len() == 0,
        arithmetic_lawful::<T>() ==> out@ == matches_of(
            desc1@,
            desc2@,
            d as int,
            ratio,
            cross_check,
            zero,
            infinity,
            descriptor_count(desc1@, d as int) as nat,
        ),
{
    let n1: usize = desc1.len() / d;
    let n2: usize = desc2.len() / d;
    let mut out: Vec<Match<T>> = Vec::new();
    if n1 == 0 || n2 == 0 {
        proof {
            if arithmetic_lawful::<T>() {
                lemma_no_matches(
                    desc1@,
                    desc2@,
                    d as int,
                    ratio,
                    cross_check,
                    zero,
                    infinity,
                    n1 as nat,
                );
            }
        }
        return out;
    }
    let mut i: usize = 0;
    while i < n1
        invariant
            d > 0,
            n1 == descriptor_count(desc1@, d as int),
            n2 == descriptor_count(desc2@, d as int),
            arithmetic_total::<T>() || (arithmetic_lawful::<T>() && matching_defined(
                desc1@,
                desc2@,
                d as int,
                zero,
                infinity,
            )),
            i <= n1,
            out@.len() <= i,
            matches_in_range(out@, n1 as int, n2 as int),
            arithmetic_lawful::<T>() ==> out@ == matches_of(
                desc1@,
                desc2@,
                d as int,
                ratio,
                cross_check,
                zero,
                infinity,
                i as nat,
            ),
        decreases n1 - i,
    {
        proof {
            lemma_descriptor_in_bounds(desc1@.len() as int, d as int, i as int);
            assert(desc1@.len() == desc1.len());
        }
        let q: &[T] = slice_subrange(desc1, i * d, i * d + d);
        assert(q@ == descriptor_of(desc1@, d as int, i as int));
        let ghost before = out@;
        match best_two_in_set(q, desc2, d, zero, infinity) {
            Some((j, best, second)) => {
                if ratio_test(best, second, ratio, zero, infinity) {
                    proof {
                        lemma_descriptor_in_bounds(desc2@.len() as int, d as int, j as int);
                        assert(desc2@.len() == desc2.len());
                    }
                    let mut mutual: bool = true;
                    if cross_check {
                        let q2: &[T] = slice_subrange(desc2, j * d, j * d + d);
                        assert(q2@ == descriptor_of(desc2@, d as int, j as int));
                        match best_index_in_set(q2, desc1, d, zero, infinity) {
                            Some(bi) => {
                                mutual = bi == i;
                            },
                            None => {
                                mutual = false;
                            },
                        }
                    }
                    if mutual {
                        out.push(Match { query: i, reference: j, distance: best });
                    }
                }
            },
            None => {},
        }
        i += 1;
    }
    out
}

/// Where either set is empty there are no matches.
pub proof fn lemma_no_matches<T: Scalar>(
    desc1: Seq<T>,
    desc2: Seq<T>,
    d: int,
    ratio: T,
    cross_check: bool,
    zero: T,
    infinity: T,
    n: nat,
)
    requires
        descriptor_count(desc1, d) == 0 || descriptor_count(desc2, d) == 0,
        n <= descriptor_count(desc1, d),
    ensures
        matches_of(desc1, desc2, d, ratio, cross_check, zero, infinity, n) == Seq::<
            Match<T>,
        >::empty(),
    decreases n,
{
    if n > 0 {
        lemma_no_matches(desc1, desc2, d, ratio, cross_check, zero, infinity, (n - 1) as nat);
    }
}

/// Where `m` goes among the first `n` of the ranked matches `ranked`: before
/// each match at the end whose distance is strictly greater than that of `m`.
pub open spec fn insertion_point<T: Scalar>(ranked: Seq<Match<T>>, m: Match<T>, n: nat) -> nat
    decreases n,
{
    if n > 0 && less(m.distance, ranked[n - 1].distance) {
        insertion_point(ranked, m, (n - 1) as nat)
    } else {
        n
    }
}

/// The first `n` of `matches` in ascending order of distance. The matches are
/// inserted one after the other; a match goes behind those that are not
/// farther than it, so matches of equal distance keep their order.
pub open spec fn ranked<T: Scalar>(matches: Seq<Match<T>>, n: nat) -> Seq<Match<T>>
    decreases n,
{
    if n == 0 {
        Seq::empty()
    } else {
        let before = ranked(matches, (n - 1) as nat);
        before.insert(insertion_point(before, matches[n - 1], before.len()) as int, matches[n - 1])
    }
}

/// Each of `ranked` is one of `matches`.
pub open spec fn drawn_from<T>(ranked: Seq<Match<T>>, matches: Seq<Match<T>>) -> bool {
    forall|k: int|
        0 <= k < ranked.len() ==> exists|i: int|
            0 <= i < matches.len() && matches[i] == #[trigger] ranked[k]
}

/// The place of `m` never lies beyond the matches considered.
pub proof fn lemma_insertion_point_bound<T: Scalar>(ranked: Seq<Match<T>>, m: Match<T>, n: nat)
    ensures
        insertion_point(ranked, m, n) <= n,
    decreases n,
{
    if n > 0 && less(m.distance, ranked[n - 1].distance) {
        lemma_insertion_point_bound(ranked, m, (n - 1) as nat);
    }
}

/// Ranking keeps the number of matches.
pub proof fn lemma_ranked_len<T: Scalar>(matches: Seq<Match<T>>, n: nat)
    ensures
        ranked(matches, n).len() == n,
    decreases n,
{
    if n > 0 {
        lemma_ranked_len(matches, (n - 1) as nat);
        let before = ranked(matches, (n - 1) as nat);
        lemma_insertion_point_bound(before, matches[n - 1], before.len());
    }
}

/// The matches in ascending order of distance; matches of equal distance
/// keep their order.
pub fn rank_matches<T: Scalar>(matches: &Vec<Match<T>>) -> (out: Vec<Match<T>>)
    ensures
        out@.len() == matches@.len(),
        drawn_from(out@, matches@),
        arithmetic_lawful::<T>() ==> out@ == ranked(matches@, matches@.len()),
{
    let mut out: Vec<Match<T>> = Vec::new();
    let mut n: usize = 0;
    while n < matches.len()
        invariant
            n <= matches@.len(),
            out@.len() == n,
            drawn_from(out@, matches@),
            arithmetic_lawful::<T>() ==> out@ == ranked(matches@, n as nat),
        decreases matches@.len() - n,
    {
        let m: &Match<T> = &matches[n];
        let mut pos: usize = out.len();
        while pos > 0 && m.distance < out[pos - 1].distance
            invariant
                pos <= out@.len(),
                arithmetic_lawful::<T>() ==> insertion_point(out@, *m, out@.len())
                    == insertion_point(out@, *m, pos as nat),
            decreases pos,
        {
            pos -= 1;
        }
        let ghost before = out@;
        let copy = Match { query: m.query, reference: m.reference, distance: m.distance };
        assert(copy == *m);
        out.insert(pos, copy);
        proof {
            assert forall|k: int| 0 <= k < out@.len() implies exists|i: int|
                0 <= i < matches@.len() && matches@[i] == #[trigger] out@[k] by {
                if k < pos {
                    assert(out@[k] == before[k]);
                } else if k == pos {
                    assert(matches@[n as int] == out@[k]);
                } else {
                    assert(out@[k] == before[k - 1]);
                }
            }
        }
        n += 1;
    }
    out
}

/// The first `take` of `ranked` as pairs of indices, each pair the
/// descriptor of the first set and then the descriptor of the second set.
pub open spec fn index_pairs<T>(ranked: Seq<Match<T>>, take: nat) -> Seq<u32> {
    Seq::new(
        2 * take,
        |k: int|
            if k % 2 == 0 {
                ranked[k / 2].query as u32
            } else {
                ranked[k / 2].reference as u32
            },
    )
}

/// The smaller of `top_k` and `count`.
pub open spec fn taken(top_k: usize, count: nat) -> nat {
    if top_k <= count {
        top_k as nat
    } else {
        count
    }
}

/// The `top_k` best matches between two sets of descriptors, or all matches
/// where there are fewer: the matches of [`match_descriptors_with_scores`]
/// in ascending order of distance, each given as the index of the descriptor
/// of the first set followed by the index of the descriptor of the second set.
pub fn match_descriptors_topk_impl<T: Scalar>(
    desc1: &[T],
    desc2: &[T],
    d: usize,
    ratio: T,
    cross_check: bool,
    top_k: usize,
    zero: T,
    infinity: T,
) -> (out: Vec<u32>)
    requires
        d > 0,
        desc1@.len() as int % d as int == 0,
        desc2@.len() as int % d as int == 0,
        descriptor_count(desc1@, d as int) <= u32::MAX + 1,
        descriptor_count(desc2@, d as int) <= u32::MAX + 1,
        arithmetic_total::<T>() || (arithmetic_lawful::<T>() && matching_defined(
            desc1@,
            desc2@,
            d as int,
            zero,
            infinity,
        )),
    ensures
        out@.len() % 2 == 0,
        out@.len() <= 2 * top_k,
        out@.len() <= 2 * descriptor_count(desc1@, d as int),
        arithmetic_lawful::<T>() ==> {
            let scored = matches_of(
                desc1@,
                desc2@,
                d as int,
                ratio,
                cross_check,
                zero,
                infinity,
                descriptor_count(desc1@, d as int) as nat,
            );
            out@ == index_pairs(ranked(scored, scored.len()), taken(top_k, scored.len()))
        },
{
    let scored: Vec<Match<T>> = match_descriptors_with_scores(
        desc1,
        desc2,
        d,
        ratio,
        cross_check,
        zero,
        infinity,
    );
    let triples: Vec<Match<T>> = rank_matches(&scored);
    let take: usize = if top_k <= triples.len() {
        top_k
    } else {
        triples.len()
    };
    let ghost n1 = descriptor_count(desc1@, d as int);
    let ghost n2 = descriptor_count(desc2@, d as int);
    assert forall|k: int| 0 <= k < triples@.len() implies (#[trigger] triples@[k]).query < n1
        && triples@[k].reference < n2 by {
        let i = choose|i: int| 0 <= i < scored@.len() && scored@[i] == triples@[k];
        assert(scored@[i].query < n1);
    }
    let mut out: Vec<u32> = Vec::new();
    let mut k: usize = 0;
    while k < take
        invariant
            take <= triples@.len(),
            k <= take,
            n1 <= u32::MAX + 1,
            n2 <= u32::MAX + 1,
            forall|k: int|
                0 <= k < triples@.len() ==> (#[trigger] triples@[k]).query < n1
                    && triples@[k].reference < n2,
            out@.len() == 2 * k,
            forall|j: int|
                0 <= j < out@.len() ==> out@[j] == index_pairs(triples@, take as nat)[j],
        decreases take - k,
    {
        let m: &Match<T> = &triples[k];
        out.push(m.query as u32);
        out.push(m.reference as u32);
        k += 1;
    }
    proof {
        assert(out@ =~= index_pairs(triples@, take as nat));
    }
    out
}

/// The comparison of `T` is a strict weak order: nothing is below itself,
/// and where `a` is not below `b` and `b` is not below `c`, `a` is not below `c`.
pub open spec fn strict_weak_order<T: Scalar>() -> bool {
    &&& forall|a: T, b: T| #[trigger] less(a, b) ==> !less(b, a)
    &&& forall|a: T, b: T, c: T|
        !(#[trigger] less(a, b)) && !(#[trigger] less(b, c)) ==> !less(a, c)
}

/// The distances of `matches` never descend.
pub open spec fn ascending<T: Scalar>(matches: Seq<Match<T>>) -> bool {
    forall|i: int, j: int|
        0 <= i < j < matches.len() ==> !less(
            (#[trigger] matches[j]).distance,
            (#[trigger] matches[i]).distance,
        )
}

/// A match is inserted behind those not farther than it and before those farther.
pub proof fn lemma_insertion_point_splits<T: Scalar>(ranked: Seq<Match<T>>, m: Match<T>, n: nat)
    requires
        strict_weak_order::<T>(),
        ascending(ranked),
        n <= ranked.len(),
    ensures
        insertion_point(ranked, m, n) <= n,
        forall|k: int|
            insertion_point(ranked, m, n) <= k < n ==> less(
                m.distance,
                (#[trigger] ranked[k]).distance,
            ),
        forall|k: int|
            0 <= k < insertion_point(ranked, m, n) ==> !less(
                m.distance,
                (#[trigger] ranked[k]).distance,
            ),
    decreases n,
{
    if n > 0 && less(m.distance, ranked[n - 1].distance) {
        lemma_insertion_point_splits(ranked, m, (n - 1) as nat);
    } else if n > 0 {
        assert forall|k: int| 0 <= k < n implies !less(
            m.distance,
            (#[trigger] ranked[k]).distance,
        ) by {
            if k < n - 1 {
                assert(!less(ranked[n - 1].distance, ranked[k].distance));
            }
        }
    }
}

/// Under a strict weak order the ranked matches stand in ascending order of
/// distance.
pub proof fn lemma_ranked_ascending<T: Scalar>(matches: Seq<Match<T>>, n: nat)
    requires
        strict_weak_order::<T>(),
        n <= matches.len(),
    ensures
        ascending(ranked(matches, n)),
    decreases n,
{
    if n > 0 {
        lemma_ranked_ascending(matches, (n - 1) as nat);
        let before = ranked(matches, (n - 1) as nat);
        let m = matches[n - 1];
        let p = insertion_point(before, m, before.len()) as int;
        lemma_insertion_point_splits(before, m, before.len());
        let after = before.insert(p, m);
        assert forall|i: int, j: int| 0 <= i < j < after.len() implies !less(
            (#[trigger] after[j]).distance,
            (#[trigger] after[i]).distance,
        ) by {
            if j < p {
                assert(after[i] == before[i] && after[j] == before[j]);
            } else if j == p {
                assert(after[i] == before[i]);
            } else if i < p {
                assert(after[i] == before[i] && after[j] == before[j - 1]);
            } else if i == p {
                assert(after[j] == before[j - 1]);
                assert(less(m.distance, before[j - 1].distance));
            } else {
                assert(after[i] == before[i - 1] && after[j] == before[j - 1]);
            }
        }
    }
}

/// The nearest that the scan for two finds is the nearest that the scan for
/// one finds, at the same place where the scan for two has found any.
pub proof fn lemma_scans_agree<T: Scalar>(dists: Seq<T>, infinity: T, n: nat)
    requires
        n <= dists.len(),
    ensures
        scan_two(dists, infinity, n).best == scan_one(dists, infinity, n).1,
        scan_two(dists, infinity, n).index matches Some(j) ==> 0 <= j < n && j == scan_one(
            dists,
            infinity,
            n,
        ).0 && scan_two(dists, infinity, n).best == dists[j],
        0 <= scan_one(dists, infinity, n).0,
        scan_one(dists, infinity, n).0 < n || n == 0,
    decreases n,
{
    if n > 0 {
        lemma_scans_agree(dists, infinity, (n - 1) as nat);
    }
}

/// Under a strict weak order no distance is below the nearest that the scan
/// has found.
pub proof fn lemma_nearest_is_minimal<T: Scalar>(dists: Seq<T>, infinity: T, n: nat, k: int)
    requires
        strict_weak_order::<T>(),
        n <= dists.len(),
        0 <= k < n,
    ensures
        !less(dists[k], scan_one(dists, infinity, n).1),
    decreases n,
{
    let before = scan_one(dists, infinity, (n - 1) as nat);
    if k < n - 1 {
        lemma_nearest_is_minimal(dists, infinity, (n - 1) as nat, k);
        if less(dists[n - 1], before.1) {
            assert(!less(before.1, dists[n - 1]));
        }
    }
}

/// Each reported match is the match of its own query, and the queries ascend.
pub proof fn lemma_matches_trace<T: Scalar>(
    desc1: Seq<T>,
    desc2: Seq<T>,
    d: int,
    ratio: T,
    cross_check: bool,
    zero: T,
    infinity: T,
    n: nat,
)
    requires
        n <= usize::MAX,
    ensures
        forall|k: int|
            0 <= k < matches_of(desc1, desc2, d, ratio, cross_check, zero, infinity, n).len() ==> {
                let m = #[trigger] matches_of(
                    desc1,
                    desc2,
                    d,
                    ratio,
                    cross_check,
                    zero,
                    infinity,
                    n,
                )[k];
                &&& m.query < n
                &&& match_of(desc1, desc2, d, ratio, cross_check, zero, infinity, m.query as int)
                    == Some(m)
            },
        forall|k1: int, k2: int|
            0 <= k1 < k2 < matches_of(
                desc1,
                desc2,
                d,
                ratio,
                cross_check,
                zero,
                infinity,
                n,
            ).len() ==> (#[trigger] matches_of(
                desc1,
                desc2,
                d,
                ratio,
                cross_check,
                zero,
                infinity,
                n,
            )[k1]).query < (#[trigger] matches_of(
                desc1,
                desc2,
                d,
                ratio,
                cross_check,
                zero,
                infinity,
                n,
            )[k2]).query,
    decreases n,
{
    if n > 0 {
        lemma_matches_trace(desc1, desc2, d, ratio, cross_check, zero, infinity, (n - 1) as nat);
    }
}

/// No reported match fails the ratio test: for each match, the squared
/// distance of the nearest neighbour of its query divided by that of the
/// second nearest is below `ratio`; the match names that nearest neighbour and
/// carries its distance.
pub proof fn lemma_matches_pass_ratio_test<T: Scalar>(
    desc1: Seq<T>,
    desc2: Seq<T>,
    d: int,
    ratio: T,
    cross_check: bool,
    zero: T,
    infinity: T,
    k: int,
)
    requires
        d > 0,
        descriptor_count(desc1, d) <= usize::MAX,
        descriptor_count(desc2, d) <= usize::MAX,
        0 <= k < matches_of(
            desc1,
            desc2,
            d,
            ratio,
            cross_check,
            zero,
            infinity,
            descriptor_count(desc1, d) as nat,
        ).len(),
    ensures
        ({
            let m = matches_of(
                desc1,
                desc2,
                d,
                ratio,
                cross_check,
                zero,
                infinity,
                descriptor_count(desc1, d) as nat,
            )[k];
            let forward = distances(descriptor_of(desc1, d, m.query as int), desc2, d, zero);
            let found = scan_two(forward, infinity, forward.len());
            &&& found.index == Some(m.reference as int)
            &&& m.distance == found.best
            &&& passes_ratio(found.best, found.second, ratio, zero, infinity)
            &&& less(found.best.div_spec(found.second), ratio)
        }),
{
    let n = descriptor_count(desc1, d) as nat;
    lemma_matches_trace(desc1, desc2, d, ratio, cross_check, zero, infinity, n);
    let m = matches_of(desc1, desc2, d, ratio, cross_check, zero, infinity, n)[k];
    let forward = distances(descriptor_of(desc1, d, m.query as int), desc2, d, zero);
    lemma_scans_agree(forward, infinity, forward.len());
}

/// With the cross-check every reported match is mutual: the descriptor of the
/// second set is the nearest neighbour of the descriptor of the first set,
/// and the descriptor of the first set is the nearest neighbour of the
/// descriptor of the second set.
pub proof fn lemma_cross_checked_matches_are_mutual<T: Scalar>(
    desc1: Seq<T>,
    desc2: Seq<T>,
    d: int,
    ratio: T,
    zero: T,
    infinity: T,
    k: int,
)
    requires
        d > 0,
        descriptor_count(desc1, d) <= usize::MAX,
        descriptor_count(desc2, d) <= usize::MAX,
        0 <= k < matches_of(
            desc1,
            desc2,
            d,
            ratio,
            true,
            zero,
            infinity,
            descriptor_count(desc1, d) as nat,
        ).len(),
    ensures
        ({
            let m = matches_of(
                desc1,
                desc2,
                d,
                ratio,
                true,
                zero,
                infinity,
                descriptor_count(desc1, d) as nat,
            )[k];
            &&& best_index(descriptor_of(desc1, d, m.query as int), desc2, d, zero, infinity)
                == Some(m.reference as int)
            &&& best_index(descriptor_of(desc2, d, m.reference as int), desc1, d, zero, infinity)
                == Some(m.query as int)
        }),
{
    let n = descriptor_count(desc1, d) as nat;
    lemma_matches_trace(desc1, desc2, d, ratio, true, zero, infinity, n);
    let m = matches_of(desc1, desc2, d, ratio, true, zero, infinity, n)[k];
    let forward = distances(descriptor_of(desc1, d, m.query as int), desc2, d, zero);
    lemma_scans_agree(forward, infinity, forward.len());
    let backward = distances(descriptor_of(desc2, d, m.reference as int), desc1, d, zero);
    lemma_scans_agree(backward, infinity, backward.len());
}

/// The indices of the best matches are twice as many as the smaller of
/// `top_k` and the number of accepted matches, and the matches behind them
/// stand in ascending order of distance under a strict weak order.
pub proof fn lemma_topk_is_ranked<T: Scalar>(matches: Seq<Match<T>>, top_k: usize)
    requires
        strict_weak_order::<T>(),
    ensures
        index_pairs(ranked(matches, matches.len()), taken(top_k, matches.len())).len() == 2
            * taken(top_k, matches.len()),
        taken(top_k, matches.len()) <= top_k,
        taken(top_k, matches.len()) <= matches.len(),
        ranked(matches, matches.len()).len() == matches.len(),
        ascending(ranked(matches, matches.len())),
{
    lemma_ranked_len(matches, matches.len());
    lemma_ranked_ascending(matches, matches.len());
}

/// Ranking neither drops nor invents a match: the ranked matches are the
/// given ones in another order.
pub proof fn lemma_ranked_is_permutation<T: Scalar>(matches: Seq<Match<T>>, n: nat)
    requires
        n <= matches.len(),
    ensures
        ranked(matches, n).to_multiset() == matches.take(n as int).to_multiset(),
    decreases n,
{
    broadcast use {vstd::seq_lib::to_multiset_insert, vstd::seq_lib::to_multiset_build};

    if n == 0 {
        assert(matches.take(0) =~= Seq::<Match<T>>::empty());
    } else {
        lemma_ranked_is_permutation(matches, (n - 1) as nat);
        let before = ranked(matches, (n - 1) as nat);
        lemma_insertion_point_bound(before, matches[n - 1], before.len());
        assert(matches.take(n as int) =~= matches.take(n - 1).push(matches[n - 1]));
    }
}

/// The whole numbers are strictly and weakly ordered by their comparison.
pub proof fn lemma_whole_numbers_are_ordered()
    ensures
        strict_weak_order::<i64>(),
        strict_weak_order::<i32>(),
{
}

} // verus!

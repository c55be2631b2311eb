use sift::match_descriptors_topk;
use sift::match_keypoints::{
    best_index_in_set, best_two_in_set, is_finite, l2_sq, match_descriptors_topk_impl,
    match_descriptors_with_scores, rank_matches, ratio_test, Match,
};

const INF: f32 = f32::INFINITY;

fn pairs(matches: &[Match<f32>]) -> Vec<(usize, usize, f32)> {
    matches.iter().map(|m| (m.query, m.reference, m.distance)).collect()
}

/// Squared distances from descriptor `i` of `a` to each descriptor of `b`.
fn row(a: &[f32], i: usize, b: &[f32], d: usize) -> Vec<f32> {
    (0..b.len() / d)
        .map(|j| {
            let mut acc: f32 = 0.0;
            for c in 0..d {
                let diff = a[i * d + c] - b[j * d + c];
                acc += diff * diff;
            }
            acc
        })
        .collect()
}

fn scrambled(n: usize, d: usize, seed: u32) -> Vec<f32> {
    let mut state: u32 = seed;
    (0..n * d)
        .map(|_| {
            state = state.wrapping_mul(1664525).wrapping_add(1013904223);
            ((state >> 8) % 1000) as f32 / 100.0
        })
        .collect()
}

#[test]
fn l2_sq_is_the_sum_of_squared_differences() {
    assert_eq!(l2_sq(&[1.0f32, 2.0], &[4.0, 6.0], 0.0), 25.0);
    assert_eq!(l2_sq(&[1i64, 2, 3], &[1, 2, 3], 0), 0);
    assert_eq!(l2_sq(&[1i64, -2, 3], &[-1, 2, 0], 0), 4 + 16 + 9);
    let empty: [f32; 0] = [];
    assert_eq!(l2_sq(&empty, &empty, 0.0), 0.0);
    assert_eq!(l2_sq(&empty, &empty, 7.0), 7.0);
}

#[test]
fn best_two_finds_nearest_and_second_nearest() {
    let set: Vec<f32> = vec![3.0, 4.0, 1.0, 0.0, 0.0, 2.0];
    assert_eq!(best_two_in_set(&[0.0, 0.0], &set, 2, 0.0, INF), Some((1, 1.0, 4.0)));
    // the nearest comes last: the former best becomes the second
    let ordered: Vec<f32> = vec![3.0, 0.0, 2.0, 0.0, 1.0, 0.0];
    assert_eq!(best_two_in_set(&[0.0, 0.0], &ordered, 2, 0.0, INF), Some((2, 1.0, 4.0)));
    // whole numbers
    let ints: Vec<i64> = vec![5, 5, 0, 1, 9, 9];
    assert_eq!(best_two_in_set(&[0i64, 0], &ints, 2, 0, i64::MAX), Some((1, 1, 50)));
}

#[test]
fn best_two_of_a_single_candidate_has_no_second() {
    assert_eq!(best_two_in_set(&[0.0f32], &[2.0], 1, 0.0, INF), Some((0, 4.0, INF)));
}

#[test]
fn best_two_of_equal_distances_keeps_the_first() {
    let set: Vec<f32> = vec![1.0, -1.0, 1.0];
    assert_eq!(best_two_in_set(&[0.0f32], &set, 1, 0.0, INF), Some((0, 1.0, 1.0)));
}

#[test]
fn best_two_of_nothing_is_none() {
    let empty: [f32; 0] = [];
    assert_eq!(best_two_in_set(&[0.0f32, 0.0], &empty, 2, 0.0, INF), None);
    assert_eq!(best_two_in_set(&[0.0f32, 0.0], &[1.0], 2, 0.0, INF), None);
    assert_eq!(best_two_in_set(&empty, &[1.0, 2.0], 0, 0.0, INF), None);
    // no distance is below the starting value
    assert_eq!(best_two_in_set(&[0.0f32], &[INF, f32::NAN], 1, 0.0, INF), None);
}

#[test]
fn best_index_finds_the_nearest() {
    let set: Vec<f32> = vec![3.0, 4.0, 1.0, 0.0, 0.0, 2.0];
    assert_eq!(best_index_in_set(&[0.0, 0.0], &set, 2, 0.0, INF), Some(1));
    assert_eq!(best_index_in_set(&[0.0, 2.0], &set, 2, 0.0, INF), Some(2));
    assert_eq!(best_index_in_set(&[0.0f32], &[1.0, -1.0, 1.0], 1, 0.0, INF), Some(0));
    assert_eq!(best_index_in_set(&[7i64], &[1, 5, 8, 12], 1, 0, i64::MAX), Some(2));
}

#[test]
fn best_index_of_nothing_is_none_and_of_unreachable_is_zero() {
    let empty: [f32; 0] = [];
    assert_eq!(best_index_in_set(&[0.0f32, 0.0], &empty, 2, 0.0, INF), None);
    assert_eq!(best_index_in_set(&empty, &[1.0, 2.0], 0, 0.0, INF), None);
    assert_eq!(best_index_in_set(&[0.0f32], &[INF, f32::NAN], 1, 0.0, INF), Some(0));
}

#[test]
fn is_finite_tells_numbers_from_infinities() {
    assert!(is_finite(0.0f32, INF));
    assert!(is_finite(-3.5e30f32, INF));
    assert!(is_finite(f32::MAX, INF));
    assert!(!is_finite(INF, INF));
    assert!(!is_finite(-INF, INF));
    assert!(!is_finite(f32::NAN, INF));
    let values: [f32; 8] = [0.0, -0.0, 1.0, f32::MIN, f32::MAX, INF, -INF, f32::NAN];
    for v in values {
        assert_eq!(is_finite(v, INF), v.is_finite());
    }
    assert!(is_finite(5i64, 100));
    assert!(!is_finite(100i64, 100));
    assert!(!is_finite(-100i64, 100));
}

#[test]
fn ratio_test_accepts_only_clear_winners() {
    assert!(ratio_test(1.0f32, 9.0, 0.8, 0.0, INF));
    assert!(ratio_test(0.0f32, 9.0, 0.8, 0.0, INF));
    assert!(ratio_test(7.9f32, 10.0, 0.8, 0.0, INF));
    // the ratio equals the bound
    assert!(!ratio_test(8.0f32, 10.0, 0.8, 0.0, INF));
    assert!(!ratio_test(1.0f32, 1.0, 0.8, 0.0, INF));
    // the second is zero, infinite or not a number
    assert!(!ratio_test(0.0f32, 0.0, 0.8, 0.0, INF));
    assert!(!ratio_test(1.0f32, INF, 0.8, 0.0, INF));
    assert!(!ratio_test(1.0f32, f32::NAN, 0.8, 0.0, INF));
    assert!(!ratio_test(f32::NAN, 2.0, 0.8, 0.0, INF));
    assert!(!ratio_test(INF, INF, 0.8, 0.0, INF));
}

#[test]
fn matches_are_found_in_query_order() {
    let desc1: Vec<f32> = vec![0.0, 0.0, 10.0, 10.0];
    let desc2: Vec<f32> = vec![0.0, 1.0, 0.0, 3.0, 10.0, 11.0];
    let plain = match_descriptors_with_scores(&desc1, &desc2, 2, 0.8, false, 0.0, INF);
    assert_eq!(pairs(&plain), vec![(0, 0, 1.0), (1, 2, 1.0)]);
    let mutual = match_descriptors_with_scores(&desc1, &desc2, 2, 0.8, true, 0.0, INF);
    assert_eq!(pairs(&mutual), vec![(0, 0, 1.0), (1, 2, 1.0)]);
}

#[test]
fn ambiguous_matches_are_rejected() {
    // both candidates are equally near
    let tie = match_descriptors_with_scores(&[0.0f32, 0.0], &[0.0, 1.0, 1.0, 0.0], 2, 0.8, false, 0.0, INF);
    assert!(tie.is_empty());
    // two exact copies: the second distance is zero
    let copies = match_descriptors_with_scores(&[5.0f32], &[5.0, 5.0], 1, 0.8, false, 0.0, INF);
    assert!(copies.is_empty());
    // a single candidate has no second distance
    let single = match_descriptors_with_scores(&[5.0f32], &[5.0], 1, 0.8, false, 0.0, INF);
    assert!(single.is_empty());
    // the same but clearly apart
    let clear = match_descriptors_with_scores(&[5.0f32], &[5.0, 50.0], 1, 0.8, false, 0.0, INF);
    assert_eq!(pairs(&clear), vec![(0, 0, 0.0)]);
}

#[test]
fn ratio_bound_is_exclusive() {
    // distances 64 and 100: the ratio is 0.64
    let desc2: Vec<f32> = vec![8.0, 10.0];
    assert!(match_descriptors_with_scores(&[0.0f32], &desc2, 1, 0.64, false, 0.0, INF).is_empty());
    assert_eq!(
        pairs(&match_descriptors_with_scores(&[0.0f32], &desc2, 1, 0.65, false, 0.0, INF)),
        vec![(0, 0, 64.0)]
    );
}

#[test]
fn cross_check_keeps_only_mutual_matches() {
    let desc1: Vec<f32> = vec![0.0, 0.0, 0.0, 1.0];
    let desc2: Vec<f32> = vec![0.0, 2.0, 0.0, 50.0];
    let plain = match_descriptors_with_scores(&desc1, &desc2, 2, 0.8, false, 0.0, INF);
    assert_eq!(pairs(&plain), vec![(0, 0, 4.0), (1, 0, 1.0)]);
    let mutual = match_descriptors_with_scores(&desc1, &desc2, 2, 0.8, true, 0.0, INF);
    assert_eq!(pairs(&mutual), vec![(1, 0, 1.0)]);
}

#[test]
fn cross_check_does_not_apply_the_ratio_test_backwards() {
    // descriptor 0 of the second set has two equally near neighbours in
    // the first set; the first of them still counts as its nearest
    let desc1: Vec<f32> = vec![1.0, -1.0];
    let desc2: Vec<f32> = vec![0.0, 100.0];
    let mutual = match_descriptors_with_scores(&desc1, &desc2, 1, 0.8, true, 0.0, INF);
    assert_eq!(pairs(&mutual), vec![(0, 0, 1.0)]);
}

#[test]
fn empty_sets_give_no_matches() {
    let empty: [f32; 0] = [];
    assert!(match_descriptors_with_scores(&empty, &[1.0, 2.0], 2, 0.8, false, 0.0, INF).is_empty());
    assert!(match_descriptors_with_scores(&[1.0f32, 2.0], &empty, 2, 0.8, true, 0.0, INF).is_empty());
    assert!(match_descriptors_with_scores(&empty, &empty, 128, 0.8, true, 0.0, INF).is_empty());
    assert!(match_descriptors_topk_impl(&empty, &empty, 128, 0.8, true, 10, 0.0, INF).is_empty());
}

#[test]
fn matching_in_whole_numbers() {
    let desc1: Vec<i64> = vec![0, 0, 10, 10];
    let desc2: Vec<i64> = vec![0, 1, 0, 3, 10, 11];
    // best / second is 1 / 9 = 0 in whole numbers, which is below 1
    let found = match_descriptors_with_scores(&desc1, &desc2, 2, 1, true, 0, i64::MAX);
    let got: Vec<(usize, usize, i64)> =
        found.iter().map(|m| (m.query, m.reference, m.distance)).collect();
    assert_eq!(got, vec![(0, 0, 1), (1, 2, 1)]);
}

#[test]
fn no_match_fails_the_ratio_test() {
    let d: usize = 4;
    let desc1 = scrambled(40, d, 1);
    let desc2 = scrambled(55, d, 2);
    for ratio in [0.3f32, 0.6, 0.8, 0.95] {
        let found = match_descriptors_with_scores(&desc1, &desc2, d, ratio, false, 0.0, INF);
        assert!(!found.is_empty());
        let mut accepted: usize = 0;
        for i in 0..40usize {
            let mut sorted = row(&desc1, i, &desc2, d);
            sorted.sort_by(|a, b| a.partial_cmp(b).unwrap());
            if sorted[1] > 0.0 && sorted[0] / sorted[1] < ratio {
                accepted += 1;
            }
        }
        assert_eq!(found.len(), accepted);
        for m in &found {
            let dists = row(&desc1, m.query, &desc2, d);
            assert_eq!(dists[m.reference], m.distance);
            let mut sorted = dists.clone();
            sorted.sort_by(|a, b| a.partial_cmp(b).unwrap());
            assert_eq!(sorted[0], m.distance);
            assert!(sorted[0] / sorted[1] < ratio);
        }
        for w in found.windows(2) {
            assert!(w[0].query < w[1].query);
        }
    }
}

#[test]
fn cross_checked_matches_are_mutual_nearest_neighbours() {
    let d: usize = 3;
    let desc1 = scrambled(60, d, 7);
    let desc2 = scrambled(45, d, 9);
    let plain = match_descriptors_with_scores(&desc1, &desc2, d, 0.9, false, 0.0, INF);
    let mutual = match_descriptors_with_scores(&desc1, &desc2, d, 0.9, true, 0.0, INF);
    assert!(!mutual.is_empty());
    assert!(mutual.len() < plain.len());
    for m in &mutual {
        let forward = row(&desc1, m.query, &desc2, d);
        for dist in &forward {
            assert!(forward[m.reference] <= *dist);
        }
        let backward = row(&desc2, m.reference, &desc1, d);
        for dist in &backward {
            assert!(backward[m.query] <= *dist);
        }
        assert_eq!(best_index_in_set(&desc1[m.query * d..(m.query + 1) * d], &desc2, d, 0.0, INF), Some(m.reference));
        assert_eq!(best_index_in_set(&desc2[m.reference * d..(m.reference + 1) * d], &desc1, d, 0.0, INF), Some(m.query));
    }
    // every mutual match is one of the plain matches
    for m in &mutual {
        assert!(plain.iter().any(|p| p.query == m.query && p.reference == m.reference));
    }
}

#[test]
fn rank_sorts_by_distance_and_keeps_ties_in_order() {
    let matches = vec![
        Match { query: 0, reference: 5, distance: 3.0f32 },
        Match { query: 1, reference: 4, distance: 1.0 },
        Match { query: 2, reference: 3, distance: 2.0 },
        Match { query: 3, reference: 2, distance: 1.0 },
        Match { query: 4, reference: 1, distance: 0.5 },
    ];
    let ranked = rank_matches(&matches);
    assert_eq!(
        pairs(&ranked),
        vec![(4, 1, 0.5), (1, 4, 1.0), (3, 2, 1.0), (2, 3, 2.0), (0, 5, 3.0)]
    );
    assert!(rank_matches(&Vec::<Match<f32>>::new()).is_empty());
}

#[test]
fn topk_gives_the_best_pairs_in_order_of_distance() {
    // queries at 0, 10, 20; candidates further and further away
    let desc1: Vec<f32> = vec![0.0, 10.0, 20.0];
    let desc2: Vec<f32> = vec![3.0, 11.0, 22.0, 1000.0];
    // distances: query 0 -> 9, query 1 -> 1, query 2 -> 4
    assert_eq!(
        match_descriptors_topk_impl(&desc1, &desc2, 1, 0.8, false, 10, 0.0, INF),
        vec![1u32, 1, 2, 2, 0, 0]
    );
    assert_eq!(
        match_descriptors_topk_impl(&desc1, &desc2, 1, 0.8, false, 3, 0.0, INF),
        vec![1u32, 1, 2, 2, 0, 0]
    );
    assert_eq!(
        match_descriptors_topk_impl(&desc1, &desc2, 1, 0.8, false, 2, 0.0, INF),
        vec![1u32, 1, 2, 2]
    );
    assert_eq!(
        match_descriptors_topk_impl(&desc1, &desc2, 1, 0.8, true, 1, 0.0, INF),
        vec![1u32, 1]
    );
    assert!(match_descriptors_topk_impl(&desc1, &desc2, 1, 0.8, false, 0, 0.0, INF).is_empty());
    assert_eq!(
        match_descriptors_topk(&desc1, &desc2, 1, 0.8, false, 2, 0.0, INF),
        vec![1u32, 1, 2, 2]
    );
}

#[test]
fn topk_is_sorted_and_no_longer_than_asked() {
    let d: usize = 4;
    let desc1 = scrambled(50, d, 3);
    let desc2 = scrambled(50, d, 4);
    let scored = match_descriptors_with_scores(&desc1, &desc2, d, 0.9, false, 0.0, INF);
    let count: usize = scored.len();
    assert!(count > 3);
    for top_k in [0usize, 1, 2, count - 1, count, count + 1, 1000] {
        let out = match_descriptors_topk_impl(&desc1, &desc2, d, 0.9, false, top_k, 0.0, INF);
        assert_eq!(out.len(), 2 * top_k.min(count));
        let mut last: f32 = 0.0;
        for pair in out.chunks(2) {
            let i = pair[0] as usize;
            let j = pair[1] as usize;
            let m = scored.iter().find(|m| m.query == i).unwrap();
            assert_eq!(m.reference, j);
            assert!(last <= m.distance);
            last = m.distance;
        }
    }
    // the best pairs are a prefix of the full ranking
    let all = match_descriptors_topk_impl(&desc1, &desc2, d, 0.9, false, count, 0.0, INF);
    let some = match_descriptors_topk_impl(&desc1, &desc2, d, 0.9, false, 3, 0.0, INF);
    assert_eq!(&all[..6], some.as_slice());
}

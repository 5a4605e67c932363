use solar_sim::pairs::{
    checked_pair_count, fence_pairs, next_pair, pair_at_rank, split_pairs, walk_fence, WorkItem,
};

fn all_pairs(n: usize) -> Vec<(usize, usize)> {
    let mut out = Vec::new();
    for i in 0..n {
        for j in i + 1..n {
            out.push((i, j));
        }
    }
    out
}

#[test]
fn pair_count_small_and_overflowing() {
    assert_eq!(checked_pair_count(0), Some(0));
    assert_eq!(checked_pair_count(1), Some(0));
    assert_eq!(checked_pair_count(2), Some(1));
    assert_eq!(checked_pair_count(6), Some(15));
    assert_eq!(checked_pair_count(7), Some(21));
    assert_eq!(checked_pair_count(usize::MAX), None);
}

#[test]
fn pair_at_rank_follows_lexicographic_order() {
    let expected = all_pairs(5);
    for (k, p) in expected.iter().enumerate() {
        assert_eq!(pair_at_rank(5, k), *p);
    }
}

#[test]
fn next_pair_walks_rows() {
    assert_eq!(next_pair(4, (0, 1)), Some((0, 2)));
    assert_eq!(next_pair(4, (0, 3)), Some((1, 2)));
    assert_eq!(next_pair(4, (1, 3)), Some((2, 3)));
    assert_eq!(next_pair(4, (2, 3)), None);
}

#[test]
fn walk_fence_stops_at_end() {
    assert_eq!(walk_fence(5, (0, 4), (1, 3)), Some((1, 2)));
    assert_eq!(walk_fence(5, (1, 2), (1, 3)), Some((1, 3)));
    assert_eq!(walk_fence(5, (1, 3), (1, 3)), None);
}

#[test]
fn fence_pairs_of_a_middle_slice() {
    let item = WorkItem { start: (0, 3), end: (1, 3) };
    assert_eq!(fence_pairs(4, &item), vec![(0, 3), (1, 2), (1, 3)]);
}

#[test]
fn six_bodies_on_three_threads() {
    let slices = split_pairs(6, 3);
    assert_eq!(slices.len(), 3);
    let mut joined = Vec::new();
    for s in &slices {
        let pairs = fence_pairs(6, s);
        assert_eq!(pairs.len(), 5);
        joined.extend(pairs);
    }
    assert_eq!(joined, all_pairs(6));
    assert_eq!(slices[0], WorkItem { start: (0, 1), end: (0, 5) });
    assert_eq!(slices[1], WorkItem { start: (1, 2), end: (2, 3) });
    assert_eq!(slices[2], WorkItem { start: (2, 4), end: (4, 5) });
}

#[test]
fn uneven_split_gives_extra_pairs_to_first_slices() {
    let slices = split_pairs(5, 3);
    let sizes: Vec<usize> = slices.iter().map(|s| fence_pairs(5, s).len()).collect();
    assert_eq!(sizes, vec![4, 3, 3]);
    let joined: Vec<(usize, usize)> = slices.iter().flat_map(|s| fence_pairs(5, s)).collect();
    assert_eq!(joined, all_pairs(5));
}

#[test]
fn split_covers_every_pair_once_for_many_sizes() {
    for n in 2..12usize {
        let total = n * (n - 1) / 2;
        for threads in 1..=total {
            let slices = split_pairs(n, threads);
            assert_eq!(slices.len(), threads);
            let sizes: Vec<usize> = slices.iter().map(|s| fence_pairs(n, s).len()).collect();
            let max = *sizes.iter().max().unwrap();
            let min = *sizes.iter().min().unwrap();
            assert!(max - min <= 1);
            let joined: Vec<(usize, usize)> = slices.iter().flat_map(|s| fence_pairs(n, s)).collect();
            assert_eq!(joined, all_pairs(n));
        }
    }
}

#[test]
fn single_pair_with_many_threads() {
    let slices = split_pairs(2, 4);
    assert_eq!(slices, vec![WorkItem { start: (0, 1), end: (0, 1) }]);
}

#[test]
fn more_threads_than_pairs_caps_slices() {
    assert_eq!(split_pairs(3, 8).len(), 3);
}

#[test]
fn no_pairs_no_slices() {
    assert!(split_pairs(0, 3).is_empty());
    assert!(split_pairs(1, 3).is_empty());
    assert!(split_pairs(5, 0).is_empty());
}

#[test]
fn one_thread_takes_the_whole_grid() {
    let slices = split_pairs(4, 1);
    assert_eq!(slices, vec![WorkItem { start: (0, 1), end: (2, 3) }]);
    assert_eq!(fence_pairs(4, &slices[0]), all_pairs(4));
}

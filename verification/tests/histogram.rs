use posture_core::histogram::BinEdge;
use posture_core::histogram::NDHistogram;

fn basket_sum(h: &NDHistogram) -> u64 {
    h.baskets.iter().sum()
}

#[test]
fn empty_input_gives_canonical_empty() {
    let h = NDHistogram::new(vec![], 3, None);
    assert_eq!(h.dim(), 0);
    assert_eq!(h.n(), 0);
    assert_eq!(h.baskets, Vec::<u64>::new());
    let h2 = NDHistogram::new(vec![vec![], vec![]], 3, None);
    assert_eq!(h2.dim(), 0);
    assert_eq!(h2.n(), 0);
    assert_eq!(h2.baskets, Vec::<u64>::new());
}

#[test]
fn two_dim_diagonal() {
    let h = NDHistogram::new(vec![vec![1, 2, 3], vec![1, 2, 3]], 3, None);
    assert_eq!(h.dim(), 2);
    assert_eq!(h.n(), 3);
    assert_eq!(h.baskets.len(), 9);
    // Each sample lands on its own diagonal basket.
    assert_eq!(h.baskets, vec![1, 0, 0, 0, 1, 0, 0, 0, 1]);
    assert_eq!(basket_sum(&h), 3);
    // Borders are evenly spaced across the observed range [1, 3]:
    // 1, 5/3, 7/3, 3 — numerators over the common denominator 3.
    let expected = vec![
        BinEdge { num: 3, den: 3 },
        BinEdge { num: 5, den: 3 },
        BinEdge { num: 7, den: 3 },
        BinEdge { num: 9, den: 3 },
    ];
    assert_eq!(h.borders.len(), 2);
    assert_eq!(h.borders[0], expected);
    assert_eq!(h.borders[1], expected);
}

#[test]
fn building_twice_is_deterministic() {
    let data = vec![vec![4, 8, 15, 16, 23, 42], vec![1, 1, 2, 3, 5, 8]];
    let a = NDHistogram::new(data.clone(), 4, None);
    let b = NDHistogram::new(data, 4, None);
    assert_eq!(a.baskets, b.baskets);
    assert_eq!(a.borders, b.borders);
}

#[test]
fn out_of_range_samples_are_dropped() {
    let h = NDHistogram::new(vec![vec![0, 5, 100]], 2, Some(vec![Some((0, 10))]));
    assert_eq!(h.baskets.len(), 2);
    // 0 -> bin 0, 5 -> bin 1, 100 -> off the grid.
    assert_eq!(h.baskets, vec![1, 1]);
    assert!(basket_sum(&h) <= 3);
    assert_eq!(basket_sum(&h), 2);
}

#[test]
fn below_range_samples_saturate_to_first_bin() {
    let h = NDHistogram::new(vec![vec![-50, 3]], 2, Some(vec![Some((0, 10))]));
    assert_eq!(h.baskets, vec![2, 0]);
}

#[test]
fn sum_equals_samples_when_all_in_range() {
    let h = NDHistogram::new(vec![vec![1, 2, 3, 4, 5, 5, 1]], 4, None);
    assert_eq!(basket_sum(&h), 7);
}

#[test]
fn grid_size_is_n_to_the_dim() {
    let h = NDHistogram::new(vec![vec![1, 2], vec![3, 4], vec![5, 6]], 2, None);
    assert_eq!(h.dim(), 3);
    assert_eq!(h.n(), 2);
    assert_eq!(h.baskets.len(), 8);
}

#[test]
fn upper_edge_lands_in_last_bin() {
    // The maximum observed value must be counted, not dropped.
    let h = NDHistogram::new(vec![vec![0, 10]], 5, None);
    assert_eq!(h.baskets, vec![1, 0, 0, 0, 1]);
}

#[test]
fn constant_column_lands_in_first_bin() {
    let h = NDHistogram::new(vec![vec![7, 7, 7]], 3, None);
    assert_eq!(basket_sum(&h), 3);
    assert_eq!(h.baskets[0], 3);
}

#[test]
fn mixed_radix_dimension_zero_most_significant() {
    // One sample at coordinates (1, 0) for n = 2: index 1 * 2 + 0 = 2.
    let h = NDHistogram::new(
        vec![vec![9], vec![0]],
        2,
        Some(vec![Some((0, 10)), Some((0, 10))]),
    );
    assert_eq!(h.baskets, vec![0, 0, 1, 0]);
}

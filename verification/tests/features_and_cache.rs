use posture_core::cache::PerUserCache;
use posture_core::features::movement_score;
use posture_core::features::pitch_feature;
use posture_core::features::posture_histogram;
use posture_core::features::posture_sum;
use posture_core::features::posture_sums;
use posture_core::features::AccSample;
use posture_core::stats::Extrema;
use posture_core::stats::Transpose;

fn acc(x: i32, y: i32, z: i32) -> AccSample {
    AccSample { x, y, z }
}

#[test]
fn movement_score_length_and_padding() {
    let samples: Vec<AccSample> = (0..40).map(|i| acc(i, 2 * i, 3 * i)).collect();
    let r = movement_score(&samples, 15);
    assert_eq!(r.len(), samples.len());
    for i in 0..15 {
        assert_eq!(r[i], 0);
    }
}

#[test]
fn movement_score_window_sums() {
    let samples = vec![acc(0, 0, 0), acc(1, 2, 3), acc(1, 2, 3), acc(0, 0, 0)];
    // differences: 6, 0, 6
    let r = movement_score(&samples, 1);
    assert_eq!(r, vec![0, 6, 0, 6]);
    let r2 = movement_score(&samples, 2);
    assert_eq!(r2, vec![0, 0, 6, 6]);
    // The conventional score value divides by the window and by 8.
    assert_eq!(r[1] as f64 / (1.0 * 8.0), 0.75);
}

#[test]
fn movement_score_short_input_is_all_zero() {
    let samples = vec![acc(5, 5, 5), acc(9, 9, 9)];
    let r = movement_score(&samples, 15);
    assert_eq!(r, vec![0, 0]);
}

#[test]
fn posture_sum_takes_first_nine() {
    let angles: Vec<i64> = vec![1, 2, 3, 4, 5, 6, 7, 8, 9, 1000];
    assert_eq!(posture_sum(&angles), 45);
    let short: Vec<i64> = vec![10, 20];
    assert_eq!(posture_sum(&short), 30);
}

#[test]
fn posture_sums_maps_rows() {
    let rows = vec![vec![1, 1, 1], vec![2; 12]];
    assert_eq!(posture_sums(&rows), vec![3, 18]);
}

#[test]
fn pitch_feature_is_exact_in_half_units() {
    // pitch - 1.5 * atan, both doubled: 2*10 - 3*4 = 8.
    assert_eq!(pitch_feature(10, 4), 8);
    assert_eq!(pitch_feature(0, -2), 6);
}

#[test]
fn posture_histogram_two_dims() {
    let h = posture_histogram(
        vec![-5, 0, 5],
        vec![10, 20, 30],
        3,
        Some(vec![Some((-10, 10)), Some((0, 40))]),
    );
    assert_eq!(h.dim(), 2);
    assert_eq!(h.n(), 3);
    let total: u64 = h.baskets.iter().sum();
    assert_eq!(total, 3);
}

#[test]
fn cache_hit_needs_matching_params() {
    let mut cache: PerUserCache<String> = PerUserCache::new();
    assert!(cache.lookup(1, Some(5)).is_none());
    cache.publish(1, Some(5), String::from("alpha"));
    assert_eq!(cache.lookup(1, Some(5)), Some(&String::from("alpha")));
    assert!(cache.lookup(1, Some(6)).is_none());
    assert!(cache.lookup(2, Some(5)).is_none());
    assert_eq!(cache.len(), 1);
}

#[test]
fn cache_publish_replaces_stale_entry() {
    let mut cache: PerUserCache<String> = PerUserCache::new();
    cache.publish(1, Some(5), String::from("alpha"));
    cache.publish(1, None, String::from("beta"));
    assert!(cache.lookup(1, Some(5)).is_none());
    assert_eq!(cache.lookup(1, None), Some(&String::from("beta")));
    assert_eq!(cache.len(), 1);
}

#[test]
fn cache_invalidate_is_explicit() {
    let mut cache: PerUserCache<u32> = PerUserCache::new();
    cache.publish(7, None, 99);
    cache.invalidate(7);
    assert!(cache.lookup(7, None).is_none());
    assert_eq!(cache.len(), 0);
}

#[test]
fn extrema_of_column() {
    let v: Vec<i64> = vec![5, -3, 12, 0];
    assert_eq!(v.extrema(), (-3, 12));
    let empty: Vec<i64> = vec![];
    assert_eq!(empty.extrema(), (i64::MAX, i64::MIN));
}

#[test]
fn transpose_swaps_rows_and_columns() {
    let m: Vec<Vec<i64>> = vec![vec![1, 2], vec![3, 4], vec![5, 6]];
    assert_eq!(m.transpose(), vec![vec![1, 3, 5], vec![2, 4, 6]]);
    let empty: Vec<Vec<i64>> = vec![];
    assert_eq!(empty.transpose(), Vec::<Vec<i64>>::new());
    let empty_rows: Vec<Vec<i64>> = vec![vec![], vec![]];
    assert_eq!(empty_rows.transpose(), vec![Vec::<i64>::new()]);
}

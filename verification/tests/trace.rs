use otdr_viewer::trace::{downsample_min_max, TRACE_BUCKETS};

/// A key that orders as the level does under `<`; NaN has none.
fn level_key(x: f64) -> Option<i64> {
    if x.is_nan() {
        return None;
    }
    let x = if x == 0.0 { 0.0 } else { x };
    let bits = x.to_bits() as i64;
    Some(if bits < 0 { bits ^ i64::MAX } else { bits })
}

fn ramp(num: usize) -> (Vec<f64>, Vec<f64>) {
    let distance: Vec<f64> = (0..num).map(|i| i as f64 * 0.001).collect();
    let level: Vec<f64> = (0..num).map(|i| -(i as f64) * 0.01).collect();
    (distance, level)
}

fn keys(level: &[f64]) -> Vec<Option<i64>> {
    level.iter().map(|x| level_key(*x)).collect()
}

#[test]
fn downsample_passes_short_traces_through() {
    let (distance, level) = ramp(100);
    let idx = downsample_min_max(distance.len(), &keys(&level), 2048);
    assert_eq!(idx.len(), 100);
    let kept: Vec<f64> = idx.iter().map(|i| level[*i]).collect();
    assert_eq!(kept, level);
}

#[test]
fn downsample_caps_point_count() {
    let (distance, level) = ramp(30_000);
    let idx = downsample_min_max(distance.len(), &keys(&level), TRACE_BUCKETS);
    assert!(idx.len() <= 4096);
    assert!(idx.windows(2).all(|w| w[0] < w[1]));
    assert!(idx.iter().all(|i| *i < 30_000));
}

#[test]
fn downsample_preserves_narrow_spike() {
    let (distance, mut level) = ramp(30_000);
    level[12_345] = 5.0;
    let idx = downsample_min_max(distance.len(), &keys(&level), 2048);
    assert!(idx.contains(&12_345));
    assert!(idx.iter().any(|i| level[*i] == 5.0));
}

#[test]
fn downsample_handles_tiny_inputs() {
    for num in [0usize, 1, 2] {
        let (distance, level) = ramp(num);
        let idx = downsample_min_max(distance.len(), &keys(&level), 2048);
        assert_eq!(idx.len(), num);
    }
}

#[test]
fn downsample_uses_shorter_of_the_two_series() {
    let (distance, level) = ramp(10);
    let idx = downsample_min_max(4, &keys(&level), 2048);
    assert_eq!(idx, vec![0, 1, 2, 3]);
    let idx = downsample_min_max(distance.len(), &keys(&level[..3]), 2048);
    assert_eq!(idx, vec![0, 1, 2]);
}

#[test]
fn downsample_keeps_min_and_max_of_each_bucket() {
    // 10 points into 2 buckets of 5: [3,1,4,1,5] and [9,2,6,5,3].
    let level = vec![3.0, 1.0, 4.0, 1.0, 5.0, 9.0, 2.0, 6.0, 5.0, 3.0];
    let idx = downsample_min_max(level.len(), &keys(&level), 2);
    // Bucket 0: first minimum at 1, maximum at 4; bucket 1: maximum at 5, minimum at 6.
    assert_eq!(idx, vec![1, 4, 5, 6]);
}

#[test]
fn downsample_flat_bucket_keeps_one_point() {
    let level = vec![1.0; 9];
    let idx = downsample_min_max(level.len(), &keys(&level), 2);
    // Buckets 0..4 and 4..9: every level equal, so the first index of each.
    assert_eq!(idx, vec![0, 4]);
}

#[test]
fn downsample_ignores_nan_levels() {
    let level = vec![f64::NAN, 2.0, 1.0, 3.0, 0.5];
    let idx = downsample_min_max(level.len(), &keys(&level), 2);
    // One bucket 0..2 keeps 0 (NaN compares with nothing); bucket 2..5: min 4, max 3.
    assert_eq!(idx, vec![0, 3, 4]);
}

#[test]
fn downsample_keeps_a_global_extreme_among_ties() {
    // The highest level 9 occurs twice, the lowest 0 three times, across buckets.
    let level = vec![5.0, 9.0, 3.0, 9.0, 0.0, 4.0, 0.0, 2.0, 0.0, 6.0, 1.0];
    let idx = downsample_min_max(level.len(), &keys(&level), 2);
    assert!(idx.iter().any(|i| level[*i] == 9.0));
    assert!(idx.iter().any(|i| level[*i] == 0.0));
}

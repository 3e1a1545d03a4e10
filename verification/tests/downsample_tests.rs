use aquarium_telemetry::downsample::downsample;
use aquarium_telemetry::telemetry::TimeSeriesPoint;

fn pts(vals: &[(i64, i64)]) -> Vec<TimeSeriesPoint> {
    vals.iter().map(|&(t, v)| TimeSeriesPoint::new(t, v)).collect()
}

#[test]
fn small_input_is_returned_unchanged() {
    let input = pts(&[(1, 10), (2, 20), (3, 30)]);
    let out = downsample(input.clone(), 5);
    assert_eq!(out.len(), 3);
    for (a, b) in out.iter().zip(input.iter()) {
        assert_eq!(a, b);
    }
}

#[test]
fn oversized_input_is_bucket_averaged() {
    // 10 points reduced to at most 3: buckets of 4, 4 and 2
    let input: Vec<TimeSeriesPoint> =
        (0..10).map(|i| TimeSeriesPoint::new(100 + i, i)).collect();
    let out = downsample(input, 3);
    assert_eq!(out.len(), 3);
    // bucket [0,1,2,3]: middle timestamp index 2, mean 6/4 = 1
    assert_eq!(out[0], TimeSeriesPoint::new(102, 1));
    // bucket [4,5,6,7]: middle timestamp index 6, mean 22/4 = 5
    assert_eq!(out[1], TimeSeriesPoint::new(106, 5));
    // bucket [8,9]: middle timestamp index 9, mean 17/2 = 8
    assert_eq!(out[2], TimeSeriesPoint::new(109, 8));
}

#[test]
fn negative_means_floor() {
    let out = downsample(pts(&[(1, -3), (2, -4)]), 1);
    assert_eq!(out.len(), 1);
    assert_eq!(out[0], TimeSeriesPoint::new(2, -4));
}

#[test]
fn zero_bound_collapses_to_one_bucket() {
    let out = downsample(pts(&[(1, 2), (2, 4), (3, 6)]), 0);
    assert_eq!(out.len(), 1);
    assert_eq!(out[0], TimeSeriesPoint::new(2, 4));
}

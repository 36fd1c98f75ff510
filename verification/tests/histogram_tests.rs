use protobench::histogram::LatencyHistogram;
use protobench::histogram::MAX_TRACKABLE_MICROS;

fn filled(values: &[u64]) -> LatencyHistogram {
    let mut h = LatencyHistogram::new();
    for v in values {
        h.record(*v);
    }
    h
}

#[test]
fn empty_histogram_answers_zero() {
    let h = LatencyHistogram::new();
    assert_eq!(h.len(), 0);
    assert_eq!(h.value_at_quantile(0), 0);
    assert_eq!(h.value_at_quantile(500), 0);
    assert_eq!(h.value_at_quantile(1000), 0);
    assert_eq!(h.mean_micros(), 0);
    assert_eq!(h.stdev_micros(), 0);
}

#[test]
fn single_sample_is_every_quantile() {
    let h = filled(&[42]);
    assert_eq!(h.len(), 1);
    for q in [0u64, 1, 250, 500, 950, 990, 1000] {
        assert_eq!(h.value_at_quantile(q), 42);
    }
    assert_eq!(h.mean_micros(), 42);
    assert_eq!(h.stdev_micros(), 0);
}

#[test]
fn median_of_five_distinct_samples() {
    let h = filled(&[3, 1, 4, 5, 2]);
    assert_eq!(h.value_at_quantile(500), 3);
    assert_eq!(h.value_at_quantile(0), 1);
    assert_eq!(h.value_at_quantile(1000), 5);
}

#[test]
fn median_lies_between_min_and_max() {
    let cases: &[&[u64]] = &[
        &[10],
        &[1, 1_000_000],
        &[7, 7, 7, 7],
        &[5, 9, 1, 33, 12, 2, 2],
        &[0, 0, 3],
    ];
    for values in cases {
        let h = filled(values);
        let lo = *values.iter().min().unwrap();
        let hi = *values.iter().max().unwrap();
        let m = h.value_at_quantile(500);
        assert!(lo <= m && m <= hi);
    }
}

#[test]
fn quantiles_are_monotone_in_the_quantile() {
    let h = filled(&[9, 33, 2, 150_000, 4, 4, 71, 800]);
    let mut prev = 0;
    for q in 0..=1000u64 {
        let v = h.value_at_quantile(q);
        assert!(prev <= v);
        prev = v;
    }
}

#[test]
fn quantile_answers_are_recorded_values() {
    let values = [13u64, 999, 77, 500_000, 77, 13];
    let h = filled(&values);
    for q in [0u64, 100, 500, 900, 1000] {
        let v = h.value_at_quantile(q);
        assert!(values.contains(&v));
    }
}

#[test]
fn mean_rounds_down() {
    assert_eq!(filled(&[2, 4]).mean_micros(), 3);
    assert_eq!(filled(&[1, 2]).mean_micros(), 1);
    assert_eq!(filled(&[10, 11, 11]).mean_micros(), 10);
}

#[test]
fn stdev_of_symmetric_pairs() {
    assert_eq!(filled(&[2, 4]).stdev_micros(), 1);
    assert_eq!(filled(&[1, 5]).stdev_micros(), 2);
    assert_eq!(filled(&[3, 3, 3]).stdev_micros(), 0);
}

#[test]
fn stdev_rounds_down_to_whole_microseconds() {
    // Variance of {0, 1} is 0.25, so the deviation rounds down to 0.
    assert_eq!(filled(&[0, 1]).stdev_micros(), 0);
    // Variance of {0, 3} is 2.25, deviation 1.5, rounded down to 1.
    assert_eq!(filled(&[0, 3]).stdev_micros(), 1);
}

#[test]
fn samples_beyond_the_range_are_clamped() {
    let h = filled(&[u64::MAX]);
    assert_eq!(h.value_at_quantile(500), MAX_TRACKABLE_MICROS);
    assert_eq!(h.mean_micros(), MAX_TRACKABLE_MICROS);
}

#[test]
fn large_samples_keep_their_exact_value() {
    // A bucket may span many values, but the answer is a recorded sample.
    for v in [1_000_000u64, 123_456_789, MAX_TRACKABLE_MICROS] {
        let h = filled(&[v]);
        assert_eq!(h.value_at_quantile(500), v);
    }
}

#[test]
fn close_large_samples_answer_within_their_spread() {
    // Samples this close may share a bucket; the answer is still one of
    // them, never something the trial did not measure.
    let values: Vec<u64> = (1_000_000u64..1_000_010).collect();
    let h = filled(&values);
    for q in [0u64, 500, 950, 990, 1000] {
        let v = h.value_at_quantile(q);
        assert!(values.contains(&v));
    }
}

#[test]
fn duplicates_weigh_the_median() {
    let h = filled(&[1, 1, 1, 1, 100]);
    assert_eq!(h.value_at_quantile(500), 1);
    let h2 = filled(&[1, 100, 100, 100, 100]);
    assert_eq!(h2.value_at_quantile(500), 100);
}

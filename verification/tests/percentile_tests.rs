use forecast_bands::percentile::{percentile, percentile_index, sort_samples, MIN_SAMPLES};

#[test]
fn five_sorted_samples_level_20_and_80() {
    let samples: Vec<i64> = vec![10, 20, 30, 40, 50];
    assert_eq!(percentile(&samples, 20), Some(20));
    assert_eq!(percentile(&samples, 80), Some(50));
}

#[test]
fn fewer_than_five_samples_give_nothing() {
    for level in [20usize, 40, 60, 80] {
        for len in 0..MIN_SAMPLES {
            let samples: Vec<i64> = (0..len as i64).collect();
            assert_eq!(percentile(&samples, level), None);
        }
    }
}

#[test]
fn index_stays_in_range_for_small_sizes() {
    assert_eq!(percentile_index(5, 80), 4);
    assert_eq!(percentile_index(6, 80), 4);
    assert_eq!(percentile_index(7, 80), 5);
    for len in 5usize..=7 {
        for level in [20usize, 40, 60, 80] {
            assert!(percentile_index(len, level) <= len - 1);
        }
    }
}

#[test]
fn samples_are_ranked_ascending() {
    let samples: Vec<i64> = vec![5, -3, 9, 0, 5, 2];
    assert_eq!(sort_samples(&samples), vec![-3, 0, 2, 5, 5, 9]);
}

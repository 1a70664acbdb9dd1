use lmbench::error::BenchError;
use lmbench::stats::{calculate_stats, isqrt, sample_mean, sample_sum, Stats};

#[test]
fn single_sample_summary() {
    let st = calculate_stats(&vec![5000]).unwrap();
    assert_eq!(
        st,
        Stats {
            min: 5000,
            p_25: 5000,
            median: 5000,
            p_75: 5000,
            max: 5000,
            mode: 5000,
            mean: 5000,
            std_dev: 0,
        }
    );
}

#[test]
fn four_sample_summary() {
    let st = calculate_stats(&vec![1000, 2000, 3000, 4000]).unwrap();
    assert_eq!(st.mean, 2500);
    assert_eq!(st.std_dev, 1118);
    assert_eq!(st.median, 3000);
    assert_eq!(st.min, 1000);
    assert_eq!(st.max, 4000);
    assert_eq!(st.p_25, 2000);
    assert_eq!(st.p_75, 4000);
}

#[test]
fn mode_uses_hundredth_microsecond_bins() {
    let st = calculate_stats(&vec![1001, 1004, 2000]).unwrap();
    assert_eq!(st.mode, 1000);
    assert_eq!(st.mean, 1335);
    assert_ne!(st.mode, st.mean);
}

#[test]
fn mode_tie_takes_lowest_bin() {
    let st = calculate_stats(&vec![2005, 10, 2001, 15]).unwrap();
    assert_eq!(st.mode, 10);
}

#[test]
fn empty_input_is_refused() {
    assert_eq!(calculate_stats(&vec![]), Err(BenchError::EmptyInput));
}

#[test]
fn order_statistics_are_ordered_on_unsorted_input() {
    let v = vec![9, 3, 7, 1, 8, 2, 6, 4, 5];
    let st = calculate_stats(&v).unwrap();
    assert!(st.min <= st.p_25 && st.p_25 <= st.median);
    assert!(st.median <= st.p_75 && st.p_75 <= st.max);
    assert_eq!((st.min, st.p_25, st.median, st.p_75, st.max), (1, 3, 5, 7, 9));
    assert_eq!(st.mean, 5);
}

#[test]
fn std_dev_is_population_deviation() {
    // deviations from 5: 3, 1, 1, 1, 0, 0, 2, 4 -> squares sum to 32, / 8 = 4
    let st = calculate_stats(&vec![2, 4, 4, 4, 5, 5, 7, 9]).unwrap();
    assert_eq!(st.mean, 5);
    assert_eq!(st.std_dev, 2);
}

#[test]
fn mean_truncates() {
    assert_eq!(sample_mean(&vec![1, 2]), 1);
    assert_eq!(sample_mean(&vec![u64::MAX, u64::MAX]), u64::MAX);
    assert_eq!(sample_sum(&vec![u64::MAX, 1]), u64::MAX as u128 + 1);
}

#[test]
fn integer_square_root() {
    assert_eq!(isqrt(0), 0);
    assert_eq!(isqrt(1_250_000), 1118);
    assert_eq!(isqrt(16), 4);
    assert_eq!(isqrt(15), 3);
    assert_eq!(isqrt(u128::MAX), u64::MAX);
}

#[test]
fn large_samples_do_not_overflow() {
    let st = calculate_stats(&vec![0, u64::MAX]).unwrap();
    assert_eq!(st.mean, u64::MAX / 2);
    assert_eq!(st.std_dev, u64::MAX / 2);
}

#[test]
fn summary_values_are_samples() {
    let v = vec![40, 10, 30, 20, 50, 60, 70];
    let st = calculate_stats(&v).unwrap();
    for x in [st.min, st.p_25, st.median, st.p_75, st.max] {
        assert!(v.contains(&x));
    }
    assert!(v.iter().all(|x| st.min <= *x && *x <= st.max));
    assert_eq!((st.min, st.p_25, st.median, st.p_75, st.max), (10, 20, 40, 60, 70));
}

#[test]
fn duplicate_samples_keep_their_count() {
    let st = calculate_stats(&vec![7, 7, 3, 7]).unwrap();
    assert_eq!((st.min, st.p_25, st.median, st.p_75, st.max), (3, 7, 7, 7, 7));
    assert_eq!(st.mode, 0);
    let st = calculate_stats(&vec![75, 75, 31, 77]).unwrap();
    assert_eq!(st.mode, 70);
}

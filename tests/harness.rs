use lmbench::error::BenchError;
use lmbench::harness::{
    calibrate, exceeds_tolerance, run_benchmark, run_trial, summarize_run, trial_sample,
    BenchConfig, ITERATIONS, THRESHOLD_ERROR_RATIO, TRIES,
};
use lmbench::timer::{get_timer_value, timestamp_from_reading};

#[test]
fn trial_subtracts_overhead_once() {
    let t = trial_sample(100, 300, 50, 3);
    assert!(!t.overhead_skipped);
    assert_eq!(t.elapsed, 150);
    assert_eq!(t.latency, 50);
}

#[test]
fn trial_keeps_raw_time_below_overhead() {
    let t = trial_sample(100, 150, 80, 5);
    assert!(t.overhead_skipped);
    assert_eq!(t.elapsed, 50);
    assert_eq!(t.latency, 10);
}

#[test]
fn trial_with_clock_going_back_is_zero() {
    let t = trial_sample(300, 100, 0, 1);
    assert_eq!(t.elapsed, 0);
    assert_eq!(t.latency, 0);
}

#[test]
fn run_trial_runs_body_and_times_it() {
    let calls = std::cell::Cell::new(0usize);
    let body = || {
        calls.set(calls.get() + 1);
        Ok(())
    };
    let t = run_trial(0, 4, &body).unwrap();
    assert_eq!(calls.get(), 1);
    assert!(t.end >= t.start);
    assert_eq!(t.latency, (t.end - t.start) / 4);
}

#[test]
fn run_trial_propagates_body_failure() {
    let body = || Err(BenchError::OperationFailed);
    assert_eq!(run_trial(0, 1, &body), Err(BenchError::OperationFailed));
}

#[test]
fn tolerance_band() {
    assert!(!exceeds_tolerance(100, 90, 110, 1));
    assert!(exceeds_tolerance(100, 90, 111, 1));
    assert!(exceeds_tolerance(100, 89, 100, 1));
    assert!(!exceeds_tolerance(100, 80, 120, 2));
}

#[test]
fn summarize_run_flags_wide_spread() {
    let quiet = summarize_run(vec![100, 100, 100], THRESHOLD_ERROR_RATIO);
    assert_eq!((quiet.mean, quiet.min, quiet.max, quiet.noisy), (100, 100, 100, false));
    let noisy = summarize_run(vec![50, 100, 150], THRESHOLD_ERROR_RATIO);
    assert_eq!((noisy.mean, noisy.min, noisy.max, noisy.noisy), (100, 50, 150, true));
    assert!(noisy.max - noisy.min > noisy.mean / 10);
}

#[test]
fn run_benchmark_calls_each_trial_in_order() {
    let trial = |i: usize| Ok(10 * (i as u64 + 1));
    let run = run_benchmark(4, 1, &trial).unwrap();
    assert_eq!(run.samples, vec![10, 20, 30, 40]);
    assert_eq!(run.mean, 25);
    assert_eq!(run.min, 10);
    assert_eq!(run.max, 40);
    assert!(run.noisy);
}

#[test]
fn run_benchmark_stops_at_failing_trial() {
    let trial = |i: usize| if i == 2 { Err(BenchError::OperationFailed) } else { Ok(1) };
    assert_eq!(run_benchmark(5, 1, &trial).unwrap_err(), BenchError::OperationFailed);
}

#[test]
fn timestamps_from_readings() {
    assert_eq!(timestamp_from_reading(1, 500), Ok(1_000_000_500));
    assert_eq!(timestamp_from_reading(0, 0), Ok(0));
    assert_eq!(timestamp_from_reading(-1, 0), Err(BenchError::TimerUnavailable));
    assert_eq!(timestamp_from_reading(0, 1_000_000_000), Err(BenchError::TimerUnavailable));
    assert_eq!(timestamp_from_reading(0, -1), Err(BenchError::TimerUnavailable));
    assert_eq!(timestamp_from_reading(i64::MAX, 0), Err(BenchError::TimerUnavailable));
    assert_eq!(
        timestamp_from_reading(18_446_744_073, 709_551_615),
        Ok(u64::MAX)
    );
    assert_eq!(
        timestamp_from_reading(18_446_744_073, 709_551_616),
        Err(BenchError::TimerUnavailable)
    );
}

#[test]
fn timer_is_monotonic() {
    let a = get_timer_value().unwrap();
    let b = get_timer_value().unwrap();
    assert!(b >= a);
    assert!(a > 0);
}

#[test]
fn calibration_succeeds() {
    let o = calibrate(1000, 3).unwrap();
    // a clock read takes well under a millisecond
    assert!(o < 1_000_000);
}

#[test]
fn standard_config() {
    let c = BenchConfig::standard();
    assert_eq!(c.iterations, ITERATIONS);
    assert_eq!(c.trials, TRIES);
    assert_eq!(c.iterations, 100);
    assert_eq!(c.trials, 10);
    assert_eq!(c.error_ratio, 1);
    assert_eq!(c.calibration_iterations, 10_000);
    assert_eq!(c.calibration_trials, 10);
}

#[test]
fn run_trial_never_subtracts_more_than_elapsed() {
    let body = || Ok(());
    let t = run_trial(u64::MAX, 1, &body).unwrap();
    assert!(t.overhead_skipped);
    assert_eq!(t.latency, t.end - t.start);
}

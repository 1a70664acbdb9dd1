use std::cell::Cell;

use lmbench::bench::{
    do_ctx, do_fs_create_del, do_fs_delete, do_fs_read, do_memory_map, do_mmap_only, do_null,
    do_open2close, do_pipe_bandwidth, fs_file_sizes, rate_per_sec, repeat_op, FS_SCALE,
    MMAP_SCALE, NULL_SCALE,
};
use lmbench::error::BenchError;
use lmbench::harness::BenchConfig;

fn small_config() -> BenchConfig {
    BenchConfig {
        iterations: 2,
        trials: 4,
        error_ratio: 1,
        calibration_iterations: 100,
        calibration_trials: 2,
    }
}

#[test]
fn null_benchmark_end_to_end() {
    let rep = do_null(&small_config()).unwrap();
    assert_eq!(rep.iterations, 2 * NULL_SCALE);
    assert_eq!(rep.run.samples.len(), 4);
    assert!(rep.stats.min <= rep.stats.median && rep.stats.median <= rep.stats.max);
    assert_eq!(rep.stats.mean, rep.run.mean);
    assert_eq!(rep.trials.len(), 4);
    for (t, s) in rep.trials.iter().zip(rep.run.samples.iter()) {
        assert_eq!(t.latency, *s);
        assert_eq!(t.latency, t.elapsed / rep.iterations as u64);
    }
    if rep.run.noisy {
        assert!(rep.run.max - rep.run.min > rep.run.mean / 10);
    }
}

#[test]
fn memory_map_runs_op_per_iteration() {
    let calls = Cell::new(0usize);
    let op = || {
        calls.set(calls.get() + 1);
        Ok(())
    };
    let c = small_config();
    let rep = do_memory_map(&c, &op).unwrap();
    assert_eq!(rep.iterations, 2 * MMAP_SCALE);
    assert_eq!(calls.get(), 4 * 2 * MMAP_SCALE);
}

#[test]
fn failing_operation_aborts_benchmark() {
    let op = || Err(BenchError::OperationFailed);
    let c = small_config();
    assert_eq!(do_mmap_only(&c, &op).unwrap_err(), BenchError::OperationFailed);
    assert_eq!(do_open2close(&c, &op).unwrap_err(), BenchError::OperationFailed);
}

#[test]
fn open2close_counts_iterations() {
    let calls = Cell::new(0usize);
    let op = || {
        calls.set(calls.get() + 1);
        Ok(())
    };
    let rep = do_open2close(&small_config(), &op).unwrap();
    assert_eq!(rep.iterations, 2);
    assert_eq!(calls.get(), 8);
}

#[test]
fn ctx_benchmark_spreads_over_switches() {
    let yields = Cell::new(0usize);
    let idle = || Ok(());
    let yielding = |n: usize| {
        yields.set(n);
        Ok(())
    };
    let rep = do_ctx(&small_config(), &idle, &yielding).unwrap();
    assert_eq!(yields.get(), 2000);
    assert_eq!(rep.iterations, 4000);
    assert_eq!(rep.overhead, 0);
    assert_eq!(rep.run.samples.len(), 4);
}

#[test]
fn fs_read_reports_throughput() {
    let op = || Ok(());
    let rep = do_fs_read(&small_config(), true, &op).unwrap();
    assert!(rep.with_open);
    assert_eq!(rep.latency.iterations, 2 * FS_SCALE);
    assert_eq!(rep.kib_per_sec, rate_per_sec(4096, rep.latency.run.mean) / 1024);
}

#[test]
fn fs_create_and_delete_rounds() {
    let created = Cell::new(0usize);
    let removed = Cell::new(0usize);
    let create = |_s: usize, _i: usize| {
        created.set(created.get() + 1);
        Ok(())
    };
    let remove = |_s: usize, _i: usize| {
        removed.set(removed.get() + 1);
        Ok(())
    };
    let c = small_config();
    let reps = do_fs_create_del(&c, &create, &remove).unwrap();
    assert_eq!(reps.len(), 3);
    assert_eq!(
        reps.iter().map(|r| r.file_size).collect::<Vec<_>>(),
        vec![1024, 4096, 8192]
    );
    assert!(reps.iter().all(|r| r.files == 20));
    assert_eq!((created.get(), removed.get()), (60, 60));
    let reps = do_fs_delete(&c, &create, &remove).unwrap();
    assert_eq!(reps.len(), 3);
    assert_eq!((created.get(), removed.get()), (120, 120));
    assert_eq!(fs_file_sizes(), vec![1024, 4096, 8192]);
}

#[test]
fn fs_round_cleans_up_after_failure() {
    let removed = Cell::new(0usize);
    let create = |_s: usize, i: usize| if i == 3 { Err(BenchError::OperationFailed) } else { Ok(()) };
    let remove = |_s: usize, _i: usize| {
        removed.set(removed.get() + 1);
        Ok(())
    };
    let r = do_fs_create_del(&small_config(), &create, &remove);
    assert_eq!(r.unwrap_err(), BenchError::OperationFailed);
    assert_eq!(removed.get(), 20);
}

#[test]
fn pipe_bandwidth_stops_every_peer() {
    let started = Cell::new(0usize);
    let stopped = Cell::new(0usize);
    let start = |_p: usize| {
        started.set(started.get() + 1);
        Ok(7)
    };
    let transfer = |fd: i32, _p: usize, total: usize| {
        assert_eq!(fd, 7);
        Ok(total)
    };
    let stop = |_fd: i32| {
        stopped.set(stopped.get() + 1);
        Ok(())
    };
    let rep = do_pipe_bandwidth(&small_config(), 1024, 1 << 20, &start, &transfer, &stop).unwrap();
    assert_eq!((started.get(), stopped.get()), (4, 4));
    assert_eq!(rep.run.samples.len(), 4);
    assert_eq!(rep.mib_per_sec, rep.run.mean / 1_048_576);
}

#[test]
fn pipe_bandwidth_stops_peer_when_transfer_fails() {
    let stopped = Cell::new(0usize);
    let start = |_p: usize| Ok(3);
    let transfer = |_fd: i32, _p: usize, _t: usize| Err(BenchError::OperationFailed);
    let stop = |_fd: i32| {
        stopped.set(stopped.get() + 1);
        Ok(())
    };
    let r = do_pipe_bandwidth(&small_config(), 1, 1, &start, &transfer, &stop);
    assert_eq!(r.unwrap_err(), BenchError::OperationFailed);
    assert_eq!(stopped.get(), 1);
}

#[test]
fn rates_per_second() {
    assert_eq!(rate_per_sec(4096, 1000), 4_096_000_000);
    assert_eq!(rate_per_sec(20, 3), 6_666_666_666);
    assert_eq!(rate_per_sec(1, 0), u64::MAX);
    assert_eq!(rate_per_sec(u64::MAX, 1), u64::MAX);
}

#[test]
fn repeat_op_stops_at_first_failure() {
    let calls = Cell::new(0usize);
    let op = || {
        calls.set(calls.get() + 1);
        if calls.get() == 3 { Err(BenchError::OperationFailed) } else { Ok(()) }
    };
    assert_eq!(repeat_op(&op, 10), Err(BenchError::OperationFailed));
    assert_eq!(calls.get(), 3);
    calls.set(0);
    assert_eq!(repeat_op(&op, 2), Ok(()));
}

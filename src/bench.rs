//! The benchmarks: each times a primitive operation through the harness.
//!
//! Operations that need the operating system in ways this library does not
//! take on (threads, files, memory maps, processes) come in as closures.
use vstd::prelude::*;

use crate::error::BenchError;
use crate::harness::{
    calibrate, collect_trials, is_run_summary, is_trial_sample, run_benchmark, run_trial,
    summarize_run, trial_sample,
    BenchConfig, BenchmarkRun, TrialSample, MAX_ITERATIONS,
};
use crate::harness::raw_elapsed;
use crate::stats::{calculate_stats, summarizes, Stats};
use crate::timer::get_timer_value;

verus! {

/// The result of a latency benchmark, in nanoseconds per operation.
#[derive(Debug)]
pub struct LatencyReport {
    /// The timer overhead subtracted from each trial.
    pub overhead: u64,
    /// Operations per trial.
    pub iterations: usize,
    /// Each trial as it was timed, in order.
    pub trials: Vec<TrialSample>,
    /// The per-operation latency of each trial, and what was derived from them.
    pub run: BenchmarkRun,
    pub stats: Stats,
}

/// `rep` summarizes `trials` trials by their latencies.
pub open spec fn is_latency_report(rep: LatencyReport, trials: usize, ratio: u64) -> bool {
    let s = rep.run.samples@;
    &&& s.len() == trials
    &&& rep.trials.len() == trials
    &&& forall|i: int| 0 <= i < s.len() ==> #[trigger] rep.trials@[i].latency == s[i]
    &&& is_run_summary(rep.run, ratio)
    &&& summarizes(s, rep.stats)
}

/// Moreover each trial timed `rep.iterations` operations with
/// `rep.overhead` subtracted.
pub open spec fn is_timed_report(rep: LatencyReport, trials: usize, ratio: u64) -> bool {
    &&& is_latency_report(rep, trials, ratio)
    &&& forall|i: int|
        0 <= i < rep.trials.len() ==> is_trial_sample(
            #[trigger] rep.trials@[i],
            rep.overhead,
            rep.iterations,
        )
}

/// The report of a non-empty run of trials.
fn latency_report(overhead: u64, iterations: usize, trials: Vec<TrialSample>, ratio: u64) -> (rep:
    LatencyReport)
    requires
        trials.len() > 0,
    ensures
        rep.overhead == overhead,
        rep.iterations == iterations,
        rep.trials@ == trials@,
        is_latency_report(rep, trials.len(), ratio),
{
    let mut latencies: Vec<u64> = Vec::new();
    let mut i: usize = 0;
    while i < trials.len()
        invariant
            i <= trials.len(),
            latencies.len() == i,
            forall|j: int| 0 <= j < i ==> #[trigger] latencies@[j] == trials@[j].latency,
        decreases trials.len() - i,
    {
        latencies.push(trials[i].latency);
        i = i + 1;
    }
    let run = summarize_run(latencies, ratio);
    let stats = calculate_stats(&run.samples).unwrap();
    LatencyReport { overhead, iterations, trials, run, stats }
}

/// Performs `op` `n` times, stopping at the first failure.
pub fn repeat_op<F: Fn() -> Result<(), BenchError>>(op: &F, n: usize) -> (r: Result<(), BenchError>)
    requires
        op.requires(()),
    ensures
        r matches Err(e) ==> op.ensures((), Err::<(), BenchError>(e)),
{
    let mut i: usize = 0;
    while i < n
        invariant
            i <= n,
            op.requires(()),
        decreases n - i,
    {
        op()?;
        i = i + 1;
    }
    Ok(())
}

/// Calibrates the timer, then times `config.trials` trials of `iterations`
/// calls of `op` and summarizes them.
pub fn measure_latency<F: Fn() -> Result<(), BenchError>>(
    config: &BenchConfig,
    iterations: usize,
    op: &F,
) -> (r: Result<LatencyReport, BenchError>)
    requires
        config.wf(),
        iterations > 0,
        op.requires(()),
    ensures
        r matches Ok(rep) ==> rep.iterations == iterations && is_timed_report(
            rep,
            config.trials,
            config.error_ratio,
        ),
        r matches Err(e) ==> e == BenchError::TimerUnavailable || op.ensures(
            (),
            Err::<(), BenchError>(e),
        ),
{
    let overhead = calibrate(config.calibration_iterations, config.calibration_trials)?;
    let trial = |i: usize| -> (r: Result<TrialSample, BenchError>)
        requires
            op.requires(()),
        ensures
            r matches Ok(t) ==> is_trial_sample(t, overhead, iterations),
            r matches Err(e) ==> e == BenchError::TimerUnavailable || op.ensures(
                (),
                Err::<(), BenchError>(e),
            ),
        {
            let body = || -> (r: Result<(), BenchError>)
                requires
                    op.requires(()),
                ensures
                    r matches Err(e) ==> op.ensures((), Err::<(), BenchError>(e)),
                { repeat_op(op, iterations) };
            run_trial(overhead, iterations, &body)
        };
    let trials = match collect_trials(config.trials, &trial) {
        Ok(trials) => trials,
        Err(e) => {
            proof {
                let i = choose|i: usize|
                    i < config.trials && #[trigger] trial.ensures(
                        (i,),
                        Err::<TrialSample, BenchError>(e),
                    );
            }
            return Err(e);
        },
    };
    let rep = latency_report(overhead, iterations, trials, config.error_ratio);
    assert forall|i: int| 0 <= i < rep.trials.len() implies is_trial_sample(
        #[trigger] rep.trials@[i],
        rep.overhead,
        rep.iterations,
    ) by {
        assert(trial.ensures((i as usize,), Ok::<TrialSample, BenchError>(rep.trials@[i])));
    }
    Ok(rep)
}

/// Relies on nix::unistd::getpid: one system call that does no work.
#[verifier::external_body]
fn null_syscall() {
    let _ = nix::unistd::getpid();
}

/// Null system calls per trial, for each base iteration.
pub const NULL_SCALE: usize = 1000;

/// The latency of a null system call.
pub fn do_null(config: &BenchConfig) -> (r: Result<LatencyReport, BenchError>)
    requires
        config.wf(),
    ensures
        r matches Ok(rep) ==> rep.iterations == config.iterations * NULL_SCALE
            && is_timed_report(rep, config.trials, config.error_ratio),
        r matches Err(e) ==> e == BenchError::TimerUnavailable,
{
    let op = || -> (r: Result<(), BenchError>)
        ensures
            r is Ok,
        {
            null_syscall();
            Ok(())
        };
    measure_latency(config, config.iterations * NULL_SCALE, &op)
}

/// Map and unmap cycles per trial, for each base iteration.
pub const MMAP_SCALE: usize = 100;

/// The latency of creating, touching and destroying an anonymous mapping;
/// `map_unmap` performs one such cycle.
pub fn do_memory_map<F: Fn() -> Result<(), BenchError>>(
    config: &BenchConfig,
    map_unmap: &F,
) -> (r: Result<LatencyReport, BenchError>)
    requires
        config.wf(),
        map_unmap.requires(()),
    ensures
        r matches Ok(rep) ==> rep.iterations == config.iterations * MMAP_SCALE
            && is_timed_report(rep, config.trials, config.error_ratio),
        r matches Err(e) ==> e == BenchError::TimerUnavailable || map_unmap.ensures(
            (),
            Err::<(), BenchError>(e),
        ),
{
    measure_latency(config, config.iterations * MMAP_SCALE, map_unmap)
}

/// The latency of mapping an open file, reading every byte and unmapping
/// it; `map_read` performs one such cycle.
pub fn do_mmap_only<F: Fn() -> Result<(), BenchError>>(
    config: &BenchConfig,
    map_read: &F,
) -> (r: Result<LatencyReport, BenchError>)
    requires
        config.wf(),
        map_read.requires(()),
    ensures
        r matches Ok(rep) ==> rep.iterations == config.iterations && is_timed_report(
            rep,
            config.trials,
            config.error_ratio,
        ),
        r matches Err(e) ==> e == BenchError::TimerUnavailable || map_read.ensures(
            (),
            Err::<(), BenchError>(e),
        ),
{
    measure_latency(config, config.iterations, map_read)
}

/// The latency of opening a file, mapping it, reading every byte,
/// unmapping and closing it; `open_map_read` performs one such cycle.
pub fn do_open2close<F: Fn() -> Result<(), BenchError>>(
    config: &BenchConfig,
    open_map_read: &F,
) -> (r: Result<LatencyReport, BenchError>)
    requires
        config.wf(),
        open_map_read.requires(()),
    ensures
        r matches Ok(rep) ==> rep.iterations == config.iterations && is_timed_report(
            rep,
            config.trials,
            config.error_ratio,
        ),
        r matches Err(e) ==> e == BenchError::TimerUnavailable || open_map_read.ensures(
            (),
            Err::<(), BenchError>(e),
        ),
{
    measure_latency(config, config.iterations, open_map_read)
}

/// Yields of each of the two threads per trial, for each base iteration.
pub const CTX_SCALE: usize = 1000;

/// One context-switch trial from three timestamps: the cost of starting and
/// joining two idle threads (`start` to `mid`) is the overhead subtracted
/// from starting and joining two yielding threads (`mid` to `end`), and the
/// rest is spread over the `2 * yields` switches.
pub fn ctx_sample(start: u64, mid: u64, end: u64, yields: usize) -> (r: TrialSample)
    requires
        0 < yields <= MAX_ITERATIONS * CTX_SCALE,
    ensures
        r.start == mid,
        r.end == end,
        is_trial_sample(r, raw_elapsed(start, mid) as u64, (2 * yields) as usize),
{
    let spawn_cost = if mid >= start {
        mid - start
    } else {
        0
    };
    trial_sample(mid, end, spawn_cost, 2 * yields)
}

/// `t` spreads a trial over `switches` switches, with some spawn cost
/// subtracted as the overhead.
pub open spec fn is_ctx_trial(t: TrialSample, switches: usize) -> bool {
    exists|spawn_cost: u64| is_trial_sample(t, spawn_cost, switches)
}

/// The cost of a switch between two threads that yield to each other.
///
/// `spawn_idle` starts two threads that do nothing and joins them;
/// `spawn_yield` starts two threads that each yield the given number of
/// times and joins them. Each trial subtracts its own idle-thread cost.
pub fn do_ctx<F: Fn() -> Result<(), BenchError>, G: Fn(usize) -> Result<(), BenchError>>(
    config: &BenchConfig,
    spawn_idle: &F,
    spawn_yield: &G,
) -> (r: Result<LatencyReport, BenchError>)
    requires
        config.wf(),
        spawn_idle.requires(()),
        spawn_yield.requires(((config.iterations * CTX_SCALE) as usize,)),
    ensures
        r matches Ok(rep) ==> {
            &&& rep.overhead == 0
            &&& rep.iterations == 2 * config.iterations * CTX_SCALE
            &&& is_latency_report(rep, config.trials, config.error_ratio)
            &&& forall|i: int|
                0 <= i < rep.trials.len() ==> is_ctx_trial(#[trigger] rep.trials@[i], rep.iterations)
        },
        r matches Err(e) ==> e == BenchError::TimerUnavailable || spawn_idle.ensures(
            (),
            Err::<(), BenchError>(e),
        ) || spawn_yield.ensures(((config.iterations * CTX_SCALE) as usize,), Err::<(), BenchError>(e)),
{
    let yields = config.iterations * CTX_SCALE;
    let switches = 2 * yields;
    let trial = |i: usize| -> (r: Result<TrialSample, BenchError>)
        requires
            spawn_idle.requires(()),
            spawn_yield.requires((yields,)),
        ensures
            r matches Ok(t) ==> is_ctx_trial(t, switches),
            r matches Err(e) ==> e == BenchError::TimerUnavailable || spawn_idle.ensures(
                (),
                Err::<(), BenchError>(e),
            ) || spawn_yield.ensures((yields,), Err::<(), BenchError>(e)),
        {
            let start = get_timer_value()?;
            spawn_idle()?;
            let mid = get_timer_value()?;
            spawn_yield(yields)?;
            let end = get_timer_value()?;
            let t = ctx_sample(start, mid, end, yields);
            let ghost spawn_cost = raw_elapsed(start, mid) as u64;
            assert(is_trial_sample(t, spawn_cost, switches));
            assert(is_ctx_trial(t, switches));
            Ok(t)
        };
    let trials = match collect_trials(config.trials, &trial) {
        Ok(trials) => trials,
        Err(e) => {
            proof {
                let i = choose|i: usize|
                    i < config.trials && #[trigger] trial.ensures(
                        (i,),
                        Err::<TrialSample, BenchError>(e),
                    );
            }
            return Err(e);
        },
    };
    let rep = latency_report(0, switches, trials, config.error_ratio);
    assert forall|i: int| 0 <= i < rep.trials.len() implies is_ctx_trial(
        #[trigger] rep.trials@[i],
        rep.iterations,
    ) by {
        assert(trial.ensures((i as usize,), Ok::<TrialSample, BenchError>(rep.trials@[i])));
    }
    Ok(rep)
}

/// Reads per trial, for each base iteration.
pub const FS_SCALE: usize = 10;

/// Size of the file that the read benchmark reads, in bytes.
pub const FILE_SIZE: usize = 4096;

/// `count` events in `ns` nanoseconds, as events per second, saturated at
/// `u64::MAX` (also when no time was measured).
pub open spec fn rate_of(count: int, ns: int) -> int {
    if ns == 0 || count * 1_000_000_000 / ns > u64::MAX {
        u64::MAX as int
    } else {
        count * 1_000_000_000 / ns
    }
}

/// Events per second.
pub fn rate_per_sec(count: u64, ns: u64) -> (r: u64)
    ensures
        r == rate_of(count as int, ns as int),
{
    if ns == 0 {
        return u64::MAX;
    }
    assert((count as u128) * 1_000_000_000 <= u128::MAX) by (nonlinear_arith)
        requires
            count <= u64::MAX,
    ;
    let q: u128 = (count as u128) * 1_000_000_000 / (ns as u128);
    if q > u64::MAX as u128 {
        u64::MAX
    } else {
        q as u64
    }
}

/// The result of a file read benchmark.
#[derive(Debug)]
pub struct FsReadReport {
    /// Each read opened the file anew.
    pub with_open: bool,
    pub latency: LatencyReport,
    /// Throughput at the mean latency, in KiB per second.
    pub kib_per_sec: u64,
}

/// The latency and throughput of reading a `FILE_SIZE`-byte file;
/// `read_once` performs one read (opening the file first when `with_open`).
pub fn do_fs_read<F: Fn() -> Result<(), BenchError>>(
    config: &BenchConfig,
    with_open: bool,
    read_once: &F,
) -> (r: Result<FsReadReport, BenchError>)
    requires
        config.wf(),
        read_once.requires(()),
    ensures
        r matches Ok(rep) ==> {
            &&& rep.with_open == with_open
            &&& rep.latency.iterations == config.iterations * FS_SCALE
            &&& is_timed_report(rep.latency, config.trials, config.error_ratio)
            &&& rep.kib_per_sec == rate_of(FILE_SIZE as int, rep.latency.run.mean as int) / 1024
        },
        r matches Err(e) ==> e == BenchError::TimerUnavailable || read_once.ensures(
            (),
            Err::<(), BenchError>(e),
        ),
{
    let latency = measure_latency(config, config.iterations * FS_SCALE, read_once)?;
    let kib_per_sec = rate_per_sec(FILE_SIZE as u64, latency.run.mean) / 1024;
    Ok(FsReadReport { with_open, latency, kib_per_sec })
}

/// The file sizes of the create and delete benchmarks, in bytes.
pub fn fs_file_sizes() -> (r: Vec<usize>)
    ensures
        r@ == seq![1024usize, 4096usize, 8192usize],
{
    let mut v: Vec<usize> = Vec::new();
    v.push(1024);
    v.push(4096);
    v.push(8192);
    v
}

/// One timed round over `files` files of `file_size` bytes.
#[derive(Clone, Copy, Debug, PartialEq, Eq, Structural)]
pub struct FileOpReport {
    pub file_size: usize,
    pub files: usize,
    /// The timer overhead subtracted from the round.
    pub overhead: u64,
    /// The round; its latency is the time per file.
    pub sample: TrialSample,
    pub files_per_sec: u64,
}

/// `rep` reports a round over `files` files of `file_size` bytes.
pub open spec fn is_file_op_report(rep: FileOpReport, file_size: usize, files: usize) -> bool {
    &&& rep.file_size == file_size
    &&& rep.files == files
    &&& is_trial_sample(rep.sample, rep.overhead, files)
    &&& rep.files_per_sec == rate_of(files as int, rep.sample.elapsed as int)
}

/// Calls `op(file_size, i)` for each file index `i` below `files`.
pub fn for_each_file<F: Fn(usize, usize) -> Result<(), BenchError>>(
    op: &F,
    file_size: usize,
    files: usize,
) -> (r: Result<(), BenchError>)
    requires
        forall|i: usize| i < files ==> #[trigger] op.requires((file_size, i)),
    ensures
        r matches Err(e) ==> exists|i: usize|
            i < files && #[trigger] op.ensures((file_size, i), Err::<(), BenchError>(e)),
{
    let mut i: usize = 0;
    while i < files
        invariant
            i <= files,
            forall|i: usize| i < files ==> #[trigger] op.requires((file_size, i)),
        decreases files - i,
    {
        match op(file_size, i) {
            Ok(()) => {},
            Err(e) => {
                return Err(e);
            },
        }
        i = i + 1;
    }
    Ok(())
}

/// Times `op` over `files` files.
fn time_file_op<F: Fn(usize, usize) -> Result<(), BenchError>>(
    overhead: u64,
    file_size: usize,
    files: usize,
    op: &F,
) -> (r: Result<TrialSample, BenchError>)
    requires
        files > 0,
        forall|i: usize| i < files ==> #[trigger] op.requires((file_size, i)),
    ensures
        r matches Ok(t) ==> is_trial_sample(t, overhead, files),
        r matches Err(e) ==> e == BenchError::TimerUnavailable || exists|i: usize|
            i < files && #[trigger] op.ensures((file_size, i), Err::<(), BenchError>(e)),
{
    let start = get_timer_value()?;
    for_each_file(op, file_size, files)?;
    let end = get_timer_value()?;
    Ok(trial_sample(start, end, overhead, files))
}

/// Times one round of `op` over `files` files, with `prepare` run over
/// them before the timing and `clean_up` after it, also when a step failed.
fn timed_file_round<
    P: Fn(usize, usize) -> Result<(), BenchError>,
    F: Fn(usize, usize) -> Result<(), BenchError>,
    C: Fn(usize, usize) -> Result<(), BenchError>,
>(overhead: u64, file_size: usize, files: usize, prepare: &P, op: &F, clean_up: &C) -> (r: Result<
    FileOpReport,
    BenchError,
>)
    requires
        files > 0,
        forall|i: usize| i < files ==> #[trigger] prepare.requires((file_size, i)),
        forall|i: usize| i < files ==> #[trigger] op.requires((file_size, i)),
        forall|i: usize| i < files ==> #[trigger] clean_up.requires((file_size, i)),
    ensures
        r matches Ok(rep) ==> rep.overhead == overhead && is_file_op_report(rep, file_size, files),
        r matches Err(e) ==> {
            ||| e == BenchError::TimerUnavailable
            ||| exists|i: usize|
                i < files && #[trigger] prepare.ensures((file_size, i), Err::<(), BenchError>(e))
            ||| exists|i: usize|
                i < files && #[trigger] op.ensures((file_size, i), Err::<(), BenchError>(e))
            ||| exists|i: usize|
                i < files && #[trigger] clean_up.ensures((file_size, i), Err::<(), BenchError>(e))
        },
{
    let prepared = for_each_file(prepare, file_size, files);
    if let Err(e) = prepared {
        let _ = for_each_file(clean_up, file_size, files);
        return Err(e);
    }
    let timed = time_file_op(overhead, file_size, files, op);
    let cleaned = for_each_file(clean_up, file_size, files);
    let sample = timed?;
    cleaned?;
    let files_per_sec = rate_per_sec(files as u64, sample.elapsed);
    Ok(FileOpReport { file_size, files, overhead, sample, files_per_sec })
}

/// `reps` reports one round for each file size of `fs_file_sizes`, each
/// over `files` files with the same overhead subtracted.
pub open spec fn is_file_rounds(reps: Seq<FileOpReport>, files: usize) -> bool {
    let sizes = seq![1024usize, 4096usize, 8192usize];
    &&& reps.len() == sizes.len()
    &&& forall|k: int|
        0 <= k < reps.len() ==> is_file_op_report(#[trigger] reps[k], sizes[k], files)
            && reps[k].overhead == reps[0].overhead
}

/// Calibrates the timer, then runs `timed_file_round` for each file size.
fn file_rounds<
    P: Fn(usize, usize) -> Result<(), BenchError>,
    F: Fn(usize, usize) -> Result<(), BenchError>,
    C: Fn(usize, usize) -> Result<(), BenchError>,
>(config: &BenchConfig, prepare: &P, op: &F, clean_up: &C) -> (r: Result<
    Vec<FileOpReport>,
    BenchError,
>)
    requires
        config.wf(),
        forall|s: usize, i: usize| #[trigger] prepare.requires((s, i)),
        forall|s: usize, i: usize| #[trigger] op.requires((s, i)),
        forall|s: usize, i: usize| #[trigger] clean_up.requires((s, i)),
    ensures
        r matches Ok(reps) ==> is_file_rounds(reps@, (config.iterations * FS_SCALE) as usize),
        r matches Err(e) ==> {
            ||| e == BenchError::TimerUnavailable
            ||| exists|s: usize, i: usize|
                #[trigger] prepare.ensures((s, i), Err::<(), BenchError>(e))
            ||| exists|s: usize, i: usize|
                #[trigger] op.ensures((s, i), Err::<(), BenchError>(e))
            ||| exists|s: usize, i: usize|
                #[trigger] clean_up.ensures((s, i), Err::<(), BenchError>(e))
        },
{
    let overhead = calibrate(config.calibration_iterations, config.calibration_trials)?;
    let files = config.iterations * FS_SCALE;
    let sizes = fs_file_sizes();
    let mut reps: Vec<FileOpReport> = Vec::new();
    let mut k: usize = 0;
    while k < sizes.len()
        invariant
            k <= sizes.len(),
            sizes@ == seq![1024usize, 4096usize, 8192usize],
            files == config.iterations * FS_SCALE,
            files > 0,
            reps.len() == k,
            forall|j: int|
                0 <= j < k ==> is_file_op_report(#[trigger] reps@[j], sizes@[j], files)
                    && reps@[j].overhead == overhead,
            forall|s: usize, i: usize| #[trigger] prepare.requires((s, i)),
            forall|s: usize, i: usize| #[trigger] op.requires((s, i)),
            forall|s: usize, i: usize| #[trigger] clean_up.requires((s, i)),
        decreases sizes.len() - k,
    {
        let rep = timed_file_round(overhead, sizes[k], files, prepare, op, clean_up)?;
        reps.push(rep);
        k = k + 1;
    }
    Ok(reps)
}

/// The time to create (and write) a file, for each size of
/// `fs_file_sizes`; `create(size, i)` makes file `i` of a size and
/// `remove(size, i)` deletes it after the timing.
pub fn do_fs_create_del<
    C: Fn(usize, usize) -> Result<(), BenchError>,
    D: Fn(usize, usize) -> Result<(), BenchError>,
>(config: &BenchConfig, create: &C, remove: &D) -> (r: Result<Vec<FileOpReport>, BenchError>)
    requires
        config.wf(),
        forall|s: usize, i: usize| #[trigger] create.requires((s, i)),
        forall|s: usize, i: usize| #[trigger] remove.requires((s, i)),
    ensures
        r matches Ok(reps) ==> is_file_rounds(reps@, (config.iterations * FS_SCALE) as usize),
        r matches Err(e) ==> {
            ||| e == BenchError::TimerUnavailable
            ||| exists|s: usize, i: usize|
                #[trigger] create.ensures((s, i), Err::<(), BenchError>(e))
            ||| exists|s: usize, i: usize|
                #[trigger] remove.ensures((s, i), Err::<(), BenchError>(e))
        },
{
    let nothing = |s: usize, i: usize| -> (r: Result<(), BenchError>)
        ensures
            r is Ok,
        { Ok(()) };
    file_rounds(config, &nothing, create, remove)
}

/// The time to delete a file, for each size of `fs_file_sizes`;
/// `create(size, i)` makes file `i` of a size before the timing and
/// `remove(size, i)` deletes it.
pub fn do_fs_delete<
    C: Fn(usize, usize) -> Result<(), BenchError>,
    D: Fn(usize, usize) -> Result<(), BenchError>,
>(config: &BenchConfig, create: &C, remove: &D) -> (r: Result<Vec<FileOpReport>, BenchError>)
    requires
        config.wf(),
        forall|s: usize, i: usize| #[trigger] create.requires((s, i)),
        forall|s: usize, i: usize| #[trigger] remove.requires((s, i)),
    ensures
        r matches Ok(reps) ==> is_file_rounds(reps@, (config.iterations * FS_SCALE) as usize),
        r matches Err(e) ==> {
            ||| e == BenchError::TimerUnavailable
            ||| exists|s: usize, i: usize|
                #[trigger] create.ensures((s, i), Err::<(), BenchError>(e))
            ||| exists|s: usize, i: usize|
                #[trigger] remove.ensures((s, i), Err::<(), BenchError>(e))
        },
{
    let nothing = |s: usize, i: usize| -> (r: Result<(), BenchError>)
        ensures
            r is Ok,
        { Ok(()) };
    file_rounds(config, create, remove, &nothing)
}

/// The result of the pipe bandwidth benchmark, in bytes per second.
#[derive(Debug)]
pub struct BandwidthReport {
    /// The timer overhead subtracted from each trial.
    pub overhead: u64,
    pub packet_size: usize,
    pub total_size: usize,
    pub run: BenchmarkRun,
    pub stats: Stats,
    /// The mean bandwidth in MiB per second.
    pub mib_per_sec: u64,
}

/// Times one transfer of `total_size` bytes from the peer behind `peer`.
fn time_transfer<T: Fn(i32, usize, usize) -> Result<usize, BenchError>>(
    overhead: u64,
    peer: i32,
    packet_size: usize,
    total_size: usize,
    transfer: &T,
) -> (r: Result<TrialSample, BenchError>)
    requires
        transfer.requires((peer, packet_size, total_size)),
    ensures
        r matches Ok(t) ==> is_trial_sample(t, overhead, 1),
        r matches Err(e) ==> e == BenchError::TimerUnavailable || transfer.ensures(
            (peer, packet_size, total_size),
            Err::<usize, BenchError>(e),
        ),
{
    let start = get_timer_value()?;
    let _ = transfer(peer, packet_size, total_size)?;
    let end = get_timer_value()?;
    Ok(trial_sample(start, end, overhead, 1))
}

/// The bandwidth of a pipe.
///
/// Each trial starts a peer with `start_peer(packet_size)`, which writes
/// `packet_size`-byte packets into a pipe and hands back the pipe's read
/// end; times `transfer(read_end, packet_size, total_size)`, which reads
/// `total_size` bytes from it; and stops the peer with `stop_peer`, also
/// when the timing failed.
pub fn do_pipe_bandwidth<
    S: Fn(usize) -> Result<i32, BenchError>,
    T: Fn(i32, usize, usize) -> Result<usize, BenchError>,
    K: Fn(i32) -> Result<(), BenchError>,
>(
    config: &BenchConfig,
    packet_size: usize,
    total_size: usize,
    start_peer: &S,
    transfer: &T,
    stop_peer: &K,
) -> (r: Result<BandwidthReport, BenchError>)
    requires
        config.wf(),
        start_peer.requires((packet_size,)),
        forall|p: i32| #[trigger] transfer.requires((p, packet_size, total_size)),
        forall|p: i32| #[trigger] stop_peer.requires((p,)),
    ensures
        r matches Ok(rep) ==> {
            let s = rep.run.samples@;
            &&& rep.packet_size == packet_size
            &&& rep.total_size == total_size
            &&& s.len() == config.trials
            &&& is_run_summary(rep.run, config.error_ratio)
            &&& summarizes(s, rep.stats)
            &&& rep.mib_per_sec == rep.run.mean / 1_048_576
            &&& forall|i: int|
                0 <= i < s.len() ==> exists|t: TrialSample|
                    is_trial_sample(t, rep.overhead, 1) && #[trigger] s[i] == rate_of(
                        total_size as int,
                        t.elapsed as int,
                    )
        },
        r matches Err(e) ==> {
            ||| e == BenchError::TimerUnavailable
            ||| start_peer.ensures((packet_size,), Err::<i32, BenchError>(e))
            ||| exists|p: i32|
                #[trigger] transfer.ensures((p, packet_size, total_size), Err::<usize, BenchError>(e))
            ||| exists|p: i32| #[trigger] stop_peer.ensures((p,), Err::<(), BenchError>(e))
        },
{
    let overhead = calibrate(config.calibration_iterations, config.calibration_trials)?;
    let trial = |i: usize| -> (r: Result<u64, BenchError>)
        requires
            start_peer.requires((packet_size,)),
            forall|p: i32| #[trigger] transfer.requires((p, packet_size, total_size)),
            forall|p: i32| #[trigger] stop_peer.requires((p,)),
        ensures
            r matches Ok(x) ==> exists|t: TrialSample|
                is_trial_sample(t, overhead, 1) && x == rate_of(
                    total_size as int,
                    t.elapsed as int,
                ),
            r matches Err(e) ==> {
                ||| e == BenchError::TimerUnavailable
                ||| start_peer.ensures((packet_size,), Err::<i32, BenchError>(e))
                ||| exists|p: i32|
                    #[trigger] transfer.ensures(
                        (p, packet_size, total_size),
                        Err::<usize, BenchError>(e),
                    )
                ||| exists|p: i32| #[trigger] stop_peer.ensures((p,), Err::<(), BenchError>(e))
            },
        {
            let peer = start_peer(packet_size)?;
            let timed = time_transfer(overhead, peer, packet_size, total_size, transfer);
            let stopped = stop_peer(peer);
            let t = timed?;
            stopped?;
            Ok(rate_per_sec(total_size as u64, t.elapsed))
        };
    let run = match run_benchmark(config.trials, config.error_ratio, &trial) {
        Ok(run) => run,
        Err(e) => {
            proof {
                let i = choose|i: usize|
                    i < config.trials && #[trigger] trial.ensures((i,), Err::<u64, BenchError>(e));
            }
            return Err(e);
        },
    };
    let stats = match calculate_stats(&run.samples) {
        Ok(st) => st,
        Err(e) => {
            return Err(e);
        },
    };
    let mib_per_sec = run.mean / 1_048_576;
    let rep = BandwidthReport { overhead, packet_size, total_size, run, stats, mib_per_sec };
    assert forall|i: int| 0 <= i < rep.run.samples@.len() implies exists|t: TrialSample|
        is_trial_sample(t, rep.overhead, 1) && #[trigger] rep.run.samples@[i] == rate_of(
            total_size as int,
            t.elapsed as int,
        ) by {
        assert(trial.ensures((i as usize,), Ok::<u64, BenchError>(rep.run.samples@[i])));
        let t = choose|t: TrialSample|
            is_trial_sample(t, overhead, 1) && rep.run.samples@[i] == rate_of(
                total_size as int,
                t.elapsed as int,
            );
        assert(is_trial_sample(t, rep.overhead, 1));
    }
    Ok(rep)
}

/// Round trips per trial, for each base iteration.
pub const PIPE_SCALE: usize = 100;

/// Times `round_trips` calls of `round_trip(write_end, read_end)`.
fn time_round_trips<T: Fn(i32, i32) -> Result<(), BenchError>>(
    overhead: u64,
    write_end: i32,
    read_end: i32,
    round_trips: usize,
    round_trip: &T,
) -> (r: Result<TrialSample, BenchError>)
    requires
        round_trips > 0,
        round_trip.requires((write_end, read_end)),
    ensures
        r matches Ok(t) ==> is_trial_sample(t, overhead, round_trips),
        r matches Err(e) ==> e == BenchError::TimerUnavailable || round_trip.ensures(
            (write_end, read_end),
            Err::<(), BenchError>(e),
        ),
{
    let start = get_timer_value()?;
    let mut i: usize = 0;
    while i < round_trips
        invariant
            i <= round_trips,
            round_trip.requires((write_end, read_end)),
        decreases round_trips - i,
    {
        round_trip(write_end, read_end)?;
        i = i + 1;
    }
    let end = get_timer_value()?;
    Ok(trial_sample(start, end, overhead, round_trips))
}

/// The latency of a round trip over a pair of pipes.
///
/// Each trial starts an echoing peer with `start_peer`, which hands back
/// the write end of the pipe to the peer and the read end of the pipe from
/// it; times the round trips, each a call of `round_trip(write_end,
/// read_end)` that sends a byte and waits for its echo; and stops the peer
/// with `stop_peer`, also when the timing failed.
pub fn do_pipe<
    S: Fn() -> Result<(i32, i32), BenchError>,
    T: Fn(i32, i32) -> Result<(), BenchError>,
    K: Fn(i32, i32) -> Result<(), BenchError>,
>(config: &BenchConfig, start_peer: &S, round_trip: &T, stop_peer: &K) -> (r: Result<
    LatencyReport,
    BenchError,
>)
    requires
        config.wf(),
        start_peer.requires(()),
        forall|w: i32, r: i32| #[trigger] round_trip.requires((w, r)),
        forall|w: i32, r: i32| #[trigger] stop_peer.requires((w, r)),
    ensures
        r matches Ok(rep) ==> rep.iterations == config.iterations * PIPE_SCALE
            && is_timed_report(rep, config.trials, config.error_ratio),
        r matches Err(e) ==> {
            ||| e == BenchError::TimerUnavailable
            ||| start_peer.ensures((), Err::<(i32, i32), BenchError>(e))
            ||| exists|w: i32, r: i32| #[trigger] round_trip.ensures((w, r), Err::<(), BenchError>(e))
            ||| exists|w: i32, r: i32| #[trigger] stop_peer.ensures((w, r), Err::<(), BenchError>(e))
        },
{
    let overhead = calibrate(config.calibration_iterations, config.calibration_trials)?;
    let iterations = config.iterations * PIPE_SCALE;
    let trial = |i: usize| -> (r: Result<TrialSample, BenchError>)
        requires
            start_peer.requires(()),
            forall|w: i32, r: i32| #[trigger] round_trip.requires((w, r)),
            forall|w: i32, r: i32| #[trigger] stop_peer.requires((w, r)),
        ensures
            r matches Ok(t) ==> is_trial_sample(t, overhead, iterations),
            r matches Err(e) ==> {
                ||| e == BenchError::TimerUnavailable
                ||| start_peer.ensures((), Err::<(i32, i32), BenchError>(e))
                ||| exists|w: i32, r: i32|
                    #[trigger] round_trip.ensures((w, r), Err::<(), BenchError>(e))
                ||| exists|w: i32, r: i32|
                    #[trigger] stop_peer.ensures((w, r), Err::<(), BenchError>(e))
            },
        {
            let (write_end, read_end) = start_peer()?;
            let timed = time_round_trips(overhead, write_end, read_end, iterations, round_trip);
            let stopped = stop_peer(write_end, read_end);
            let t = timed?;
            stopped?;
            Ok(t)
        };
    let trials = match collect_trials(config.trials, &trial) {
        Ok(trials) => trials,
        Err(e) => {
            proof {
                let i = choose|i: usize|
                    i < config.trials && #[trigger] trial.ensures(
                        (i,),
                        Err::<TrialSample, BenchError>(e),
                    );
            }
            return Err(e);
        },
    };
    let rep = latency_report(overhead, iterations, trials, config.error_ratio);
    assert forall|i: int| 0 <= i < rep.trials.len() implies is_trial_sample(
        #[trigger] rep.trials@[i],
        rep.overhead,
        rep.iterations,
    ) by {
        assert(trial.ensures((i as usize,), Ok::<TrialSample, BenchError>(rep.trials@[i])));
    }
    Ok(rep)
}

} // verus!

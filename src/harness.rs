//! The measurement protocol: timer-overhead calibration, timed trials with
//! overhead subtraction, and the repeated-trial controller with its
//! tolerance check.
use vstd::arithmetic::div_mod::{
    lemma_div_is_ordered, lemma_div_multiples_vanish, lemma_multiply_divide_le,
};
use vstd::prelude::*;

use crate::error::BenchError;
use crate::stats::{mean_of, sample_mean, seq_sum};
use crate::timer::get_timer_value;

verus! {

/// Base iteration count of a trial; each benchmark scales it.
pub const ITERATIONS: usize = 100;

/// Number of trials of a benchmark.
pub const TRIES: usize = 10;

/// Extremes may stand `10 * THRESHOLD_ERROR_RATIO` percent from the mean.
pub const THRESHOLD_ERROR_RATIO: u64 = 1;

/// Timer reads in one calibration trial.
pub const CALIBRATION_ITERATIONS: usize = 10_000;

/// Calibration trials averaged into the overhead estimate.
pub const CALIBRATION_TRIES: usize = 10;

/// The largest base iteration count, so that every scaled count fits.
pub const MAX_ITERATIONS: usize = 1_000_000;

/// The parameters of one benchmark invocation.
#[derive(Clone, Copy, Debug, PartialEq, Eq, Structural)]
pub struct BenchConfig {
    pub iterations: usize,
    pub trials: usize,
    pub error_ratio: u64,
    pub calibration_iterations: usize,
    pub calibration_trials: usize,
}

impl BenchConfig {
    pub open spec fn wf(&self) -> bool {
        &&& 0 < self.iterations <= MAX_ITERATIONS
        &&& 0 < self.trials
        &&& 0 < self.calibration_iterations
        &&& 0 < self.calibration_trials
    }

    /// The standard configuration.
    pub fn standard() -> (r: BenchConfig)
        ensures
            r.wf(),
            r == (BenchConfig {
                iterations: ITERATIONS,
                trials: TRIES,
                error_ratio: THRESHOLD_ERROR_RATIO,
                calibration_iterations: CALIBRATION_ITERATIONS,
                calibration_trials: CALIBRATION_TRIES,
            }),
    {
        BenchConfig {
            iterations: ITERATIONS,
            trials: TRIES,
            error_ratio: THRESHOLD_ERROR_RATIO,
            calibration_iterations: CALIBRATION_ITERATIONS,
            calibration_trials: CALIBRATION_TRIES,
        }
    }
}

/// Time between two timestamps; a clock that went backwards counts as none.
pub open spec fn raw_elapsed(start: u64, end: u64) -> int {
    if end >= start {
        end - start
    } else {
        0
    }
}

/// The overhead is not subtracted from an elapsed time shorter than itself.
pub open spec fn overhead_skipped(start: u64, end: u64, overhead: u64) -> bool {
    raw_elapsed(start, end) < overhead
}

/// Elapsed time with the overhead subtracted once, where it can be.
pub open spec fn net_elapsed(start: u64, end: u64, overhead: u64) -> int {
    if overhead_skipped(start, end, overhead) {
        raw_elapsed(start, end)
    } else {
        raw_elapsed(start, end) - overhead
    }
}

/// The outcome of one timed trial.
#[derive(Clone, Copy, Debug, PartialEq, Eq, Structural)]
pub struct TrialSample {
    pub start: u64,
    pub end: u64,
    /// Total elapsed time, overhead subtracted where it could be.
    pub elapsed: u64,
    /// Elapsed time per iteration, truncated.
    pub latency: u64,
    /// The elapsed time was shorter than the overhead, which was kept.
    pub overhead_skipped: bool,
}

pub open spec fn is_trial_sample(t: TrialSample, overhead: u64, iterations: usize) -> bool {
    &&& t.overhead_skipped == overhead_skipped(t.start, t.end, overhead)
    &&& t.elapsed == net_elapsed(t.start, t.end, overhead)
    &&& t.latency == t.elapsed as int / iterations as int
}

/// The trial outcome of two timer reads around `iterations` operations.
pub fn trial_sample(start: u64, end: u64, overhead: u64, iterations: usize) -> (r: TrialSample)
    requires
        iterations > 0,
    ensures
        r.start == start,
        r.end == end,
        is_trial_sample(r, overhead, iterations),
{
    let raw = if end >= start {
        end - start
    } else {
        0
    };
    let skipped = raw < overhead;
    let elapsed = if skipped {
        raw
    } else {
        raw - overhead
    };
    TrialSample {
        start,
        end,
        elapsed,
        latency: elapsed / iterations as u64,
        overhead_skipped: skipped,
    }
}

/// Times `body`, which performs `iterations` operations itself, and
/// returns the per-operation latency with the overhead subtracted once.
pub fn run_trial<F: Fn() -> Result<(), BenchError>>(
    overhead: u64,
    iterations: usize,
    body: &F,
) -> (r: Result<TrialSample, BenchError>)
    requires
        iterations > 0,
        body.requires(()),
    ensures
        r matches Ok(t) ==> is_trial_sample(t, overhead, iterations),
        r matches Ok(t) ==> (t.overhead_skipped <==> raw_elapsed(t.start, t.end) < overhead),
        r matches Ok(t) ==> t.overhead_skipped ==> t.latency == raw_elapsed(t.start, t.end)
            / iterations as int,
        r matches Ok(t) ==> !t.overhead_skipped ==> t.latency == (raw_elapsed(t.start, t.end)
            - overhead) / iterations as int,
        r matches Err(e) ==> e == BenchError::TimerUnavailable || body.ensures(
            (),
            Err::<(), BenchError>(e),
        ),
{
    let start = get_timer_value()?;
    body()?;
    let end = get_timer_value()?;
    Ok(trial_sample(start, end, overhead, iterations))
}

/// One calibration trial: the cost of a timer read, averaged over
/// `iterations` reads.
fn calibration_sample(iterations: usize) -> (r: Result<u64, BenchError>)
    requires
        iterations > 0,
    ensures
        r matches Ok(x) ==> exists|start: u64, end: u64|
            x == raw_elapsed(start, end) / iterations as int,
        r matches Err(e) ==> e == BenchError::TimerUnavailable,
{
    let start = get_timer_value()?;
    let mut i: usize = 0;
    while i < iterations
        invariant
            i <= iterations,
        decreases iterations - i,
    {
        let _ = get_timer_value()?;
        i = i + 1;
    }
    let end = get_timer_value()?;
    let t = trial_sample(start, end, 0, iterations);
    Ok(t.latency)
}

/// Estimates the cost of one timer read: the mean over `trials`
/// calibration trials of `iterations` reads each.
pub fn calibrate(iterations: usize, trials: usize) -> (r: Result<u64, BenchError>)
    requires
        iterations > 0,
        trials > 0,
    ensures
        r matches Ok(o) ==> exists|s: Seq<u64>|
            s.len() == trials && o == mean_of(s) && forall|i: int|
                0 <= i < s.len() ==> exists|start: u64, end: u64|
                    #[trigger] s[i] == raw_elapsed(start, end) / iterations as int,
        r matches Err(e) ==> e == BenchError::TimerUnavailable,
{
    let mut samples: Vec<u64> = Vec::new();
    let mut i: usize = 0;
    while i < trials
        invariant
            i <= trials,
            iterations > 0,
            samples.len() == i,
            forall|j: int|
                0 <= j < samples.len() ==> exists|start: u64, end: u64|
                    #[trigger] samples@[j] == raw_elapsed(start, end) / iterations as int,
        decreases trials - i,
    {
        let x = calibration_sample(iterations)?;
        samples.push(x);
        i = i + 1;
    }
    Ok(sample_mean(&samples))
}

pub open spec fn seq_min(s: Seq<u64>) -> int
    decreases s.len(),
{
    if s.len() <= 1 {
        s[0] as int
    } else if s.last() < seq_min(s.drop_last()) {
        s.last() as int
    } else {
        seq_min(s.drop_last())
    }
}

pub open spec fn seq_max(s: Seq<u64>) -> int
    decreases s.len(),
{
    if s.len() <= 1 {
        s[0] as int
    } else if s.last() > seq_max(s.drop_last()) {
        s.last() as int
    } else {
        seq_max(s.drop_last())
    }
}

/// The smallest and largest samples bound every sample and the sum.
pub proof fn lemma_extremes(s: Seq<u64>)
    requires
        s.len() > 0,
    ensures
        forall|i: int| 0 <= i < s.len() ==> seq_min(s) <= #[trigger] s[i] <= seq_max(s),
        exists|i: int| 0 <= i < s.len() && s[i] == seq_min(s),
        exists|i: int| 0 <= i < s.len() && s[i] == seq_max(s),
        s.len() * seq_min(s) <= seq_sum(s) <= s.len() * seq_max(s),
    decreases s.len(),
{
    let n = s.len() as int;
    if n == 1 {
        assert(s.drop_last().len() == 0);
        assert(seq_sum(s.drop_last()) == 0);
        assert(seq_sum(s) == s[0]);
        assert(s[0] == seq_min(s));
        assert(s[0] == seq_max(s));
    } else {
        let d = s.drop_last();
        lemma_extremes(d);
        let lo = seq_min(s);
        let hi = seq_max(s);
        let sd = seq_sum(d);
        assert forall|i: int| 0 <= i < s.len() implies lo <= #[trigger] s[i] <= hi by {
            if i < n - 1 {
                assert(s[i] == d[i]);
            }
        }
        if s.last() >= seq_min(d) {
            let i = choose|i: int| 0 <= i < d.len() && d[i] == seq_min(d);
            assert(s[i] == lo);
        } else {
            assert(s[n - 1] == lo);
        }
        if s.last() <= seq_max(d) {
            let i = choose|i: int| 0 <= i < d.len() && d[i] == seq_max(d);
            assert(s[i] == hi);
        } else {
            assert(s[n - 1] == hi);
        }
        assert(lo <= seq_min(d) && seq_max(d) <= hi);
        assert(lo <= s.last() <= hi);
        assert(n * lo <= sd + s.last() <= n * hi) by (nonlinear_arith)
            requires
                (n - 1) * seq_min(d) <= sd <= (n - 1) * seq_max(d),
                lo <= seq_min(d),
                seq_max(d) <= hi,
                lo <= s.last() <= hi,
                n >= 2,
        ;
    }
}

/// The mean of a sample set lies between its smallest and largest samples.
pub proof fn lemma_mean_between_extremes(s: Seq<u64>)
    requires
        s.len() > 0,
    ensures
        seq_min(s) <= mean_of(s) <= seq_max(s),
{
    let n = s.len() as int;
    lemma_extremes(s);
    lemma_multiply_divide_le(seq_sum(s), n, seq_max(s));
    lemma_div_is_ordered(n * seq_min(s), seq_sum(s), n);
    lemma_div_multiples_vanish(seq_min(s), n);
}

/// Half-width of the tolerance band around a mean.
pub open spec fn tolerance(mean: int, ratio: int) -> int {
    mean * 10 * ratio / 100
}

/// An extreme stands further from the mean than the tolerance band allows.
pub open spec fn spread_too_big(mean: int, min: int, max: int, ratio: int) -> bool {
    max - mean > tolerance(mean, ratio) || mean - min > tolerance(mean, ratio)
}

/// Whether the extremes of a run stand outside the tolerance band.
pub fn exceeds_tolerance(mean: u64, min: u64, max: u64, ratio: u64) -> (r: bool)
    ensures
        r == spread_too_big(mean as int, min as int, max as int, ratio as int),
{
    assert((mean as u128) * (ratio as u128) <= u128::MAX) by (nonlinear_arith)
        requires
            mean <= u64::MAX,
            ratio <= u64::MAX,
    ;
    let tol: u128 = (mean as u128) * (ratio as u128) / 10;
    assert(tol == tolerance(mean as int, ratio as int)) by (nonlinear_arith)
        requires
            tol == (mean * ratio) / 10,
            mean >= 0,
            ratio >= 0,
    ;
    (max > mean && (max - mean) as u128 > tol) || (mean > min && (mean - min) as u128 > tol)
}

/// The samples of a run and what the controller derived from them.
#[derive(Debug)]
pub struct BenchmarkRun {
    pub samples: Vec<u64>,
    pub mean: u64,
    pub min: u64,
    pub max: u64,
    /// The extremes stand outside the tolerance band: a warning, not a failure.
    pub noisy: bool,
}

/// `run` holds what the controller derives from its samples.
pub open spec fn is_run_summary(run: BenchmarkRun, ratio: u64) -> bool {
    let s = run.samples@;
    &&& s.len() > 0
    &&& run.mean == mean_of(s)
    &&& run.min == seq_min(s)
    &&& run.max == seq_max(s)
    &&& run.min <= run.mean <= run.max
    &&& run.noisy == spread_too_big(run.mean as int, run.min as int, run.max as int, ratio as int)
}

/// Mean, extremes and tolerance check of a non-empty sample set.
pub fn summarize_run(samples: Vec<u64>, ratio: u64) -> (r: BenchmarkRun)
    requires
        samples.len() > 0,
    ensures
        r.samples@ == samples@,
        is_run_summary(r, ratio),
{
    let ghost s = samples@;
    let mut min = samples[0];
    let mut max = samples[0];
    let mut i: usize = 1;
    while i < samples.len()
        invariant
            s == samples@,
            1 <= i <= samples.len(),
            min == seq_min(s.take(i as int)),
            max == seq_max(s.take(i as int)),
        decreases samples.len() - i,
    {
        assert(s.take(i + 1).drop_last() =~= s.take(i as int));
        let x = samples[i];
        if x < min {
            min = x;
        }
        if x > max {
            max = x;
        }
        i = i + 1;
    }
    assert(s.take(samples.len() as int) =~= s);
    let mean = sample_mean(&samples);
    proof {
        lemma_mean_between_extremes(s);
    }
    let noisy = exceeds_tolerance(mean, min, max, ratio);
    BenchmarkRun { samples, mean, min, max, noisy }
}

/// Runs `trial_fn` once for each trial index, in order, and summarizes the
/// samples; the first failing trial aborts the run.
pub fn run_benchmark<F: Fn(usize) -> Result<u64, BenchError>>(
    trial_count: usize,
    ratio: u64,
    trial_fn: &F,
) -> (r: Result<BenchmarkRun, BenchError>)
    requires
        trial_count > 0,
        forall|i: usize| i < trial_count ==> #[trigger] trial_fn.requires((i,)),
    ensures
        r matches Ok(run) ==> {
            &&& run.samples.len() == trial_count
            &&& is_run_summary(run, ratio)
            &&& forall|i: int|
                0 <= i < trial_count ==> trial_fn.ensures(
                    (i as usize,),
                    Ok::<u64, BenchError>(#[trigger] run.samples@[i]),
                )
        },
        r matches Err(e) ==> exists|i: usize|
            i < trial_count && #[trigger] trial_fn.ensures((i,), Err::<u64, BenchError>(e)),
{
    let mut samples: Vec<u64> = Vec::new();
    let mut i: usize = 0;
    while i < trial_count
        invariant
            i <= trial_count,
            samples.len() == i,
            forall|i: usize| i < trial_count ==> #[trigger] trial_fn.requires((i,)),
            forall|j: int|
                0 <= j < i ==> trial_fn.ensures(
                    (j as usize,),
                    Ok::<u64, BenchError>(#[trigger] samples@[j]),
                ),
        decreases trial_count - i,
    {
        let x = trial_fn(i);
        match x {
            Ok(v) => {
                samples.push(v);
            },
            Err(e) => {
                return Err(e);
            },
        }
        i = i + 1;
    }
    Ok(summarize_run(samples, ratio))
}

/// Runs `trial_fn` once for each trial index, in order; the first failing
/// trial aborts the run.
pub fn collect_trials<F: Fn(usize) -> Result<TrialSample, BenchError>>(
    trial_count: usize,
    trial_fn: &F,
) -> (r: Result<Vec<TrialSample>, BenchError>)
    requires
        forall|i: usize| i < trial_count ==> #[trigger] trial_fn.requires((i,)),
    ensures
        r matches Ok(trials) ==> {
            &&& trials.len() == trial_count
            &&& forall|i: int|
                0 <= i < trial_count ==> trial_fn.ensures(
                    (i as usize,),
                    Ok::<TrialSample, BenchError>(#[trigger] trials@[i]),
                )
        },
        r matches Err(e) ==> exists|i: usize|
            i < trial_count && #[trigger] trial_fn.ensures(
                (i,),
                Err::<TrialSample, BenchError>(e),
            ),
{
    let mut trials: Vec<TrialSample> = Vec::new();
    let mut i: usize = 0;
    while i < trial_count
        invariant
            i <= trial_count,
            trials.len() == i,
            forall|i: usize| i < trial_count ==> #[trigger] trial_fn.requires((i,)),
            forall|j: int|
                0 <= j < i ==> trial_fn.ensures(
                    (j as usize,),
                    Ok::<TrialSample, BenchError>(#[trigger] trials@[j]),
                ),
        decreases trial_count - i,
    {
        match trial_fn(i) {
            Ok(t) => {
                trials.push(t);
            },
            Err(e) => {
                return Err(e);
            },
        }
        i = i + 1;
    }
    Ok(trials)
}

/// A run is flagged as noisy only when its extremes stand further apart
/// than the tolerance band, and its mean is never negative.
pub proof fn lemma_noisy_run_has_wide_spread(s: Seq<u64>, ratio: u64)
    requires
        s.len() > 0,
    ensures
        mean_of(s) >= 0,
        spread_too_big(mean_of(s), seq_min(s), seq_max(s), ratio as int) ==> seq_max(s) - seq_min(
            s,
        ) > tolerance(mean_of(s), ratio as int),
{
    lemma_mean_between_extremes(s);
    lemma_extremes(s);
    let m = mean_of(s);
    assert(m >= 0);
    assert(tolerance(m, ratio as int) >= 0) by (nonlinear_arith)
        requires
            m >= 0,
            ratio >= 0,
    ;
}

} // verus!

//! A microbenchmark harness for operating-system primitives.
//!
//! Every duration handled here is an integer number of nanoseconds, which is
//! the harness's fixed time unit (microseconds, kept to three decimals).
//!
//! - `timer`: the monotonic clock.
//! - `harness`: overhead calibration, timed trials and the repeated-trial
//!   controller with its tolerance check.
//! - `stats`: the distribution summary of a sample set.
//! - `bench`: the benchmarks, each built from the pieces above.

pub mod bench;
pub mod error;
pub mod harness;
pub mod stats;
pub mod timer;

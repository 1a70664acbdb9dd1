use vstd::prelude::*;

verus! {

/// What can stop a benchmark.
#[derive(Clone, Copy, Debug, PartialEq, Eq, Structural)]
pub enum BenchError {
    /// The clock could not be read, or gave a reading outside the timestamp range.
    TimerUnavailable,
    /// Statistics were asked of an empty sample set.
    EmptyInput,
    /// An operation body failed.
    OperationFailed,
}

} // verus!

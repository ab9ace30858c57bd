//! The ways in which schedule generation can fail.

use vstd::prelude::*;

verus! {

/// A fatal error of schedule generation.
#[derive(Debug, Clone, Copy, PartialEq, Eq, Structural)]
pub enum ScheduleError {
    /// The processor names a scheduling algorithm that does not exist.
    UnknownAlgorithm,
    /// The least common multiple of the task periods does not fit in 32 bits.
    HyperperiodOverflow,
    /// An execution interval would end after the last representable tick.
    TimelineOverflow,
    /// The policy returned an interval that the engine must not commit.
    PolicyViolation,
}

} // verus!

//! The round-robin policy.

use vstd::prelude::*;
use crate::schedule::{CoreSchedule, ScheduleArtifact, TaskArtifact};
use crate::scheduler::{interval, make_interval, next_start, start_time_for, Scheduler};

verus! {

/// Round-robin: the oldest pending release runs to completion.
#[derive(Debug)]
pub struct RoundRobinScheduler;

impl Default for RoundRobinScheduler {
    fn default() -> (r: Self)
        ensures
            r == RoundRobinScheduler,
    {
        RoundRobinScheduler
    }
}

impl Scheduler for RoundRobinScheduler {
    /// The head of the ready set gets all of its remaining time, as early
    /// as the core allows.
    open spec fn decision(
        &self,
        ready: Seq<TaskArtifact>,
        core: Seq<ScheduleArtifact>,
        preemptable: bool,
        now: u32,
    ) -> Option<ScheduleArtifact> {
        interval(ready[0].task.id, next_start(core, now), ready[0].duration)
    }

    fn schedule(
        &self,
        tasks: &Vec<TaskArtifact>,
        core: &CoreSchedule,
        preemptable: bool,
        current_time: u32,
    ) -> (r: Option<ScheduleArtifact>) {
        let start: u32 = start_time_for(core, current_time);
        make_interval(tasks[0].task.id, start, tasks[0].duration)
    }
}

} // verus!

//! The priority policy.

use vstd::prelude::*;
use crate::schedule::{CoreSchedule, ScheduleArtifact, TaskArtifact};
use crate::scheduler::{interval, make_interval, next_start, start_time_for, Scheduler};

verus! {

/// Priority scheduling: the most urgent pending release runs for one
/// quantum, or to completion where preemption is off.
#[derive(Debug)]
pub struct PriorityScheduler {
    priority_levels: u32,
    time_slice: u32,
}

/// `a` is strictly more urgent than `b`: a smaller priority value, or the
/// same priority and a smaller task id.
pub open spec fn more_urgent(a: TaskArtifact, b: TaskArtifact) -> bool {
    a.task.priority < b.task.priority || (a.task.priority == b.task.priority && a.task.id
        < b.task.id)
}

/// Index of the most urgent release of a non-empty ready set; among equally
/// urgent ones, the oldest.
pub open spec fn most_urgent(ready: Seq<TaskArtifact>) -> int
    decreases ready.len(),
{
    if ready.len() <= 1 {
        0
    } else {
        let best = most_urgent(ready.drop_last());
        if more_urgent(ready.last(), ready[best]) {
            ready.len() - 1
        } else {
            best
        }
    }
}

/// `most_urgent` picks a release that none is more urgent than, and the
/// first such.
pub proof fn lemma_most_urgent(ready: Seq<TaskArtifact>)
    requires
        ready.len() > 0,
    ensures
        0 <= most_urgent(ready) < ready.len(),
        forall|k: int| 0 <= k < ready.len() ==> !more_urgent(#[trigger] ready[k], ready[most_urgent(ready)]),
        forall|k: int| 0 <= k < most_urgent(ready) ==> more_urgent(ready[most_urgent(ready)], #[trigger] ready[k]),
    decreases ready.len(),
{
    if ready.len() > 1 {
        lemma_most_urgent(ready.drop_last());
        let best = most_urgent(ready.drop_last());
        assert(ready.drop_last()[best] == ready[best]);
        assert forall|k: int| 0 <= k < ready.len() - 1 implies #[trigger] ready[k] == ready.drop_last()[k] by {}
    }
}

/// The length of the interval granted to a release with `remaining` ticks
/// of work left.
pub open spec fn granted(remaining: u32, quantum: u32, preemptable: bool) -> u32 {
    if preemptable && quantum < remaining {
        quantum
    } else {
        remaining
    }
}

impl PriorityScheduler {
    /// The longest interval granted at once where preemption is on.
    pub closed spec fn quantum(&self) -> u32 {
        self.time_slice
    }

    /// The number of priority levels.
    pub closed spec fn levels(&self) -> u32 {
        self.priority_levels
    }

    /// The scheduler with ten priority levels and a quantum of ten ticks.
    pub closed spec fn standard() -> PriorityScheduler {
        PriorityScheduler { priority_levels: 10, time_slice: 10 }
    }

    /// The standard scheduler's parameters.
    pub proof fn lemma_standard()
        ensures
            Self::standard().quantum() == 10,
            Self::standard().levels() == 10,
    {
    }
}

impl Default for PriorityScheduler {
    fn default() -> (r: Self)
        ensures
            r == PriorityScheduler::standard(),
    {
        Self { priority_levels: 10, time_slice: 10 }
    }
}

impl Scheduler for PriorityScheduler {
    /// The most urgent release gets one quantum, or all of its remaining
    /// time where preemption is off, as early as the core allows.
    open spec fn decision(
        &self,
        ready: Seq<TaskArtifact>,
        core: Seq<ScheduleArtifact>,
        preemptable: bool,
        now: u32,
    ) -> Option<ScheduleArtifact> {
        let chosen = ready[most_urgent(ready)];
        interval(
            chosen.task.id,
            next_start(core, now),
            granted(chosen.duration, self.quantum(), preemptable),
        )
    }

    fn schedule(
        &self,
        tasks: &Vec<TaskArtifact>,
        core: &CoreSchedule,
        preemptable: bool,
        current_time: u32,
    ) -> (r: Option<ScheduleArtifact>) {
        let mut best: usize = 0;
        let mut i: usize = 1;
        while i < tasks.len()
            invariant
                1 <= i <= tasks.len(),
                best == most_urgent(tasks@.take(i as int)),
                0 <= best < i,
            decreases tasks.len() - i,
        {
            proof {
                assert(tasks@.take(i + 1).drop_last() =~= tasks@.take(i as int));
            }
            let a = &tasks[i];
            let b = &tasks[best];
            if a.task.priority < b.task.priority || (a.task.priority == b.task.priority
                && a.task.id < b.task.id) {
                best = i;
            }
            i += 1;
        }
        proof {
            assert(tasks@.take(i as int) =~= tasks@);
        }
        let start: u32 = start_time_for(core, current_time);
        let remaining: u32 = tasks[best].duration;
        let length: u32 = if preemptable && self.time_slice < remaining {
            self.time_slice
        } else {
            remaining
        };
        make_interval(tasks[best].task.id, start, length)
    }
}

} // verus!

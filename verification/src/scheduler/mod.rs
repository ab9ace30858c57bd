//! Scheduling policies: the strategy that picks the next execution interval
//! of a core, and its selection by name.

pub mod priority;
pub mod round_robin;

use vstd::prelude::*;
use crate::error::ScheduleError;
use crate::schedule::{CoreSchedule, ScheduleArtifact, TaskArtifact};
use crate::scheduler::priority::{lemma_most_urgent, most_urgent};
pub use crate::scheduler::priority::PriorityScheduler;
pub use crate::scheduler::round_robin::RoundRobinScheduler;

verus! {

/// The time at which a core with history `core` is free again: the end of
/// its last interval, or zero if it has none.
pub open spec fn free_time(core: Seq<ScheduleArtifact>) -> u32 {
    if core.len() == 0 {
        0
    } else {
        core.last().end_time
    }
}

/// The earliest tick, not before `now`, at which the core can start new work.
pub open spec fn next_start(core: Seq<ScheduleArtifact>, now: u32) -> u32 {
    if free_time(core) > now {
        free_time(core)
    } else {
        now
    }
}

/// The interval of `length` ticks for task `task_id` that starts at `start`;
/// `None` if it would end after the last representable tick.
pub open spec fn interval(task_id: u32, start: u32, length: u32) -> Option<ScheduleArtifact> {
    if start + length > u32::MAX {
        None
    } else {
        Some(ScheduleArtifact { task_id, start_time: start, end_time: (start + length) as u32 })
    }
}

/// What a policy owes the engine: the interval starts neither before `now`
/// nor before the core is free, does not end before it starts, names a task
/// of the ready set, and is no longer than any pending release of that task.
pub open spec fn admissible(
    ready: Seq<TaskArtifact>,
    core: Seq<ScheduleArtifact>,
    now: u32,
    a: ScheduleArtifact,
) -> bool {
    &&& a.start_time >= now
    &&& a.start_time >= free_time(core)
    &&& a.start_time <= a.end_time
    &&& exists|k: int| 0 <= k < ready.len() && (#[trigger] ready[k]).task.id == a.task_id
    &&& forall|k: int|
        0 <= k < ready.len() && (#[trigger] ready[k]).task.id == a.task_id ==> ready[k].duration
            >= a.end_time - a.start_time
}

/// Computes `next_start`.
pub fn start_time_for(core: &CoreSchedule, now: u32) -> (start: u32)
    ensures
        start == next_start(core@, now),
{
    let free: u32 = if core.len() == 0 {
        0
    } else {
        core[core.len() - 1].end_time
    };
    if free > now {
        free
    } else {
        now
    }
}

/// Computes `interval`.
pub fn make_interval(task_id: u32, start: u32, length: u32) -> (r: Option<ScheduleArtifact>)
    ensures
        r == interval(task_id, start, length),
{
    match start.checked_add(length) {
        Some(end) => Some(ScheduleArtifact { task_id, start_time: start, end_time: end }),
        None => None,
    }
}

/// A scheduling policy: decides the next execution interval of one core.
/// The interval starts neither before the current tick nor before the core
/// is free, and is for a task of the ready set.
pub trait Scheduler {
    /// The policy's decision for the ready set `ready`, the history `core`
    /// of the chosen core, the preemption flag and the current tick; `None`
    /// if the interval would end after the last representable tick.
    spec fn decision(
        &self,
        ready: Seq<TaskArtifact>,
        core: Seq<ScheduleArtifact>,
        preemptable: bool,
        now: u32,
    ) -> Option<ScheduleArtifact>;

    /// Produces the next interval for a core.
    fn schedule(
        &self,
        tasks: &Vec<TaskArtifact>,
        core: &CoreSchedule,
        preemptable: bool,
        current_time: u32,
    ) -> (r: Option<ScheduleArtifact>)
        requires
            tasks@.len() > 0,
        ensures
            r == self.decision(tasks@, core@, preemptable, current_time),
            r matches Some(a) ==> {
                &&& a.start_time >= current_time
                &&& a.start_time >= free_time(core@)
                &&& a.start_time <= a.end_time
                &&& exists|k: int|
                    0 <= k < tasks@.len() && (#[trigger] tasks@[k]).task.id == a.task_id
            },
    ;
}

/// The policies that can be selected by name.
#[derive(Debug)]
pub enum Policy {
    RoundRobin(RoundRobinScheduler),
    Priority(PriorityScheduler),
}

impl Scheduler for Policy {
    open spec fn decision(
        &self,
        ready: Seq<TaskArtifact>,
        core: Seq<ScheduleArtifact>,
        preemptable: bool,
        now: u32,
    ) -> Option<ScheduleArtifact> {
        match self {
            Policy::RoundRobin(s) => s.decision(ready, core, preemptable, now),
            Policy::Priority(s) => s.decision(ready, core, preemptable, now),
        }
    }

    fn schedule(
        &self,
        tasks: &Vec<TaskArtifact>,
        core: &CoreSchedule,
        preemptable: bool,
        current_time: u32,
    ) -> (r: Option<ScheduleArtifact>) {
        match self {
            Policy::RoundRobin(s) => s.schedule(tasks, core, preemptable, current_time),
            Policy::Priority(s) => s.schedule(tasks, core, preemptable, current_time),
        }
    }
}

/// The policy that the name `algorithm` selects, if there is one.
pub open spec fn policy_named(algorithm: Seq<char>) -> Option<Policy> {
    if algorithm == "round_robin"@ {
        Some(Policy::RoundRobin(RoundRobinScheduler))
    } else if algorithm == "priority"@ {
        Some(Policy::Priority(PriorityScheduler::standard()))
    } else {
        None
    }
}

/// Selects a policy by name: `"round_robin"` or `"priority"`. Any other name
/// is refused.
pub fn get_scheduler(algorithm: &str) -> (r: Result<Policy, ScheduleError>)
    ensures
        r == match policy_named(algorithm@) {
            Some(p) => Ok::<Policy, ScheduleError>(p),
            None => Err::<Policy, ScheduleError>(ScheduleError::UnknownAlgorithm),
        },
{
    let name: String = algorithm.to_owned();
    if name == "round_robin".to_owned() {
        Ok(Policy::RoundRobin(RoundRobinScheduler::default()))
    } else if name == "priority".to_owned() {
        Ok(Policy::Priority(PriorityScheduler::default()))
    } else {
        Err(ScheduleError::UnknownAlgorithm)
    }
}

/// Every interval that a selectable policy decides on starts at the
/// earliest tick that is neither before `now` nor before the core is free.
/// For round-robin its task is that of the oldest release and its length
/// all that release has left; for the priority policy its task is that of
/// the most urgent release, and its length no more than that release has
/// left, and all of it where preemption is off.
pub proof fn lemma_decision_sound(
    policy: Policy,
    ready: Seq<TaskArtifact>,
    core: Seq<ScheduleArtifact>,
    preemptable: bool,
    now: u32,
)
    requires
        ready.len() > 0,
    ensures
        policy.decision(ready, core, preemptable, now) matches Some(a) ==> {
            &&& a.start_time == next_start(core, now)
            &&& a.start_time >= now
            &&& a.start_time >= free_time(core)
            &&& a.start_time <= a.end_time
            &&& match policy {
                Policy::RoundRobin(_) => a.task_id == ready[0].task.id && a.end_time
                    - a.start_time == ready[0].duration,
                Policy::Priority(_) => 0 <= most_urgent(ready) < ready.len() && a.task_id
                    == ready[most_urgent(ready)].task.id
                    && a.end_time - a.start_time <= ready[most_urgent(ready)].duration
                    && (!preemptable ==> a.end_time - a.start_time == ready[most_urgent(
                    ready,
                )].duration),
            }
        },
{
    lemma_most_urgent(ready);
}

} // verus!

//! The simulation as a mathematical function: what the engine computes,
//! tick by tick, stated over sequences.

use vstd::prelude::*;
use crate::arith::lcm_all;
use crate::error::ScheduleError;
use crate::processor::Processor;
use crate::schedule::{ScheduleArtifact, TaskArtifact};
use crate::scheduler::{admissible, free_time, policy_named, Policy, Scheduler};
use crate::task::{periods, Task};

verus! {

/// The state of the simulation between two ticks.
pub struct SimState<'a> {
    /// The timeline of each core.
    pub cores: Seq<Seq<ScheduleArtifact>>,
    /// The releases that still have work left, oldest first.
    pub ready: Seq<TaskArtifact<'a>>,
}

/// The releases that fall on tick `now`, in the order of the task set.
pub open spec fn released<'a>(tasks: Seq<Task>, now: u32) -> Seq<TaskArtifact<'a>>
    decreases tasks.len(),
{
    if tasks.len() == 0 {
        Seq::empty()
    } else {
        let rest = released(tasks.drop_last(), now);
        let t = tasks.last();
        if t.period > 0 && now % t.period == 0 {
            rest.push(TaskArtifact { task: &t, duration: t.execution_time })
        } else {
            rest
        }
    }
}

/// The ready set after an interval of `length` ticks was committed for
/// task `task_id`: every release of that task has `length` ticks less to
/// run, and the releases with nothing left are gone.
pub open spec fn settle<'a>(ready: Seq<TaskArtifact<'a>>, task_id: u32, length: u32) -> Seq<
    TaskArtifact<'a>,
>
    decreases ready.len(),
{
    if ready.len() == 0 {
        Seq::empty()
    } else {
        let rest = settle(ready.drop_last(), task_id, length);
        let a = ready.last();
        let left: int = if a.task.id == task_id {
            a.duration - length
        } else {
            a.duration as int
        };
        if left > 0 {
            rest.push(TaskArtifact { task: a.task, duration: left as u32 })
        } else {
            rest
        }
    }
}

/// The core that is free first: the one with the least free time, and among
/// those the one with the lowest index.
pub open spec fn earliest_core(cores: Seq<Seq<ScheduleArtifact>>) -> int
    decreases cores.len(),
{
    if cores.len() <= 1 {
        0
    } else {
        let best = earliest_core(cores.drop_last());
        if free_time(cores.last()) < free_time(cores[best]) {
            cores.len() - 1
        } else {
            best
        }
    }
}

/// `earliest_core` names a core that none is free before, and the first
/// such.
pub proof fn lemma_earliest_core(cores: Seq<Seq<ScheduleArtifact>>)
    requires
        cores.len() > 0,
    ensures
        0 <= earliest_core(cores) < cores.len(),
        forall|k: int|
            0 <= k < cores.len() ==> free_time(cores[earliest_core(cores)]) <= free_time(
                #[trigger] cores[k],
            ),
        forall|k: int|
            0 <= k < earliest_core(cores) ==> free_time(cores[earliest_core(cores)]) < free_time(
                #[trigger] cores[k],
            ),
    decreases cores.len(),
{
    if cores.len() > 1 {
        let front = cores.drop_last();
        lemma_earliest_core(front);
        assert(front[earliest_core(front)] == cores[earliest_core(front)]);
        assert forall|k: int| 0 <= k < cores.len() - 1 implies #[trigger] cores[k] == front[k] by {}
    }
}

/// One tick: the releases of `now` join the ready set; if any work is
/// pending, the policy decides for the core that is free first, and the
/// interval is committed if it is admissible.
pub open spec fn step<'a>(
    tasks: Seq<Task>,
    policy: Policy,
    preemptable: bool,
    st: SimState<'a>,
    now: u32,
) -> Result<SimState<'a>, ScheduleError> {
    let ready = st.ready + released(tasks, now);
    if ready.len() == 0 {
        Ok(SimState { cores: st.cores, ready })
    } else {
        let c = earliest_core(st.cores);
        match policy.decision(ready, st.cores[c], preemptable, now) {
            None => Err(ScheduleError::TimelineOverflow),
            Some(a) => if admissible(ready, st.cores[c], now, a) {
                Ok(
                    SimState {
                        cores: st.cores.update(c, st.cores[c].push(a)),
                        ready: settle(ready, a.task_id, (a.end_time - a.start_time) as u32),
                    },
                )
            } else {
                Err(ScheduleError::PolicyViolation)
            },
        }
    }
}

/// The state before any tick: `cores` empty timelines, nothing ready.
pub open spec fn initial<'a>(cores: nat) -> SimState<'a> {
    SimState { cores: Seq::new(cores, |i: int| Seq::empty()), ready: Seq::empty() }
}

/// The state after the ticks `0 .. horizon`, or the first error.
pub open spec fn run<'a>(
    tasks: Seq<Task>,
    policy: Policy,
    preemptable: bool,
    cores: nat,
    horizon: nat,
) -> Result<SimState<'a>, ScheduleError>
    decreases horizon,
{
    if horizon == 0 {
        Ok(initial(cores))
    } else {
        match run(tasks, policy, preemptable, cores, (horizon - 1) as nat) {
            Err(e) => Err(e),
            Ok(st) => step(tasks, policy, preemptable, st, (horizon - 1) as u32),
        }
    }
}

/// The timelines that schedule generation yields for a task set on a
/// processor, or the error that stops it: an unknown algorithm first, then
/// a hyperperiod that does not fit, then the first error of the run over
/// one hyperperiod.
pub open spec fn generated(tasks: Seq<Task>, processor: Processor) -> Result<
    Seq<Seq<ScheduleArtifact>>,
    ScheduleError,
> {
    match policy_named(processor.scheduler_algorithm@) {
        None => Err(ScheduleError::UnknownAlgorithm),
        Some(policy) => if lcm_all(periods(tasks)) > u32::MAX {
            Err(ScheduleError::HyperperiodOverflow)
        } else {
            match run(
                tasks,
                policy,
                processor.preemption_enabled,
                processor.cores as nat,
                lcm_all(periods(tasks)),
            ) {
                Err(e) => Err(e),
                Ok(st) => Ok(st.cores),
            }
        },
    }
}

/// Once a run has failed, it has failed for every longer horizon too.
pub proof fn lemma_run_error_stays(
    tasks: Seq<Task>,
    policy: Policy,
    preemptable: bool,
    cores: nat,
    failed: nat,
    horizon: nat,
)
    requires
        failed <= horizon,
        run(tasks, policy, preemptable, cores, failed) is Err,
    ensures
        run(tasks, policy, preemptable, cores, horizon) == run(
            tasks,
            policy,
            preemptable,
            cores,
            failed,
        ),
    decreases horizon,
{
    if failed < horizon {
        lemma_run_error_stays(tasks, policy, preemptable, cores, failed, (horizon - 1) as nat);
    }
}

} // verus!

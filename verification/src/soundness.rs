//! The selectable policies honour the engine's demands: on a task set with
//! distinct ids no generation stops because of an inadmissible interval.

use vstd::prelude::*;
use crate::error::ScheduleError;
use crate::model::{generated, released, run, settle, step, SimState};
use crate::processor::Processor;
use crate::schedule::{ScheduleArtifact, TaskArtifact};
use crate::scheduler::priority::{lemma_most_urgent, more_urgent, most_urgent};
use crate::scheduler::{admissible, lemma_decision_sound, policy_named, Policy, Scheduler};
use crate::task::{all_valid, Task};

verus! {

/// No two tasks of the set share an id.
pub open spec fn distinct_ids(tasks: Seq<Task>) -> bool {
    forall|i: int, j: int|
        0 <= i < tasks.len() && 0 <= j < tasks.len() && (#[trigger] tasks[i]).id == (
        #[trigger] tasks[j]).id ==> i == j
}

/// The release belongs to a task of the set and has some work left, no
/// more than the task needs.
pub open spec fn from_task_set(tasks: Seq<Task>, a: TaskArtifact) -> bool {
    &&& exists|i: int| 0 <= i < tasks.len() && *a.task == #[trigger] tasks[i]
    &&& 0 < a.duration <= a.task.execution_time
}

/// Every release of the ready set belongs to a task of the set, and of two
/// releases of one task the older has no more work left than the younger.
pub open spec fn ready_consistent(tasks: Seq<Task>, ready: Seq<TaskArtifact>) -> bool {
    &&& forall|k: int| 0 <= k < ready.len() ==> from_task_set(tasks, #[trigger] ready[k])
    &&& forall|j: int, k: int|
        0 <= j < k < ready.len() && (#[trigger] ready[j]).task.id == (#[trigger] ready[k]).task.id
            ==> ready[j].duration <= ready[k].duration
}

/// Two releases of tasks of a set with distinct ids that carry the same id
/// belong to the same task.
pub proof fn lemma_same_id_same_task(tasks: Seq<Task>, a: TaskArtifact, b: TaskArtifact)
    requires
        distinct_ids(tasks),
        from_task_set(tasks, a),
        from_task_set(tasks, b),
        a.task.id == b.task.id,
    ensures
        *a.task == *b.task,
{
    let i = choose|i: int| 0 <= i < tasks.len() && *a.task == #[trigger] tasks[i];
    let j = choose|j: int| 0 <= j < tasks.len() && *b.task == #[trigger] tasks[j];
    assert(tasks[i].id == tasks[j].id);
}

/// Every release of a tick belongs to a task of the set and has all of the
/// task's work left.
pub proof fn lemma_released_fresh(tasks: Seq<Task>, now: u32)
    requires
        all_valid(tasks),
    ensures
        forall|k: int|
            0 <= k < released(tasks, now).len() ==> {
                &&& from_task_set(tasks, #[trigger] released(tasks, now)[k])
                &&& released(tasks, now)[k].duration == released(tasks, now)[k].task.execution_time
            },
    decreases tasks.len(),
{
    if tasks.len() > 0 {
        let front = tasks.drop_last();
        lemma_released_fresh(front, now);
        let rel = released(tasks, now);
        assert forall|k: int| 0 <= k < rel.len() implies {
            &&& from_task_set(tasks, #[trigger] rel[k])
            &&& rel[k].duration == rel[k].task.execution_time
        } by {
            if k < released(front, now).len() {
                let a = released(front, now)[k];
                assert(rel[k] == a);
                assert(from_task_set(front, a));
                let i = choose|i: int| 0 <= i < front.len() && *a.task == #[trigger] front[i];
                assert(tasks[i] == front[i]);
            } else {
                assert(*rel[k].task == tasks[tasks.len() - 1]);
                assert(tasks[tasks.len() - 1].valid());
            }
        }
    }
}

/// A consistent ready set stays consistent when the releases of a tick
/// join it.
pub proof fn lemma_release_consistent(tasks: Seq<Task>, ready: Seq<TaskArtifact>, now: u32)
    requires
        all_valid(tasks),
        distinct_ids(tasks),
        ready_consistent(tasks, ready),
    ensures
        ready_consistent(tasks, ready + released(tasks, now)),
{
    lemma_released_fresh(tasks, now);
    let rel = released(tasks, now);
    let all = ready + rel;
    assert forall|k: int| 0 <= k < all.len() implies from_task_set(tasks, #[trigger] all[k]) by {
        if k < ready.len() {
            assert(all[k] == ready[k]);
        } else {
            assert(all[k] == rel[k - ready.len()]);
        }
    }
    assert forall|j: int, k: int|
        0 <= j < k < all.len() && (#[trigger] all[j]).task.id == (#[trigger] all[k]).task.id implies all[j].duration
        <= all[k].duration by {
        if k < ready.len() {
            assert(all[j] == ready[j] && all[k] == ready[k]);
        } else {
            assert(all[k] == rel[k - ready.len()]);
            lemma_same_id_same_task(tasks, all[j], all[k]);
        }
    }
}

/// The work that an interval of `length` ticks for task `task_id` takes off
/// a release.
pub open spec fn taken(a: TaskArtifact, task_id: u32, length: u32) -> int {
    if a.task.id == task_id {
        length as int
    } else {
        0
    }
}

/// Settling keeps a ready set consistent, and every release that stays
/// comes from a release of the same task with the interval's length taken
/// off.
pub proof fn lemma_settle_consistent(
    tasks: Seq<Task>,
    ready: Seq<TaskArtifact>,
    task_id: u32,
    length: u32,
)
    requires
        ready_consistent(tasks, ready),
    ensures
        ready_consistent(tasks, settle(ready, task_id, length)),
        forall|k: int|
            0 <= k < settle(ready, task_id, length).len() ==> exists|j: int|
                0 <= j < ready.len() && (#[trigger] ready[j]).task == (#[trigger] settle(
                    ready,
                    task_id,
                    length,
                )[k]).task && settle(ready, task_id, length)[k].duration == ready[j].duration
                    - taken(ready[j], task_id, length),
    decreases ready.len(),
{
    if ready.len() > 0 {
        let front = ready.drop_last();
        let last = ready.last();
        assert(ready_consistent(tasks, front)) by {
            assert forall|k: int| 0 <= k < front.len() implies from_task_set(
                tasks,
                #[trigger] front[k],
            ) by {
                assert(front[k] == ready[k]);
            }
            assert forall|j: int, k: int|
                0 <= j < k < front.len() && (#[trigger] front[j]).task.id == (
                #[trigger] front[k]).task.id implies front[j].duration <= front[k].duration by {
                assert(front[j] == ready[j] && front[k] == ready[k]);
            }
        }
        lemma_settle_consistent(tasks, front, task_id, length);
        let sf = settle(front, task_id, length);
        let s = settle(ready, task_id, length);
        assert forall|k: int| 0 <= k < s.len() implies exists|j: int|
            0 <= j < ready.len() && (#[trigger] ready[j]).task == (#[trigger] s[k]).task
                && s[k].duration == ready[j].duration - taken(ready[j], task_id, length) by {
            if k < sf.len() {
                assert(s[k] == sf[k]);
                let j = choose|j: int|
                    0 <= j < front.len() && (#[trigger] front[j]).task == sf[k].task
                        && sf[k].duration == front[j].duration - taken(front[j], task_id, length);
                assert(front[j] == ready[j]);
            } else {
                assert(ready[ready.len() - 1] == last);
                assert(s[k].task == last.task);
            }
        }
        assert forall|k: int| 0 <= k < s.len() implies from_task_set(tasks, #[trigger] s[k]) by {
            if k < sf.len() {
                assert(s[k] == sf[k]);
            } else {
                assert(from_task_set(tasks, ready[ready.len() - 1]));
                assert(s[k].task == last.task);
                let i = choose|i: int| 0 <= i < tasks.len() && *last.task == #[trigger] tasks[i];
                assert(*s[k].task == tasks[i]);
            }
        }
        assert forall|j: int, k: int|
            0 <= j < k < s.len() && (#[trigger] s[j]).task.id == (#[trigger] s[k]).task.id implies s[j].duration
            <= s[k].duration by {
            if k < sf.len() {
                assert(s[j] == sf[j] && s[k] == sf[k]);
            } else {
                assert(s[j] == sf[j]);
                let o = choose|o: int|
                    0 <= o < front.len() && (#[trigger] front[o]).task == sf[j].task
                        && sf[j].duration == front[o].duration - taken(front[o], task_id, length);
                assert(front[o] == ready[o]);
                assert(ready[ready.len() - 1] == last);
                assert(ready[o].task.id == ready[ready.len() - 1].task.id);
                assert(ready[o].duration <= last.duration);
            }
        }
    }
}

/// On a consistent, non-empty ready set every interval that a selectable
/// policy decides on is admissible.
pub proof fn lemma_decision_admissible(
    tasks: Seq<Task>,
    policy: Policy,
    ready: Seq<TaskArtifact>,
    core: Seq<ScheduleArtifact>,
    preemptable: bool,
    now: u32,
)
    requires
        distinct_ids(tasks),
        ready_consistent(tasks, ready),
        ready.len() > 0,
    ensures
        policy.decision(ready, core, preemptable, now) matches Some(a) ==> admissible(
            ready,
            core,
            now,
            a,
        ),
{
    lemma_decision_sound(policy, ready, core, preemptable, now);
    lemma_most_urgent(ready);
    match policy.decision(ready, core, preemptable, now) {
        Some(a) => {
            let m: int = match policy {
                Policy::RoundRobin(_) => 0,
                Policy::Priority(_) => most_urgent(ready),
            };
            assert(ready[m].task.id == a.task_id);
            assert(a.end_time - a.start_time <= ready[m].duration);
            assert forall|k: int|
                0 <= k < ready.len() && (#[trigger] ready[k]).task.id == a.task_id implies ready[k].duration
                >= a.end_time - a.start_time by {
                if k < m {
                    lemma_same_id_same_task(tasks, ready[k], ready[m]);
                    assert(more_urgent(ready[m], ready[k]));
                } else if k > m {
                    assert(ready[m].duration <= ready[k].duration);
                }
            }
        },
        None => {},
    }
}

/// On a valid task set with distinct ids a run under a selectable policy
/// never stops for an inadmissible interval, and leaves a consistent ready
/// set.
pub proof fn lemma_run_consistent(
    tasks: Seq<Task>,
    policy: Policy,
    preemptable: bool,
    cores: nat,
    horizon: nat,
)
    requires
        all_valid(tasks),
        distinct_ids(tasks),
    ensures
        run(tasks, policy, preemptable, cores, horizon) != Err::<SimState, ScheduleError>(
            ScheduleError::PolicyViolation,
        ),
        run(tasks, policy, preemptable, cores, horizon) matches Ok(st) ==> ready_consistent(
            tasks,
            st.ready,
        ),
    decreases horizon,
{
    if horizon > 0 {
        lemma_run_consistent(tasks, policy, preemptable, cores, (horizon - 1) as nat);
        let now = (horizon - 1) as u32;
        match run(tasks, policy, preemptable, cores, (horizon - 1) as nat) {
            Ok(st) => {
                lemma_release_consistent(tasks, st.ready, now);
                let ready = st.ready + released(tasks, now);
                if ready.len() > 0 {
                    let core = st.cores[crate::model::earliest_core(st.cores)];
                    lemma_decision_admissible(tasks, policy, ready, core, preemptable, now);
                    match policy.decision(ready, core, preemptable, now) {
                        Some(a) => {
                            lemma_settle_consistent(
                                tasks,
                                ready,
                                a.task_id,
                                (a.end_time - a.start_time) as u32,
                            );
                        },
                        None => {},
                    }
                }
            },
            Err(_) => {},
        }
    }
}

/// On a valid task set with distinct ids, schedule generation never fails
/// with a policy violation.
pub proof fn lemma_generated_no_violation(tasks: Seq<Task>, processor: Processor)
    requires
        all_valid(tasks),
        distinct_ids(tasks),
    ensures
        generated(tasks, processor) != Err::<Seq<Seq<ScheduleArtifact>>, ScheduleError>(
            ScheduleError::PolicyViolation,
        ),
{
    match policy_named(processor.scheduler_algorithm@) {
        Some(policy) => {
            lemma_run_consistent(
                tasks,
                policy,
                processor.preemption_enabled,
                processor.cores as nat,
                crate::arith::lcm_all(crate::task::periods(tasks)),
            );
        },
        None => {},
    }
}

} // verus!

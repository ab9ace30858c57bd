//! Laws of the library: what holds of every hyperperiod and every schedule.

use vstd::prelude::*;
use crate::arith::{
    all_positive, gcd, lcm, lcm_all, least_common_multiple, lemma_gcd_divides,
    lemma_lcm_all_is_least, lemma_lcm_all_least, lemma_lcm_all_multiple,
};
use crate::error::ScheduleError;
use crate::model::{
    earliest_core, generated, initial, lemma_earliest_core, released, run, settle, step, SimState,
};
use crate::processor::Processor;
use crate::schedule::{
    generate_yields, lemma_push_ordered, timeline_ordered, Schedule, ScheduleArtifact,
    TaskArtifact,
};
use crate::scheduler::{admissible, Policy, RoundRobinScheduler, Scheduler};
use crate::task::{all_valid, periods, Task};

verus! {

/// The hyperperiod of a valid task set is positive and divisible by every
/// task's period, and no smaller positive number is divisible by every
/// period.
pub proof fn lemma_hyperperiod_least_common_multiple(tasks: Seq<Task>)
    requires
        all_valid(tasks),
    ensures
        lcm_all(periods(tasks)) > 0,
        forall|i: int|
            0 <= i < tasks.len() ==> lcm_all(periods(tasks)) % ((#[trigger] tasks[i]).period as nat)
                == 0,
        least_common_multiple(lcm_all(periods(tasks)), periods(tasks)),
{
    let ps = periods(tasks);
    assert(all_positive(ps)) by {
        assert forall|i: int| 0 <= i < ps.len() implies #[trigger] ps[i] > 0 by {
            assert(tasks[i].valid());
        }
    }
    lemma_lcm_all_multiple(ps);
    assert forall|i: int| 0 <= i < tasks.len() implies lcm_all(ps) % (
        (#[trigger] tasks[i]).period as nat
    ) == 0 by {
        assert(ps[i] == tasks[i].period as nat);
    }
    lemma_lcm_all_is_least(ps);
}

/// The hyperperiod of a valid task set divides every number that all the
/// periods divide.
pub proof fn lemma_hyperperiod_divides_common_multiples(tasks: Seq<Task>, m: nat)
    requires
        all_valid(tasks),
        forall|i: int| 0 <= i < tasks.len() ==> m % ((#[trigger] tasks[i]).period as nat) == 0,
    ensures
        m % lcm_all(periods(tasks)) == 0,
{
    let ps = periods(tasks);
    assert(all_positive(ps)) by {
        assert forall|i: int| 0 <= i < ps.len() implies #[trigger] ps[i] > 0 by {
            assert(tasks[i].valid());
        }
    }
    assert forall|i: int| 0 <= i < ps.len() implies m % #[trigger] ps[i] == 0 by {
        assert(ps[i] == tasks[i].period as nat);
    }
    lemma_lcm_all_least(ps, m);
}

/// On an ordered timeline an earlier interval has ended when a later one
/// starts: no two intervals overlap.
pub proof fn lemma_timeline_disjoint(core: Seq<ScheduleArtifact>, i: int, j: int)
    requires
        timeline_ordered(core),
        0 <= i < j < core.len(),
    ensures
        core[i].end_time <= core[j].start_time,
    decreases j - i,
{
    if i + 1 < j {
        lemma_timeline_disjoint(core, i, j - 1);
        assert(core[j - 1].start_time <= core[j - 1].end_time);
        assert(core[j - 1].end_time <= core[j - 1 + 1].start_time);
    } else {
        assert(core[i].end_time <= core[i + 1].start_time);
    }
}

/// On an ordered timeline the start times never decrease.
pub proof fn lemma_timeline_monotone(core: Seq<ScheduleArtifact>, i: int, j: int)
    requires
        timeline_ordered(core),
        0 <= i <= j < core.len(),
    ensures
        core[i].start_time <= core[j].start_time,
{
    if i < j {
        lemma_timeline_disjoint(core, i, j);
        assert(core[i].start_time <= core[i].end_time);
    }
}

/// One tick keeps the number of timelines, and keeps every timeline
/// ordered.
pub proof fn lemma_step_ordered(
    tasks: Seq<Task>,
    policy: Policy,
    preemptable: bool,
    st: SimState,
    now: u32,
)
    requires
        st.cores.len() > 0,
        forall|c: int| 0 <= c < st.cores.len() ==> timeline_ordered(#[trigger] st.cores[c]),
    ensures
        step(tasks, policy, preemptable, st, now) matches Ok(next) ==> {
            &&& next.cores.len() == st.cores.len()
            &&& forall|c: int|
                0 <= c < next.cores.len() ==> timeline_ordered(#[trigger] next.cores[c])
        },
{
    lemma_earliest_core(st.cores);
    let ready = st.ready + released(tasks, now);
    let c = earliest_core(st.cores);
    if ready.len() > 0 {
        match policy.decision(ready, st.cores[c], preemptable, now) {
            Some(a) => {
                if admissible(ready, st.cores[c], now, a) {
                    lemma_push_ordered(st.cores[c], a);
                    let next = step(tasks, policy, preemptable, st, now)->Ok_0;
                    assert(next.cores == st.cores.update(c, st.cores[c].push(a)));
                    assert forall|k: int| 0 <= k < next.cores.len() implies timeline_ordered(
                        #[trigger] next.cores[k],
                    ) by {
                        if k != c {
                            assert(next.cores[k] == st.cores[k]);
                        }
                    }
                }
            },
            None => {},
        }
    }
}

/// A run that succeeds keeps one timeline per core, and every timeline
/// ordered.
pub proof fn lemma_run_ordered(
    tasks: Seq<Task>,
    policy: Policy,
    preemptable: bool,
    cores: nat,
    horizon: nat,
)
    requires
        cores > 0,
    ensures
        run(tasks, policy, preemptable, cores, horizon) matches Ok(st) ==> {
            &&& st.cores.len() == cores
            &&& forall|c: int| 0 <= c < cores ==> timeline_ordered(#[trigger] st.cores[c])
        },
    decreases horizon,
{
    if horizon > 0 {
        lemma_run_ordered(tasks, policy, preemptable, cores, (horizon - 1) as nat);
        match run(tasks, policy, preemptable, cores, (horizon - 1) as nat) {
            Ok(st) => {
                lemma_step_ordered(tasks, policy, preemptable, st, (horizon - 1) as u32);
            },
            Err(_) => {},
        }
    }
}

/// Whatever the task set and the processor, the generated timelines are
/// one per core, and on each of them no two intervals overlap and the start
/// times never decrease.
pub proof fn lemma_generated_ordered(tasks: Seq<Task>, processor: Processor)
    requires
        processor.cores > 0,
    ensures
        generated(tasks, processor) matches Ok(cores) ==> {
            &&& cores.len() == processor.cores
            &&& forall|c: int, i: int, j: int|
                0 <= c < cores.len() && 0 <= i < j < cores[c].len() ==> {
                    &&& (#[trigger] cores[c][i]).end_time <= (#[trigger] cores[c][j]).start_time
                    &&& cores[c][i].start_time <= cores[c][j].start_time
                }
        },
{
    match generated(tasks, processor) {
        Ok(cores) => {
            let policy = crate::scheduler::policy_named(processor.scheduler_algorithm@)->Some_0;
            lemma_run_ordered(
                tasks,
                policy,
                processor.preemption_enabled,
                processor.cores as nat,
                lcm_all(periods(tasks)),
            );
            assert forall|c: int, i: int, j: int|
                0 <= c < cores.len() && 0 <= i < j < cores[c].len() implies {
                &&& (#[trigger] cores[c][i]).end_time <= (#[trigger] cores[c][j]).start_time
                &&& cores[c][i].start_time <= cores[c][j].start_time
            } by {
                assert(timeline_ordered(cores[c]));
                lemma_timeline_disjoint(cores[c], i, j);
                lemma_timeline_monotone(cores[c], i, j);
            }
        },
        Err(_) => {},
    }
}

/// In a schedule, any two intervals of one core are disjoint, the earlier
/// ending no later than the later starts.
pub proof fn lemma_schedule_no_overlap(s: Schedule, c: int, i: int, j: int)
    requires
        s.wf(),
        0 <= c < s.timelines().len(),
        0 <= i < j < s.timelines()[c].len(),
    ensures
        s.timelines()[c][i].end_time <= s.timelines()[c][j].start_time,
{
    lemma_timeline_disjoint(s.timelines()[c], i, j);
}

/// In a schedule, the start times of one core's intervals never decrease.
pub proof fn lemma_schedule_monotone(s: Schedule, c: int, i: int, j: int)
    requires
        s.wf(),
        0 <= c < s.timelines().len(),
        0 <= i <= j < s.timelines()[c].len(),
    ensures
        s.timelines()[c][i].start_time <= s.timelines()[c][j].start_time,
{
    lemma_timeline_monotone(s.timelines()[c], i, j);
}

/// Two generations from the same task set and processor agree: both fail
/// with the same error, or both yield the same task set and timelines.
pub proof fn lemma_generate_deterministic(
    tasks: Seq<Task>,
    processor: Processor,
    r1: Result<Schedule, ScheduleError>,
    r2: Result<Schedule, ScheduleError>,
)
    requires
        generate_yields(tasks, processor, r1),
        generate_yields(tasks, processor, r2),
    ensures
        match (r1, r2) {
            (Ok(s1), Ok(s2)) => s1.timelines() == s2.timelines() && s1.task_set() == s2.task_set(),
            (Err(e1), Err(e2)) => e1 == e2,
            _ => false,
        },
{
}

/// The ticks of work that a timeline holds for task `task_id`.
pub open spec fn total_duration(core: Seq<ScheduleArtifact>, task_id: u32) -> int
    decreases core.len(),
{
    if core.len() == 0 {
        0
    } else {
        total_duration(core.drop_last(), task_id) + if core.last().task_id == task_id {
            core.last().end_time - core.last().start_time
        } else {
            0
        }
    }
}

/// The hyperperiod of a single valid task is its period.
pub proof fn lemma_single_task_hyperperiod(t: Task)
    requires
        t.valid(),
    ensures
        lcm_all(periods(seq![t])) == t.period,
{
    let ps = periods(seq![t]);
    assert(ps.drop_last() =~= Seq::<nat>::empty());
    assert(ps.last() == t.period as nat);
    assert(lcm_all(ps.drop_last()) == 1);
    lemma_gcd_divides(1, t.period as nat);
    let g = gcd(1, t.period as nat);
    assert(g == 1) by {
        if g > 1 {
            vstd::arithmetic::div_mod::lemma_small_mod(1, g);
        }
    }
    assert(1 * (t.period as nat) == t.period as nat);
    assert(lcm(1, t.period as nat) == t.period as nat);
}

/// Round-robin on one core with a single valid task: after any number of
/// ticks from one up to the period, the timeline holds exactly the first
/// release, run from tick 0 to completion, and nothing is pending.
pub proof fn lemma_single_task_run(t: Task, preemptable: bool, horizon: nat)
    requires
        t.valid(),
        1 <= horizon <= t.period,
    ensures
        run(seq![t], Policy::RoundRobin(RoundRobinScheduler), preemptable, 1, horizon) == Ok::<
            SimState,
            ScheduleError,
        >(
            SimState {
                cores: seq![
                    seq![
                        ScheduleArtifact {
                            task_id: t.id,
                            start_time: 0,
                            end_time: t.execution_time,
                        },
                    ],
                ],
                ready: Seq::empty(),
            },
        ),
    decreases horizon,
{
    let tasks = seq![t];
    let policy = Policy::RoundRobin(RoundRobinScheduler);
    let a = ScheduleArtifact { task_id: t.id, start_time: 0, end_time: t.execution_time };
    let done = SimState { cores: seq![seq![a]], ready: Seq::empty() };
    assert(tasks.drop_last() =~= Seq::<Task>::empty());
    assert(tasks.last() == t);
    reveal_with_fuel(released, 3);
    reveal_with_fuel(settle, 3);
    if horizon == 1 {
        let st: SimState = initial(1);
        assert(run(tasks, policy, preemptable, 1, 0) == Ok::<SimState, ScheduleError>(st));
        let rel = released(tasks, 0);
        assert(0u32 % t.period == 0);
        let ta = TaskArtifact { task: &t, duration: t.execution_time };
        assert(rel =~= seq![ta]);
        let ready = st.ready + rel;
        assert(ready =~= seq![ta]);
        assert(earliest_core(st.cores) == 0);
        assert(st.cores[0] =~= Seq::<ScheduleArtifact>::empty());
        assert(policy.decision(ready, st.cores[0], preemptable, 0) == Some(a));
        assert(ready[0].task.id == a.task_id);
        assert(ready.drop_last() =~= Seq::<TaskArtifact>::empty());
        assert(settle(ready, a.task_id, t.execution_time) =~= Seq::<TaskArtifact>::empty());
        assert(st.cores.update(0, st.cores[0].push(a)) =~= seq![seq![a]]);
        assert(step(tasks, policy, preemptable, st, 0) == Ok::<SimState, ScheduleError>(done));
    } else {
        lemma_single_task_run(t, preemptable, (horizon - 1) as nat);
        let now = (horizon - 1) as u32;
        assert(0 < now < t.period);
        vstd::arithmetic::div_mod::lemma_small_mod(now as nat, t.period as nat);
        assert(released(tasks, now) =~= Seq::<TaskArtifact>::empty());
        assert(done.ready + released(tasks, now) =~= Seq::<TaskArtifact>::empty());
        assert(step(tasks, policy, preemptable, done, now) == Ok::<SimState, ScheduleError>(done));
    }
}

/// Round-robin with a single valid task on a single core succeeds, and the
/// ticks of work on the timeline are the task's execution time multiplied
/// by the number of its releases in one hyperperiod.
pub proof fn lemma_round_robin_conservation(t: Task, processor: Processor)
    requires
        t.valid(),
        processor.cores == 1,
        processor.scheduler_algorithm@ == "round_robin"@,
    ensures
        generated(seq![t], processor) is Ok,
        generated(seq![t], processor)->Ok_0.len() == 1,
        total_duration(generated(seq![t], processor)->Ok_0[0], t.id) == t.execution_time
            * (lcm_all(periods(seq![t])) / (t.period as nat)),
{
    lemma_single_task_hyperperiod(t);
    lemma_single_task_run(t, processor.preemption_enabled, t.period as nat);
    let a = ScheduleArtifact { task_id: t.id, start_time: 0, end_time: t.execution_time };
    let core = seq![a];
    assert(core.drop_last() =~= Seq::<ScheduleArtifact>::empty());
    reveal_with_fuel(total_duration, 3);
    assert(total_duration(core, t.id) == t.execution_time);
    vstd::arithmetic::div_mod::lemma_div_basics(t.period as int);
    assert(t.execution_time * 1 == t.execution_time);
}

} // verus!

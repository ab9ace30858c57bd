//! The schedule generation engine: the tick loop that releases task
//! instances, picks a core, asks the policy and records the timeline.

use vstd::prelude::*;
use crate::arith::{
    all_positive, gcd, greatest_common_divisor, lcm_all, least_common_multiple,
    lemma_gcd_divides, lemma_gcd_is_greatest, lemma_lcm_all_is_least, lemma_lcm_all_prefix,
    lemma_lcm_multiple,
};
use crate::error::ScheduleError;
use crate::model::{
    earliest_core, generated, initial, lemma_earliest_core, lemma_run_error_stays, released, run,
    settle, step, SimState,
};
use crate::processor::Processor;
use crate::scheduler::{admissible, free_time, get_scheduler, policy_named, Policy, Scheduler};
use crate::task::{all_valid, periods, Task};

verus! {

/// A released instance of a task that still has work left.
#[derive(Debug, Clone, Copy)]
pub struct TaskArtifact<'a> {
    /// The task that was released.
    pub task: &'a Task,
    /// Ticks of work not yet executed.
    pub duration: u32,
}

/// One committed execution interval, `[start_time, end_time)`.
#[derive(Debug, Clone, Copy, PartialEq, Eq, Structural)]
pub struct ScheduleArtifact {
    pub task_id: u32,
    pub start_time: u32,
    pub end_time: u32,
}

/// The timeline of one core.
pub type CoreSchedule = Vec<ScheduleArtifact>;

impl ScheduleArtifact {
    /// The length of the interval in ticks.
    pub fn duration(&self) -> (d: u32)
        requires
            self.start_time <= self.end_time,
        ensures
            d == self.end_time - self.start_time,
    {
        self.end_time - self.start_time
    }
}

/// The finished simulation: the task set and one timeline per core.
#[derive(Debug)]
pub struct Schedule {
    processors: Vec<CoreSchedule>,
    tasks: Vec<Task>,
}

/// The timelines as sequences.
pub open spec fn views(cores: Seq<CoreSchedule>) -> Seq<Seq<ScheduleArtifact>> {
    Seq::new(cores.len(), |i: int| cores[i]@)
}

/// No interval of the timeline ends before it starts, and none starts
/// before the one ahead of it has ended.
pub open spec fn timeline_ordered(core: Seq<ScheduleArtifact>) -> bool {
    &&& forall|i: int| 0 <= i < core.len() ==> (#[trigger] core[i]).start_time <= core[i].end_time
    &&& forall|i: int|
        0 <= i < core.len() - 1 ==> (#[trigger] core[i]).end_time <= core[i + 1].start_time
}

/// An ordered timeline stays ordered when an interval is appended that
/// does not end before it starts and starts when the core is free.
pub proof fn lemma_push_ordered(core: Seq<ScheduleArtifact>, a: ScheduleArtifact)
    requires
        timeline_ordered(core),
        a.start_time <= a.end_time,
        a.start_time >= free_time(core),
    ensures
        timeline_ordered(core.push(a)),
{
    let next = core.push(a);
    assert forall|i: int| 0 <= i < next.len() implies (#[trigger] next[i]).start_time
        <= next[i].end_time by {
        if i < core.len() {
            assert(next[i] == core[i]);
        }
    }
    assert forall|i: int| 0 <= i < next.len() - 1 implies (#[trigger] next[i]).end_time <= next[i
        + 1].start_time by {
        assert(next[i] == core[i]);
        if i + 1 < core.len() {
            assert(next[i + 1] == core[i + 1]);
        } else {
            assert(core[i] == core.last());
        }
    }
}

impl Schedule {
    /// The timeline of each core, in core order.
    pub closed spec fn timelines(&self) -> Seq<Seq<ScheduleArtifact>> {
        views(self.processors@)
    }

    /// The task set that was scheduled.
    pub closed spec fn task_set(&self) -> Seq<Task> {
        self.tasks@
    }

    /// What holds of every schedule: valid tasks whose hyperperiod fits in
    /// 32 bits, at least one core, and ordered timelines.
    pub open spec fn wf(&self) -> bool {
        &&& all_valid(self.task_set())
        &&& lcm_all(periods(self.task_set())) <= u32::MAX
        &&& 0 < self.timelines().len() <= u32::MAX
        &&& forall|c: int|
            0 <= c < self.timelines().len() ==> timeline_ordered(#[trigger] self.timelines()[c])
    }

    /// Greatest common divisor by Euclid's algorithm, with `gcd(a, 0) == a`.
    pub fn gcd(a: u32, b: u32) -> (g: u32)
        ensures
            g == gcd(a as nat, b as nat),
            greatest_common_divisor(g as nat, a as nat, b as nat),
    {
        proof {
            lemma_gcd_is_greatest(a as nat, b as nat);
        }
        let mut x: u32 = a;
        let mut y: u32 = b;
        while y != 0
            invariant
                gcd(x as nat, y as nat) == gcd(a as nat, b as nat),
            decreases y,
        {
            let r: u32 = x % y;
            x = y;
            y = r;
        }
        x
    }

    /// The hyperperiod of a task set: the least common multiple of the
    /// periods, 1 for the empty set. Fails if it does not fit in 32 bits.
    pub fn hyperperiod_of(tasks: &Vec<Task>) -> (r: Result<u32, ScheduleError>)
        requires
            all_valid(tasks@),
        ensures
            least_common_multiple(lcm_all(periods(tasks@)), periods(tasks@)),
            match r {
                Ok(h) => h == lcm_all(periods(tasks@)),
                Err(e) => e == ScheduleError::HyperperiodOverflow && lcm_all(periods(tasks@))
                    > u32::MAX,
            },
    {
        let ghost ps = periods(tasks@);
        let mut acc: u32 = 1;
        let mut i: usize = 0;
        assert(all_positive(ps));
        proof {
            lemma_lcm_all_is_least(ps);
        }
        while i < tasks.len()
            invariant
                i <= tasks.len(),
                ps == periods(tasks@),
                all_positive(ps),
                least_common_multiple(lcm_all(ps), ps),
                acc == lcm_all(ps.take(i as int)),
                acc > 0,
            decreases tasks.len() - i,
        {
            let p: u32 = tasks[i].period;
            let g: u32 = Self::gcd(acc, p);
            proof {
                assert(ps.take(i + 1).drop_last() =~= ps.take(i as int));
                assert(ps.take(i + 1).last() == p);
                lemma_gcd_divides(acc as nat, p as nat);
                lemma_lcm_multiple(acc as nat, p as nat);
                lemma_lcm_all_prefix(ps, i + 1);
            }
            let q: u32 = acc / g;
            assert(q as u64 * p as u64 <= 0xffff_ffff_0000_0000u64) by (nonlinear_arith)
                requires
                    q <= 0xffff_ffffu32,
                    p <= 0xffff_ffffu32,
            ;
            let wide: u64 = (q as u64) * (p as u64);
            if wide > 0xffff_ffffu64 {
                return Err(ScheduleError::HyperperiodOverflow);
            }
            acc = wide as u32;
            i += 1;
        }
        proof {
            assert(ps.take(i as int) =~= ps);
        }
        Ok(acc)
    }

    /// The least common multiple of the periods of the schedule's tasks.
    pub fn get_hyperperiod(&self) -> (h: u32)
        requires
            self.wf(),
        ensures
            h == lcm_all(periods(self.task_set())),
            least_common_multiple(h as nat, periods(self.task_set())),
    {
        match Self::hyperperiod_of(&self.tasks) {
            Ok(h) => h,
            Err(_) => 1,
        }
    }

    /// The timeline of every core, in core order.
    pub fn processors(&self) -> (r: &Vec<CoreSchedule>)
        ensures
            views(r@) == self.timelines(),
    {
        &self.processors
    }

    /// The task set that was scheduled.
    pub fn tasks(&self) -> (r: &Vec<Task>)
        ensures
            r@ == self.task_set(),
    {
        &self.tasks
    }
}

/// Adds the releases of tick `now` to the ready set, in the order of the
/// task set.
pub fn release<'a>(tasks: &'a Vec<Task>, now: u32, ready: &mut Vec<TaskArtifact<'a>>)
    requires
        all_valid(tasks@),
    ensures
        final(ready)@ == old(ready)@ + released(tasks@, now),
{
    let ghost before = ready@;
    let mut i: usize = 0;
    while i < tasks.len()
        invariant
            i <= tasks.len(),
            all_valid(tasks@),
            ready@ == before + released(tasks@.take(i as int), now),
        decreases tasks.len() - i,
    {
        proof {
            assert(tasks@.take(i + 1).drop_last() =~= tasks@.take(i as int));
            assert(tasks@.take(i + 1).last() == tasks@[i as int]);
            assert(tasks@[i as int].valid());
        }
        let task = &tasks[i];
        if now % task.period == 0 {
            ready.push(TaskArtifact { task, duration: task.execution_time });
            assert(ready@ =~= before + released(tasks@.take(i + 1), now));
        }
        i += 1;
    }
    proof {
        assert(tasks@.take(i as int) =~= tasks@);
    }
}

/// Takes `length` ticks off every pending release of task `task_id` and
/// drops the releases that are done.
pub fn settle_ready<'a>(ready: &Vec<TaskArtifact<'a>>, task_id: u32, length: u32) -> (r: Vec<
    TaskArtifact<'a>,
>)
    requires
        forall|k: int|
            0 <= k < ready@.len() && (#[trigger] ready@[k]).task.id == task_id
                ==> ready@[k].duration >= length,
    ensures
        r@ == settle(ready@, task_id, length),
{
    let mut kept: Vec<TaskArtifact<'a>> = Vec::new();
    let mut i: usize = 0;
    while i < ready.len()
        invariant
            i <= ready.len(),
            forall|k: int|
                0 <= k < ready@.len() && (#[trigger] ready@[k]).task.id == task_id
                    ==> ready@[k].duration >= length,
            kept@ == settle(ready@.take(i as int), task_id, length),
        decreases ready.len() - i,
    {
        proof {
            assert(ready@.take(i + 1).drop_last() =~= ready@.take(i as int));
            assert(ready@.take(i + 1).last() == ready@[i as int]);
        }
        let a = &ready[i];
        let left: u32 = if a.task.id == task_id {
            a.duration - length
        } else {
            a.duration
        };
        if left > 0 {
            kept.push(TaskArtifact { task: a.task, duration: left });
        }
        i += 1;
    }
    proof {
        assert(ready@.take(i as int) =~= ready@);
    }
    kept
}

/// Tells whether the engine may commit the interval `a`, decided at tick
/// `now` for the ready set `ready` and a core with history `core`.
pub fn is_admissible(
    ready: &Vec<TaskArtifact>,
    core: &CoreSchedule,
    now: u32,
    a: &ScheduleArtifact,
) -> (b: bool)
    ensures
        b == admissible(ready@, core@, now, *a),
{
    let free: u32 = if core.len() == 0 {
        0
    } else {
        core[core.len() - 1].end_time
    };
    if a.start_time < now || a.start_time < free || a.start_time > a.end_time {
        return false;
    }
    let length: u32 = a.duration();
    let mut found: bool = false;
    let mut i: usize = 0;
    while i < ready.len()
        invariant
            i <= ready.len(),
            length == a.end_time - a.start_time,
            found == exists|k: int| 0 <= k < i && (#[trigger] ready@[k]).task.id == a.task_id,
            forall|k: int|
                0 <= k < i && (#[trigger] ready@[k]).task.id == a.task_id ==> ready@[k].duration
                    >= length,
        decreases ready.len() - i,
    {
        if ready[i].task.id == a.task_id {
            if ready[i].duration < length {
                return false;
            }
            found = true;
        }
        i += 1;
    }
    found
}

/// Finds the core that is free first.
pub fn earliest_free(cores: &Vec<CoreSchedule>) -> (c: usize)
    requires
        cores@.len() > 0,
    ensures
        c == earliest_core(views(cores@)),
        c < cores@.len(),
{
    let mut best: usize = 0;
    let mut best_free: u32 = if cores[0].len() == 0 {
        0
    } else {
        cores[0][cores[0].len() - 1].end_time
    };
    let mut i: usize = 1;
    assert(views(cores@).take(1)[0] == cores@[0]@);
    while i < cores.len()
        invariant
            1 <= i <= cores.len(),
            best < i,
            best == earliest_core(views(cores@).take(i as int)),
            best_free == free_time(cores@[best as int]@),
        decreases cores.len() - i,
    {
        proof {
            let v = views(cores@);
            assert(v.take(i + 1).drop_last() =~= v.take(i as int));
            assert(v.take(i + 1).last() == cores@[i as int]@);
            assert(v.take(i + 1)[best as int] == cores@[best as int]@);
        }
        let core = &cores[i];
        let free: u32 = if core.len() == 0 {
            0
        } else {
            core[core.len() - 1].end_time
        };
        if free < best_free {
            best = i;
            best_free = free;
        }
        i += 1;
    }
    proof {
        assert(views(cores@).take(i as int) =~= views(cores@));
    }
    best
}

impl Schedule {
    /// The core that is free first and the tick at which it can start new
    /// work: its free time, or `current_time` if it has been idle since.
    /// The core is the one with the least free time, and among those the
    /// one with the lowest index.
    pub fn next_free_time(&self, current_time: u32) -> (r: (u32, u32))
        requires
            self.wf(),
        ensures
            r.1 == earliest_core(self.timelines()),
            r.1 < self.timelines().len(),
            forall|k: int|
                0 <= k < self.timelines().len() ==> free_time(self.timelines()[r.1 as int])
                    <= free_time(#[trigger] self.timelines()[k]),
            forall|k: int|
                0 <= k < r.1 ==> free_time(self.timelines()[r.1 as int]) < free_time(
                    #[trigger] self.timelines()[k],
                ),
            r.0 >= current_time,
            r.0 >= free_time(self.timelines()[r.1 as int]),
            r.0 == current_time || r.0 == free_time(self.timelines()[r.1 as int]),
    {
        let c: usize = earliest_free(&self.processors);
        proof {
            lemma_earliest_core(self.timelines());
        }
        let core = &self.processors[c];
        let free: u32 = if core.len() == 0 {
            0
        } else {
            core[core.len() - 1].end_time
        };
        if free < current_time {
            (current_time, c as u32)
        } else {
            (free, c as u32)
        }
    }
}

/// `r` is what schedule generation returns for the task set on the
/// processor: the generated timelines together with the task set, or the
/// error that stopped the generation.
pub open spec fn generate_yields(
    tasks: Seq<Task>,
    processor: Processor,
    r: Result<Schedule, ScheduleError>,
) -> bool {
    match r {
        Ok(s) => {
            &&& generated(tasks, processor) == Ok::<Seq<Seq<ScheduleArtifact>>, ScheduleError>(
                s.timelines(),
            )
            &&& s.task_set() == tasks
        },
        Err(e) => generated(tasks, processor) == Err::<Seq<Seq<ScheduleArtifact>>, ScheduleError>(
            e,
        ),
    }
}

impl Schedule {
    /// Simulates the task set on the processor for one hyperperiod, tick by
    /// tick from 0, and returns the timeline of every core.
    ///
    /// Fails, before any tick, if the processor names an unknown algorithm
    /// or the hyperperiod does not fit in 32 bits; and at the first tick at
    /// which the policy's interval would end after the last representable
    /// tick or is not admissible.
    pub fn generate(tasks: Vec<Task>, processor: Processor) -> (r: Result<Schedule, ScheduleError>)
        requires
            all_valid(tasks@),
            processor.cores > 0,
        ensures
            generate_yields(tasks@, processor, r),
            r matches Ok(s) ==> s.wf() && s.timelines().len() == processor.cores,
    {
        let policy: Policy = match get_scheduler(processor.scheduler_algorithm.as_str()) {
            Ok(p) => p,
            Err(e) => {
                return Err(e);
            },
        };
        let horizon: u32 = match Self::hyperperiod_of(&tasks) {
            Ok(h) => h,
            Err(e) => {
                return Err(e);
            },
        };
        let preemptable: bool = processor.preemption_enabled;
        let mut processors: Vec<CoreSchedule> = Vec::new();
        let mut n: u32 = 0;
        while n < processor.cores
            invariant
                n <= processor.cores,
                processors@.len() == n,
                forall|c: int| 0 <= c < n ==> (#[trigger] processors@[c])@.len() == 0,
            decreases processor.cores - n,
        {
            processors.push(Vec::new());
            n += 1;
        }
        let mut ready: Vec<TaskArtifact> = Vec::new();
        let mut now: u32 = 0;
        proof {
            assert forall|c: int| 0 <= c < processors@.len() implies views(processors@)[c]
                == Seq::<ScheduleArtifact>::empty() by {
                assert(processors@[c]@ =~= Seq::empty());
            }
            assert(views(processors@) =~= initial(processor.cores as nat).cores);
        }
        while now < horizon
            invariant
                now <= horizon,
                all_valid(tasks@),
                horizon == lcm_all(periods(tasks@)),
                policy_named(processor.scheduler_algorithm@) == Some(policy),
                preemptable == processor.preemption_enabled,
                processors@.len() == processor.cores,
                processor.cores > 0,
                forall|c: int|
                    0 <= c < processors@.len() ==> timeline_ordered(#[trigger] processors@[c]@),
                run(tasks@, policy, preemptable, processor.cores as nat, now as nat) == Ok::<
                    SimState,
                    ScheduleError,
                >(SimState { cores: views(processors@), ready: ready@ }),
            decreases horizon - now,
        {
            let ghost before = SimState { cores: views(processors@), ready: ready@ };
            release(&tasks, now, &mut ready);
            if ready.len() > 0 {
                let c: usize = earliest_free(&processors);
                match policy.schedule(&ready, &processors[c], preemptable, now) {
                    None => {
                        proof {
                            assert(step(tasks@, policy, preemptable, before, now) is Err);
                            lemma_run_error_stays(
                                tasks@,
                                policy,
                                preemptable,
                                processor.cores as nat,
                                (now + 1) as nat,
                                horizon as nat,
                            );
                        }
                        return Err(ScheduleError::TimelineOverflow);
                    },
                    Some(a) => {
                        if !is_admissible(&ready, &processors[c], now, &a) {
                            proof {
                                assert(step(tasks@, policy, preemptable, before, now) is Err);
                                lemma_run_error_stays(
                                    tasks@,
                                    policy,
                                    preemptable,
                                    processor.cores as nat,
                                    (now + 1) as nat,
                                    horizon as nat,
                                );
                            }
                            return Err(ScheduleError::PolicyViolation);
                        }
                        ready = settle_ready(&ready, a.task_id, a.duration());
                        let ghost old_core = processors@[c as int]@;
                        processors[c].push(a);
                        proof {
                            assert(processors@[c as int]@ == old_core.push(a));
                            assert(views(processors@) =~= before.cores.update(
                                c as int,
                                old_core.push(a),
                            ));
                            lemma_push_ordered(old_core, a);
                        }
                    },
                }
            }
            now += 1;
        }
        Ok(Schedule { processors, tasks })
    }
}

} // verus!

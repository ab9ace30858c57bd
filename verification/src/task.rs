//! Periodic tasks and the built-in task set.

use vstd::prelude::*;

verus! {

/// A periodic unit of work. A lower `priority` value is more urgent.
#[derive(Debug, Clone)]
pub struct Task {
    pub id: u32,
    pub name: String,
    pub priority: u32,
    pub execution_time: u32,
    pub period: u32,
}

impl Task {
    /// A task is valid when it needs some work and recurs after some time.
    pub open spec fn valid(&self) -> bool {
        self.period > 0 && self.execution_time > 0
    }

    /// Tells whether the task is valid.
    pub fn is_valid(&self) -> (b: bool)
        ensures
            b == self.valid(),
    {
        self.period > 0 && self.execution_time > 0
    }
}

/// Every task of the sequence is valid.
pub open spec fn all_valid(tasks: Seq<Task>) -> bool {
    forall|i: int| 0 <= i < tasks.len() ==> (#[trigger] tasks[i]).valid()
}

/// The periods of the tasks, in order.
pub open spec fn periods(tasks: Seq<Task>) -> Seq<nat> {
    Seq::new(tasks.len(), |i: int| tasks[i].period as nat)
}

/// Tells whether every task of the set is valid.
pub fn tasks_valid(tasks: &Vec<Task>) -> (b: bool)
    ensures
        b == all_valid(tasks@),
{
    let mut i: usize = 0;
    while i < tasks.len()
        invariant
            i <= tasks.len(),
            forall|j: int| 0 <= j < i ==> (#[trigger] tasks@[j]).valid(),
        decreases tasks.len() - i,
    {
        if !tasks[i].is_valid() {
            return false;
        }
        i += 1;
    }
    true
}

/// An ordered task set.
#[derive(Debug)]
pub struct TasksConfig {
    pub tasks: Vec<Task>,
}

impl TasksConfig {
    /// The built-in task set: two tasks with periods 100 and 200.
    pub open spec fn is_built_in(&self) -> bool {
        &&& self.tasks@.len() == 2
        &&& self.tasks@[0].id == 1
        &&& self.tasks@[0].name@ == "Task1"@
        &&& self.tasks@[0].priority == 1
        &&& self.tasks@[0].execution_time == 10
        &&& self.tasks@[0].period == 100
        &&& self.tasks@[1].id == 2
        &&& self.tasks@[1].name@ == "Task2"@
        &&& self.tasks@[1].priority == 2
        &&& self.tasks@[1].execution_time == 20
        &&& self.tasks@[1].period == 200
    }

    /// The task set that was loaded, or the built-in one if none was.
    pub fn new(loaded: Option<TasksConfig>) -> (r: Self)
        ensures
            match loaded {
                Some(c) => r == c,
                None => r.is_built_in(),
            },
    {
        match loaded {
            Some(c) => c,
            None => Self::default(),
        }
    }
}

impl Default for TasksConfig {
    /// The built-in task set: two tasks with periods 100 and 200.
    fn default() -> (r: Self)
        ensures
            r.is_built_in(),
            all_valid(r.tasks@),
    {
        let mut tasks: Vec<Task> = Vec::new();
        tasks.push(
            Task {
                id: 1,
                name: "Task1".to_owned(),
                priority: 1,
                execution_time: 10,
                period: 100,
            },
        );
        tasks.push(
            Task {
                id: 2,
                name: "Task2".to_owned(),
                priority: 2,
                execution_time: 20,
                period: 200,
            },
        );
        Self { tasks }
    }
}

} // verus!

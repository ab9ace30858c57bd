use sched_sim::error::ScheduleError;
use sched_sim::processor::Processor;
use sched_sim::schedule::{
    earliest_free, is_admissible, release, settle_ready, CoreSchedule, Schedule, ScheduleArtifact,
    TaskArtifact,
};
use sched_sim::scheduler::{
    get_scheduler, make_interval, start_time_for, Policy, PriorityScheduler, RoundRobinScheduler,
    Scheduler,
};
use sched_sim::task::{tasks_valid, Task, TasksConfig};

fn task(id: u32, priority: u32, execution_time: u32, period: u32) -> Task {
    Task { id, name: format!("T{}", id), priority, execution_time, period }
}

fn processor(cores: u32, algorithm: &str, preemption_enabled: bool) -> Processor {
    Processor {
        cores,
        clock_speed: 1000,
        scheduler_algorithm: algorithm.to_string(),
        preemption_enabled,
    }
}

fn art(task_id: u32, start_time: u32, end_time: u32) -> ScheduleArtifact {
    ScheduleArtifact { task_id, start_time, end_time }
}

fn ordered(core: &CoreSchedule) -> bool {
    for i in 0..core.len() {
        if core[i].start_time > core[i].end_time {
            return false;
        }
        for j in (i + 1)..core.len() {
            if core[i].end_time > core[j].start_time || core[i].start_time > core[j].start_time {
                return false;
            }
        }
    }
    true
}

#[test]
fn gcd_of_shared_factor_and_of_zero() {
    assert_eq!(Schedule::gcd(12, 18), 6);
    assert_eq!(Schedule::gcd(18, 12), 6);
    assert_eq!(Schedule::gcd(7, 0), 7);
    assert_eq!(Schedule::gcd(0, 7), 7);
    assert_eq!(Schedule::gcd(0, 0), 0);
    assert_eq!(Schedule::gcd(17, 5), 1);
}

#[test]
fn hyperperiod_of_coprime_periods() {
    let tasks = vec![task(1, 1, 1, 3), task(2, 1, 1, 5), task(3, 1, 1, 7)];
    assert_eq!(Schedule::hyperperiod_of(&tasks), Ok(105));
}

#[test]
fn hyperperiod_of_shared_factor_periods() {
    let tasks = vec![task(1, 1, 1, 4), task(2, 1, 1, 6), task(3, 1, 1, 10)];
    assert_eq!(Schedule::hyperperiod_of(&tasks), Ok(60));
}

#[test]
fn hyperperiod_is_least_common_multiple() {
    let sets: Vec<Vec<u32>> = vec![vec![2, 3], vec![4, 6], vec![6, 10, 15], vec![7], vec![8, 8, 8]];
    for periods in sets {
        let tasks: Vec<Task> =
            periods.iter().enumerate().map(|(i, p)| task(i as u32, 1, 1, *p)).collect();
        let h = Schedule::hyperperiod_of(&tasks).unwrap();
        assert!(h > 0);
        for p in &periods {
            assert_eq!(h % p, 0);
        }
        for m in 1..h {
            assert!(periods.iter().any(|p| m % p != 0));
        }
    }
}

#[test]
fn hyperperiod_of_empty_set_is_one() {
    let tasks: Vec<Task> = Vec::new();
    assert_eq!(Schedule::hyperperiod_of(&tasks), Ok(1));
}

#[test]
fn hyperperiod_overflow_is_an_error() {
    let tasks = vec![task(1, 1, 1, 4294967295), task(2, 1, 1, 4294967294)];
    assert_eq!(Schedule::hyperperiod_of(&tasks), Err(ScheduleError::HyperperiodOverflow));
    let r = Schedule::generate(tasks, processor(1, "round_robin", true));
    assert_eq!(r.err(), Some(ScheduleError::HyperperiodOverflow));
}

#[test]
fn hyperperiod_at_the_limit_fits() {
    let tasks = vec![task(1, 1, 1, 65535), task(2, 1, 1, 65537)];
    assert_eq!(Schedule::hyperperiod_of(&tasks), Ok(4294967295));
}

#[test]
fn two_tasks_round_robin_one_core() {
    let tasks = vec![task(1, 1, 10, 100), task(2, 2, 20, 200)];
    let s = Schedule::generate(tasks, processor(1, "round_robin", true)).unwrap();
    assert_eq!(s.get_hyperperiod(), 200);
    assert_eq!(s.processors().len(), 1);
    assert_eq!(s.processors()[0], vec![art(1, 0, 10), art(2, 10, 30), art(1, 100, 110)]);
    assert_eq!(s.tasks().len(), 2);
    assert_eq!(s.tasks()[0].id, 1);
    assert_eq!(s.tasks()[1].id, 2);
}

#[test]
fn built_in_configuration_schedules() {
    let s = Schedule::generate(TasksConfig::default().tasks, Processor::default()).unwrap();
    assert_eq!(s.get_hyperperiod(), 200);
    assert_eq!(s.processors()[0], vec![art(1, 0, 10), art(2, 10, 30), art(1, 100, 110)]);
}

#[test]
fn unknown_algorithm_is_rejected() {
    let tasks = vec![task(1, 1, 10, 100)];
    let r = Schedule::generate(tasks, processor(1, "bogus", true));
    assert_eq!(r.err(), Some(ScheduleError::UnknownAlgorithm));
    assert_eq!(get_scheduler("bogus").err(), Some(ScheduleError::UnknownAlgorithm));
    assert_eq!(get_scheduler("").err(), Some(ScheduleError::UnknownAlgorithm));
    assert_eq!(get_scheduler("Round_robin").err(), Some(ScheduleError::UnknownAlgorithm));
}

#[test]
fn unknown_algorithm_comes_before_overflow() {
    let tasks = vec![task(1, 1, 1, 4294967295), task(2, 1, 1, 4294967294)];
    let r = Schedule::generate(tasks, processor(1, "bogus", true));
    assert_eq!(r.err(), Some(ScheduleError::UnknownAlgorithm));
}

#[test]
fn known_algorithms_are_selected() {
    assert!(matches!(get_scheduler("round_robin"), Ok(Policy::RoundRobin(_))));
    assert!(matches!(get_scheduler("priority"), Ok(Policy::Priority(_))));
}

#[test]
fn empty_task_set_gives_empty_timelines() {
    let s = Schedule::generate(Vec::new(), processor(3, "round_robin", false)).unwrap();
    assert_eq!(s.get_hyperperiod(), 1);
    assert_eq!(s.processors().len(), 3);
    for core in s.processors() {
        assert!(core.is_empty());
    }
}

#[test]
fn single_task_conservation() {
    let tasks = vec![task(9, 1, 7, 50)];
    let s = Schedule::generate(tasks, processor(1, "round_robin", true)).unwrap();
    let h = s.get_hyperperiod();
    assert_eq!(h, 50);
    let total: u32 =
        s.processors()[0].iter().filter(|a| a.task_id == 9).map(|a| a.duration()).sum();
    assert_eq!(total, 7 * (h / 50));
    assert_eq!(s.processors()[0], vec![art(9, 0, 7)]);
}

#[test]
fn generation_is_deterministic() {
    let make = || vec![task(1, 2, 3, 10), task(2, 1, 4, 15), task(3, 3, 2, 6)];
    let a = Schedule::generate(make(), processor(2, "priority", true)).unwrap();
    let b = Schedule::generate(make(), processor(2, "priority", true)).unwrap();
    assert_eq!(a.processors(), b.processors());
    assert_eq!(a.get_hyperperiod(), b.get_hyperperiod());
}

#[test]
fn timelines_do_not_overlap_and_never_go_back() {
    for algorithm in ["round_robin", "priority"] {
        for preempt in [false, true] {
            for cores in 1..4u32 {
                let tasks = vec![task(1, 2, 13, 20), task(2, 1, 4, 15), task(3, 3, 25, 60)];
                let s = Schedule::generate(tasks, processor(cores, algorithm, preempt)).unwrap();
                assert_eq!(s.processors().len(), cores as usize);
                for core in s.processors() {
                    assert!(ordered(core));
                }
            }
        }
    }
}

#[test]
fn round_robin_two_cores() {
    let tasks = vec![task(1, 1, 10, 100), task(2, 1, 20, 100)];
    let s = Schedule::generate(tasks, processor(2, "round_robin", true)).unwrap();
    assert_eq!(s.processors()[0], vec![art(1, 0, 10)]);
    assert_eq!(s.processors()[1], vec![art(2, 1, 21)]);
    assert_eq!(s.next_free_time(0), (10, 0));
    assert_eq!(s.next_free_time(50), (50, 0));
}

#[test]
fn next_free_time_prefers_lowest_index_on_ties() {
    let s = Schedule::generate(Vec::new(), processor(3, "round_robin", true)).unwrap();
    assert_eq!(s.next_free_time(0), (0, 0));
    assert_eq!(s.next_free_time(7), (7, 0));
}

#[test]
fn earliest_free_picks_least_free_time() {
    let cores: Vec<CoreSchedule> =
        vec![vec![art(1, 0, 9)], vec![art(2, 0, 4)], vec![art(3, 0, 4)], vec![art(4, 0, 6)]];
    assert_eq!(earliest_free(&cores), 1);
    let cores: Vec<CoreSchedule> = vec![vec![art(1, 0, 9)], vec![], vec![]];
    assert_eq!(earliest_free(&cores), 1);
    let cores: Vec<CoreSchedule> = vec![vec![art(1, 0, 0)], vec![]];
    assert_eq!(earliest_free(&cores), 0);
}

#[test]
fn priority_with_preemption_grants_one_quantum() {
    let tasks = vec![task(1, 2, 25, 100), task(2, 1, 5, 100)];
    let s = Schedule::generate(tasks, processor(1, "priority", true)).unwrap();
    assert_eq!(
        s.processors()[0],
        vec![art(2, 0, 5), art(1, 5, 15), art(1, 15, 25), art(1, 25, 30)]
    );
}

#[test]
fn priority_without_preemption_runs_to_completion() {
    let tasks = vec![task(1, 2, 25, 100), task(2, 1, 5, 100)];
    let s = Schedule::generate(tasks, processor(1, "priority", false)).unwrap();
    assert_eq!(s.processors()[0], vec![art(2, 0, 5), art(1, 5, 30)]);
}

#[test]
fn priority_ties_go_to_lowest_id() {
    let t5 = task(5, 1, 3, 10);
    let t2 = task(2, 1, 4, 10);
    let t7 = task(7, 0, 50, 10);
    let p = PriorityScheduler::default();
    let ready = vec![
        TaskArtifact { task: &t5, duration: 3 },
        TaskArtifact { task: &t2, duration: 4 },
    ];
    let core: CoreSchedule = Vec::new();
    assert_eq!(p.schedule(&ready, &core, true, 0), Some(art(2, 0, 4)));
    let ready = vec![
        TaskArtifact { task: &t5, duration: 3 },
        TaskArtifact { task: &t2, duration: 4 },
        TaskArtifact { task: &t7, duration: 50 },
    ];
    assert_eq!(p.schedule(&ready, &core, true, 3), Some(art(7, 3, 13)));
    assert_eq!(p.schedule(&ready, &core, false, 3), Some(art(7, 3, 53)));
}

#[test]
fn round_robin_takes_head_for_all_it_has_left() {
    let t1 = task(1, 9, 8, 10);
    let t2 = task(2, 1, 4, 10);
    let ready = vec![
        TaskArtifact { task: &t1, duration: 8 },
        TaskArtifact { task: &t2, duration: 4 },
    ];
    let rr = RoundRobinScheduler::default();
    let empty: CoreSchedule = Vec::new();
    assert_eq!(rr.schedule(&ready, &empty, true, 5), Some(art(1, 5, 13)));
    let busy: CoreSchedule = vec![art(3, 0, 20)];
    assert_eq!(rr.schedule(&ready, &busy, false, 5), Some(art(1, 20, 28)));
    assert_eq!(rr.schedule(&ready, &busy, false, 30), Some(art(1, 30, 38)));
    let late: CoreSchedule = vec![art(3, 0, 4294967290)];
    assert_eq!(rr.schedule(&ready, &late, false, 5), None);
}

#[test]
fn timeline_overflow_is_an_error() {
    let tasks = vec![task(1, 1, 4294967295, 1), task(2, 1, 1, 2)];
    let r = Schedule::generate(tasks, processor(1, "round_robin", true));
    assert_eq!(r.err(), Some(ScheduleError::TimelineOverflow));
}

#[test]
fn interval_longer_than_a_release_of_its_task_is_refused() {
    let tasks = vec![task(1, 1, 10, 10), task(1, 1, 5, 10)];
    let r = Schedule::generate(tasks, processor(1, "round_robin", true));
    assert_eq!(r.err(), Some(ScheduleError::PolicyViolation));
}

#[test]
fn admissibility_of_intervals() {
    let t1 = task(1, 1, 8, 10);
    let ready = vec![TaskArtifact { task: &t1, duration: 8 }];
    let core: CoreSchedule = vec![art(3, 0, 20)];
    assert!(is_admissible(&ready, &core, 5, &art(1, 20, 28)));
    assert!(is_admissible(&ready, &core, 25, &art(1, 25, 26)));
    assert!(!is_admissible(&ready, &core, 5, &art(1, 19, 27)));
    assert!(!is_admissible(&ready, &core, 25, &art(1, 24, 28)));
    assert!(!is_admissible(&ready, &core, 5, &art(2, 20, 28)));
    assert!(!is_admissible(&ready, &core, 5, &art(1, 20, 29)));
    assert!(!is_admissible(&ready, &core, 5, &art(1, 28, 20)));
}

#[test]
fn release_follows_task_order() {
    let tasks = vec![task(1, 1, 10, 4), task(2, 1, 20, 6), task(3, 1, 30, 3)];
    let mut ready: Vec<TaskArtifact> = Vec::new();
    release(&tasks, 0, &mut ready);
    let ids: Vec<(u32, u32)> = ready.iter().map(|a| (a.task.id, a.duration)).collect();
    assert_eq!(ids, vec![(1, 10), (2, 20), (3, 30)]);
    release(&tasks, 6, &mut ready);
    let ids: Vec<(u32, u32)> = ready.iter().map(|a| (a.task.id, a.duration)).collect();
    assert_eq!(ids, vec![(1, 10), (2, 20), (3, 30), (2, 20), (3, 30)]);
    release(&tasks, 5, &mut ready);
    assert_eq!(ready.len(), 5);
}

#[test]
fn settle_takes_time_off_and_drops_finished() {
    let t1 = task(1, 1, 10, 4);
    let t2 = task(2, 1, 20, 6);
    let ready = vec![
        TaskArtifact { task: &t1, duration: 4 },
        TaskArtifact { task: &t2, duration: 20 },
        TaskArtifact { task: &t1, duration: 10 },
    ];
    let left = settle_ready(&ready, 1, 4);
    let ids: Vec<(u32, u32)> = left.iter().map(|a| (a.task.id, a.duration)).collect();
    assert_eq!(ids, vec![(2, 20), (1, 6)]);
    let same = settle_ready(&ready, 9, 4);
    assert_eq!(same.len(), 3);
}

#[test]
fn start_and_interval_helpers() {
    let empty: CoreSchedule = Vec::new();
    assert_eq!(start_time_for(&empty, 0), 0);
    assert_eq!(start_time_for(&empty, 9), 9);
    let busy: CoreSchedule = vec![art(1, 0, 5), art(2, 5, 12)];
    assert_eq!(start_time_for(&busy, 9), 12);
    assert_eq!(start_time_for(&busy, 12), 12);
    assert_eq!(start_time_for(&busy, 13), 13);
    assert_eq!(make_interval(4, 10, 5), Some(art(4, 10, 15)));
    assert_eq!(make_interval(4, 4294967295, 0), Some(art(4, 4294967295, 4294967295)));
    assert_eq!(make_interval(4, 4294967295, 1), None);
}

#[test]
fn artifact_duration() {
    assert_eq!(art(1, 10, 30).duration(), 20);
    assert_eq!(art(1, 7, 7).duration(), 0);
}

#[test]
fn built_in_task_set() {
    let c = TasksConfig::default();
    assert_eq!(c.tasks.len(), 2);
    assert_eq!(c.tasks[0].id, 1);
    assert_eq!(c.tasks[0].name, "Task1");
    assert_eq!(c.tasks[0].priority, 1);
    assert_eq!(c.tasks[0].execution_time, 10);
    assert_eq!(c.tasks[0].period, 100);
    assert_eq!(c.tasks[1].id, 2);
    assert_eq!(c.tasks[1].name, "Task2");
    assert_eq!(c.tasks[1].priority, 2);
    assert_eq!(c.tasks[1].execution_time, 20);
    assert_eq!(c.tasks[1].period, 200);
    assert!(tasks_valid(&c.tasks));
}

#[test]
fn built_in_processor() {
    let p = Processor::default();
    assert_eq!(p.cores, 1);
    assert_eq!(p.clock_speed, 1000);
    assert_eq!(p.scheduler_algorithm, "round_robin");
    assert!(p.preemption_enabled);
}

#[test]
fn task_validity() {
    assert!(task(1, 1, 1, 1).is_valid());
    assert!(!task(1, 1, 0, 1).is_valid());
    assert!(!task(1, 1, 1, 0).is_valid());
    assert!(tasks_valid(&Vec::new()));
    assert!(!tasks_valid(&vec![task(1, 1, 1, 1), task(2, 1, 1, 0)]));
}

#[test]
fn loaded_configuration_wins_over_built_in() {
    let loaded = TasksConfig { tasks: vec![task(4, 1, 2, 3)] };
    let c = TasksConfig::new(Some(loaded));
    assert_eq!(c.tasks.len(), 1);
    assert_eq!(c.tasks[0].id, 4);
    let c = TasksConfig::new(None);
    assert_eq!(c.tasks.len(), 2);
    assert_eq!(c.tasks[1].period, 200);
    let p = Processor::new(Some(processor(4, "priority", false)));
    assert_eq!(p.cores, 4);
    assert_eq!(p.scheduler_algorithm, "priority");
    assert!(!p.preemption_enabled);
    let p = Processor::new(None);
    assert_eq!(p.cores, 1);
    assert_eq!(p.scheduler_algorithm, "round_robin");
}

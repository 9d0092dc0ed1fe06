use alch_arbitrage::scheduler::timers::Timers;
use alch_arbitrage::scheduler::Scheduler;
use alch_arbitrage::tasks::calculate_arbitrage::CalculateArbitrageTask;
use alch_arbitrage::tasks::flush_data::FlushDataTask;
use alch_arbitrage::tasks::update_latest::UpdateLatestTask;
use alch_arbitrage::tasks::{Task, TaskKind};
use alch_arbitrage::types::{Context, Merch};
use std::collections::BTreeMap;

fn empty_context() -> Context {
    Context { items: BTreeMap::new() }
}

#[test]
fn timers_pop_earliest_first_and_equal_in_order() {
    let mut timers = Timers::new();
    assert_eq!(timers.next_timer(), None);
    assert!(timers.pop().is_none());
    timers.add_task(Task::FlushData(FlushDataTask { timer: 30 }));
    timers.add_task(Task::CalculateArbitrage(CalculateArbitrageTask { timer: 10 }));
    timers.add_task(Task::UpdateLatest(UpdateLatestTask { timer: 30 }));
    timers.add_task(Task::UpdateLatest(UpdateLatestTask { timer: 20 }));
    assert_eq!(timers.next_timer(), Some(10));
    let order: Vec<(TaskKind, u64)> = std::iter::from_fn(|| timers.pop()).map(|t| (t.kind(), t.timer())).collect();
    assert_eq!(
        order,
        vec![
            (TaskKind::CalculateArbitrage, 10),
            (TaskKind::UpdateLatest, 20),
            (TaskKind::FlushData, 30),
            (TaskKind::UpdateLatest, 30),
        ]
    );
    assert_eq!(timers.next_timer(), None);
}

#[test]
fn new_scheduler_ticks_once_a_second() {
    let s = Scheduler::new(empty_context());
    assert_eq!(s.period_secs(), 1);
    assert_eq!(s.task_count(), 0);
    assert!(s.context().items.is_empty());
}

#[test]
fn scheduler_runs_update_first_then_rings_timers() {
    let mut s = Scheduler::new(empty_context());
    let now = 1_000;
    s.start(now);
    let first = s.tick(now).expect("update runs right away");
    assert_eq!((first.kind(), first.timer()), (TaskKind::UpdateLatest, 0));
    assert_eq!(s.task_count(), 1);
    // Nothing is due before ten seconds have passed.
    for t in 1..10 {
        assert!(s.tick(now + t).is_none());
    }
    let second = s.tick(now + 10).expect("ranking is due");
    assert_eq!((second.kind(), second.timer()), (TaskKind::CalculateArbitrage, 1_010));
    assert!(s.tick(now + 11).is_none());
    let third = s.tick(now + 30).expect("flush is due");
    assert_eq!((third.kind(), third.timer()), (TaskKind::FlushData, 1_030));
    // The ranking repeats every thirty seconds.
    let fourth = s.tick(now + 40).expect("ranking is due again");
    assert_eq!((fourth.kind(), fourth.timer()), (TaskKind::CalculateArbitrage, 1_040));
    let fifth = s.tick(now + 60).expect("update is due again");
    assert_eq!((fifth.kind(), fifth.timer()), (TaskKind::UpdateLatest, 1_060));
    let sixth = s.tick(now + 70).expect("ranking is due again");
    assert_eq!((sixth.kind(), sixth.timer()), (TaskKind::CalculateArbitrage, 1_070));
    // Late ticks hand out the earliest due task first.
    let seventh = s.tick(now + 330).expect("ranking is overdue");
    assert_eq!((seventh.kind(), seventh.timer()), (TaskKind::CalculateArbitrage, 1_100));
    assert_eq!(s.task_count(), 17);
}

#[test]
fn scheduler_keeps_one_task_of_each_kind() {
    let mut s = Scheduler::new(empty_context());
    s.start(0);
    let mut seen = Vec::new();
    for now in 0..2_000u64 {
        if let Some(t) = s.tick(now) {
            seen.push(t.kind());
        }
    }
    let updates = seen.iter().filter(|k| **k == TaskKind::UpdateLatest).count();
    let ranks = seen.iter().filter(|k| **k == TaskKind::CalculateArbitrage).count();
    let flushes = seen.iter().filter(|k| **k == TaskKind::FlushData).count();
    assert!(updates >= 30 && ranks >= 60 && flushes >= 6);
    assert!(updates <= 34 && ranks <= 68 && flushes <= 7);
}

#[test]
fn scheduler_context_can_be_changed_by_a_task() {
    let mut s = Scheduler::new(empty_context());
    s.context_mut().items.insert(
        3,
        Merch {
            highalch: None,
            members: false,
            name: "x".to_string(),
            id: 3,
            value: 1,
            lowalch: None,
            limit: None,
            high: None,
            high_time: None,
            low: None,
            low_time: None,
        },
    );
    assert_eq!(s.context().items.len(), 1);
    s.start(5);
    assert_eq!(s.context().items.len(), 1);
}

#[test]
fn run_queue_is_first_in_first_out() {
    let mut s = Scheduler::new(empty_context());
    // The ranking timer is already due at the first tick: it joins the run
    // queue behind the update, which runs first although its timer is 0.
    s.start(0);
    let a = s.tick(100).expect("update first");
    assert_eq!(a.kind(), TaskKind::UpdateLatest);
    let b = s.tick(100).expect("ranking queued behind it");
    assert_eq!((b.kind(), b.timer()), (TaskKind::CalculateArbitrage, 10));
    let c = s.tick(100).expect("flush is due");
    assert_eq!(c.kind(), TaskKind::FlushData);
}

#[test]
fn tick_fits_checks_the_next_due_time() {
    let mut s = Scheduler::new(empty_context());
    assert!(s.tick_fits(u64::MAX));
    s.start(0);
    // The update would come back 60 seconds later.
    assert!(!s.tick_fits(u64::MAX - 59));
    assert!(s.tick_fits(u64::MAX - 60));
    let _ = s.tick(u64::MAX - 60);
    // Now the ranking (30 s) and the flush (300 s) are due.
    assert!(!s.tick_fits(u64::MAX - 29));
    assert!(s.tick_fits(u64::MAX - 30));
}

#[test]
fn timers_first_is_next_to_come_out() {
    let mut timers = Timers::new();
    assert!(timers.first().is_none());
    timers.add_task(Task::FlushData(FlushDataTask { timer: 9 }));
    timers.add_task(Task::UpdateLatest(UpdateLatestTask { timer: 4 }));
    assert_eq!(timers.first().map(|t| t.timer()), Some(4));
    assert_eq!(timers.pop().map(|t| t.kind()), Some(TaskKind::UpdateLatest));
    assert_eq!(timers.first().map(|t| t.kind()), Some(TaskKind::FlushData));
}

#[test]
fn timers_drain_many_adds_in_order() {
    let mut timers = Timers::new();
    let due = [7u64, 3, 9, 3, 1, 8, 8, 0, 5];
    for (i, t) in due.iter().enumerate() {
        let task = match i % 3 {
            0 => Task::UpdateLatest(UpdateLatestTask { timer: *t }),
            1 => Task::CalculateArbitrage(CalculateArbitrageTask { timer: *t }),
            _ => Task::FlushData(FlushDataTask { timer: *t }),
        };
        timers.add_task(task);
    }
    let mut out = Vec::new();
    while let Some(t) = timers.pop() {
        out.push(t.timer());
    }
    let mut sorted = due.to_vec();
    sorted.sort();
    assert_eq!(out, sorted);
    assert!(timers.pop().is_none());
}

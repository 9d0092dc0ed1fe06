use vstd::prelude::*;
use vstd::multiset::Multiset;
use crate::tasks::calculate_arbitrage::CalculateArbitrageTask;
use crate::tasks::flush_data::FlushDataTask;
use crate::tasks::update_latest::UpdateLatestTask;
use std::cmp::Ordering;
use vstd::std_specs::cmp::{PartialEqSpec, PartialOrdSpec};

pub mod calculate_arbitrage;
pub mod flush_data;
pub mod update_latest;

verus! {

/// A unit of work for the scheduler.
#[derive(Debug)]
pub enum Task {
    UpdateLatest(UpdateLatestTask),
    CalculateArbitrage(CalculateArbitrageTask),
    FlushData(FlushDataTask),
}

/// The time at which `t` is due.
pub open spec fn task_timer(t: Task) -> u64 {
    match t {
        Task::UpdateLatest(x) => x.timer,
        Task::CalculateArbitrage(x) => x.timer,
        Task::FlushData(x) => x.timer,
    }
}

/// Seconds after which a task that ran is due again: a minute for updating
/// prices, thirty seconds for ranking opportunities, five minutes for writing
/// to disk.
pub open spec fn repeat_period(t: Task) -> u64 {
    match t {
        Task::UpdateLatest(_) => 60,
        Task::CalculateArbitrage(_) => 30,
        Task::FlushData(_) => 300,
    }
}

/// The kinds of work that the scheduler runs.
#[derive(Clone, Copy, Debug, PartialEq, Eq, Structural)]
pub enum TaskKind {
    UpdateLatest,
    CalculateArbitrage,
    FlushData,
}

/// The kind of `t`.
pub open spec fn task_kind(t: Task) -> TaskKind {
    match t {
        Task::UpdateLatest(_) => TaskKind::UpdateLatest,
        Task::CalculateArbitrage(_) => TaskKind::CalculateArbitrage,
        Task::FlushData(_) => TaskKind::FlushData,
    }
}

/// The kinds of the tasks of `s`, with their multiplicities.
pub open spec fn kinds(s: Seq<Task>) -> Multiset<TaskKind> {
    s.map_values(|t: Task| task_kind(t)).to_multiset()
}

/// The next occurrence of `t` when it runs at time `now`: a task of the same
/// kind, due `repeat_period(t)` seconds after `now`.
pub open spec fn rescheduled_spec(t: Task, now: u64) -> Task {
    match t {
        Task::UpdateLatest(_) => Task::UpdateLatest(
            UpdateLatestTask { timer: (now + 60) as u64 },
        ),
        Task::CalculateArbitrage(_) => Task::CalculateArbitrage(
            CalculateArbitrageTask { timer: (now + 30) as u64 },
        ),
        Task::FlushData(_) => Task::FlushData(FlushDataTask { timer: (now + 300) as u64 }),
    }
}

/// A task that runs is scheduled again as a task of the same kind, due one
/// repeat period after the time at which it ran.
pub proof fn lemma_rescheduled_same_kind_one_period_later(t: Task, now: u64)
    requires
        now + repeat_period(t) <= u64::MAX,
    ensures
        task_kind(rescheduled_spec(t, now)) == task_kind(t),
        task_timer(rescheduled_spec(t, now)) == now + repeat_period(t),
{
}

/// How two tasks compare: by the times at which they are due.
pub open spec fn task_order(a: Task, b: Task) -> Ordering {
    if task_timer(a) < task_timer(b) {
        Ordering::Less
    } else if task_timer(a) == task_timer(b) {
        Ordering::Equal
    } else {
        Ordering::Greater
    }
}

/// Tasks are compared by the time at which they are due: they compare equal
/// exactly when they are equal (due at the same time), one is below the other
/// exactly when the other is above it, and the order is transitive.
pub proof fn lemma_task_order_consistent(a: Task, b: Task, c: Task)
    ensures
        (task_order(a, b) == Ordering::Equal) == (task_timer(a) == task_timer(b)),
        (task_order(a, b) == Ordering::Less) == (task_order(b, a) == Ordering::Greater),
        task_order(a, b) == Ordering::Less && task_order(b, c) == Ordering::Less ==> task_order(
            a,
            c,
        ) == Ordering::Less,
        task_order(a, b) != Ordering::Greater && task_order(b, c) != Ordering::Greater
            ==> task_order(a, c) != Ordering::Greater,
{
}

/// Tasks are ordered by the times at which they are due, as numbers: the one
/// due earlier is less (a timer of 0 is due first), and two tasks are equal
/// exactly when they are due at the same time, whatever their kinds.
pub proof fn lemma_tasks_ordered_by_due_time(a: Task, b: Task)
    ensures
        (task_order(a, b) == Ordering::Less) <==> task_timer(a) < task_timer(b),
        (task_order(a, b) == Ordering::Equal) <==> task_timer(a) == task_timer(b),
        (task_order(a, b) == Ordering::Greater) <==> task_timer(a) > task_timer(b),
        (a.partial_cmp_spec(&b) == Some(Ordering::Less)) <==> task_timer(a) < task_timer(b),
        (a.partial_cmp_spec(&b) == Some(Ordering::Equal)) <==> task_timer(a) == task_timer(b),
        (a.partial_cmp_spec(&b) == Some(Ordering::Greater)) <==> task_timer(a) > task_timer(b),
        a.eq_spec(&b) <==> task_timer(a) == task_timer(b),
{
}

/// The time at which a task is due is the timer of the work it carries.
pub proof fn lemma_task_timer_is_its_work_timer(
    u: UpdateLatestTask,
    c: CalculateArbitrageTask,
    f: FlushDataTask,
)
    ensures
        task_timer(Task::UpdateLatest(u)) == u.timer,
        task_timer(Task::CalculateArbitrage(c)) == c.timer,
        task_timer(Task::FlushData(f)) == f.timer,
        task_kind(Task::UpdateLatest(u)) == TaskKind::UpdateLatest,
        task_kind(Task::CalculateArbitrage(c)) == TaskKind::CalculateArbitrage,
        task_kind(Task::FlushData(f)) == TaskKind::FlushData,
{
}

/// Once it ran at time `now`, a price update is due again a minute later, a
/// ranking thirty seconds later and a write to disk five minutes later, each
/// as a task of the same kind.
pub proof fn lemma_repeat_periods(t: Task, now: u64)
    requires
        now + repeat_period(t) <= u64::MAX,
    ensures
        task_kind(t) == TaskKind::UpdateLatest ==> repeat_period(t) == 60 && task_timer(
            rescheduled_spec(t, now),
        ) == now + 60,
        task_kind(t) == TaskKind::CalculateArbitrage ==> repeat_period(t) == 30 && task_timer(
            rescheduled_spec(t, now),
        ) == now + 30,
        task_kind(t) == TaskKind::FlushData ==> repeat_period(t) == 300 && task_timer(
            rescheduled_spec(t, now),
        ) == now + 300,
        task_kind(rescheduled_spec(t, now)) == task_kind(t),
{
}

impl Task {
    /// The kind of the task.
    pub fn kind(&self) -> (r: TaskKind)
        ensures
            r == task_kind(*self),
    {
        match self {
            Task::UpdateLatest(_) => TaskKind::UpdateLatest,
            Task::CalculateArbitrage(_) => TaskKind::CalculateArbitrage,
            Task::FlushData(_) => TaskKind::FlushData,
        }
    }

    /// The time at which the task is due.
    pub fn timer(&self) -> (r: u64)
        ensures
            r == task_timer(*self),
    {
        match self {
            Task::UpdateLatest(x) => x.timer(),
            Task::CalculateArbitrage(x) => x.timer(),
            Task::FlushData(x) => x.timer(),
        }
    }

    /// Seconds after which a task of this kind is due again once it ran.
    pub fn repeat_period(&self) -> (r: u64)
        ensures
            r == repeat_period(*self),
    {
        match self {
            Task::UpdateLatest(_) => 60,
            Task::CalculateArbitrage(_) => 30,
            Task::FlushData(_) => 300,
        }
    }

    /// The task that comes after this one, for a run at time `now`.
    pub fn rescheduled(&self, now: u64) -> (r: Task)
        requires
            now + repeat_period(*self) <= u64::MAX,
        ensures
            r == rescheduled_spec(*self, now),
    {
        match self {
            Task::CalculateArbitrage(_) => Task::CalculateArbitrage(
                CalculateArbitrageTask { timer: now + 30 },
            ),
            Task::UpdateLatest(_) => Task::UpdateLatest(UpdateLatestTask { timer: now + 60 }),
            Task::FlushData(_) => Task::FlushData(FlushDataTask { timer: now + 300 }),
        }
    }
}

/// Tasks are equal when they are due at the same time, whatever their kinds.
impl PartialEq for Task {
    fn eq(&self, other: &Self) -> (r: bool) {
        self.timer() == other.timer()
    }
}

impl vstd::std_specs::cmp::PartialEqSpecImpl for Task {
    open spec fn obeys_eq_spec() -> bool {
        true
    }

    open spec fn eq_spec(&self, other: &Self) -> bool {
        task_timer(*self) == task_timer(*other)
    }
}

impl Eq for Task {
}

/// Tasks are ordered by the time at which they are due.
impl PartialOrd for Task {
    fn partial_cmp(&self, other: &Self) -> (r: Option<Ordering>) {
        let a = self.timer();
        let b = other.timer();
        if a < b {
            Some(Ordering::Less)
        } else if a == b {
            Some(Ordering::Equal)
        } else {
            Some(Ordering::Greater)
        }
    }
}

impl vstd::std_specs::cmp::PartialOrdSpecImpl for Task {
    open spec fn obeys_partial_cmp_spec() -> bool {
        true
    }

    open spec fn partial_cmp_spec(&self, other: &Self) -> Option<Ordering> {
        Some(task_order(*self, *other))
    }
}

} // verus!

use vstd::prelude::*;
use crate::scheduler::timers::{sorted_by_timer, with_timer, Timers};
use crate::tasks::calculate_arbitrage::CalculateArbitrageTask;
use crate::tasks::flush_data::FlushDataTask;
use crate::tasks::update_latest::UpdateLatestTask;
use crate::tasks::{kinds, repeat_period, rescheduled_spec, task_kind, task_timer, Task, TaskKind};
use vstd::multiset::Multiset;
use crate::types::Context;
use std::collections::VecDeque;

pub mod timers;

verus! {

/// Whether the first pending timer is due at time `now`.
pub open spec fn timer_rings(timers: Seq<Task>, now: u64) -> bool {
    timers.len() > 0 && task_timer(timers[0]) <= now
}

/// The pending timers once a ringing timer has moved to the run queue.
pub open spec fn timers_after_ring(timers: Seq<Task>, now: u64) -> Seq<Task> {
    if timer_rings(timers, now) {
        timers.drop_first()
    } else {
        timers
    }
}

/// The run queue once a ringing timer has moved to its back.
pub open spec fn queue_after_ring(timers: Seq<Task>, queue: Seq<Task>, now: u64) -> Seq<Task> {
    if timer_rings(timers, now) {
        queue.push(timers[0])
    } else {
        queue
    }
}

/// The task that a tick at time `now` hands out to run: the front of the run
/// queue, once a ringing timer has joined it.
pub open spec fn tick_task(timers: Seq<Task>, queue: Seq<Task>, now: u64) -> Option<Task> {
    let q = queue_after_ring(timers, queue, now);
    if q.len() > 0 {
        Some(q[0])
    } else {
        None
    }
}

/// Whether the next occurrence of the task that a tick at time `now` hands
/// out is due at a time that a `u64` holds.
pub open spec fn tick_fits(timers: Seq<Task>, queue: Seq<Task>, now: u64) -> bool {
    tick_task(timers, queue, now) matches Some(t) ==> now + repeat_period(t) <= u64::MAX
}

/// The pending timers after a tick at time `now`: a ringing timer has left
/// them, and the task that runs is scheduled again.
pub open spec fn tick_timers(timers: Seq<Task>, queue: Seq<Task>, now: u64) -> Seq<Task> {
    let t = timers_after_ring(timers, now);
    let q = queue_after_ring(timers, queue, now);
    if q.len() > 0 {
        with_timer(t, rescheduled_spec(q[0], now))
    } else {
        t
    }
}

/// The run queue after a tick at time `now`.
pub open spec fn tick_queue(timers: Seq<Task>, queue: Seq<Task>, now: u64) -> Seq<Task> {
    let q = queue_after_ring(timers, queue, now);
    if q.len() > 0 {
        q.drop_first()
    } else {
        q
    }
}

proof fn lemma_kinds_concat(a: Seq<Task>, b: Seq<Task>)
    ensures
        kinds(a + b) == kinds(a).add(kinds(b)),
{
    let f = |t: Task| task_kind(t);
    assert((a + b).map_values(f) =~= a.map_values(f) + b.map_values(f));
    vstd::seq_lib::lemma_multiset_commutative(a.map_values(f), b.map_values(f));
}

proof fn lemma_kinds_insert(s: Seq<Task>, p: int, t: Task)
    requires
        0 <= p <= s.len(),
    ensures
        kinds(s.insert(p, t)) == kinds(s).insert(task_kind(t)),
{
    let f = |t: Task| task_kind(t);
    assert(s.insert(p, t).map_values(f) =~= s.map_values(f).insert(p, task_kind(t)));
    vstd::seq_lib::to_multiset_insert(s.map_values(f), p, task_kind(t));
}

proof fn lemma_kinds_push(s: Seq<Task>, t: Task)
    ensures
        kinds(s.push(t)) == kinds(s).insert(task_kind(t)),
{
    assert(s.push(t) =~= s.insert(s.len() as int, t));
    lemma_kinds_insert(s, s.len() as int, t);
}

proof fn lemma_kinds_drop_first(s: Seq<Task>)
    requires
        s.len() > 0,
    ensures
        kinds(s.drop_first()) == kinds(s).remove(task_kind(s[0])),
        kinds(s).count(task_kind(s[0])) > 0,
{
    let f = |t: Task| task_kind(t);
    assert(s.drop_first().map_values(f) =~= s.map_values(f).remove(0));
    vstd::seq_lib::to_multiset_remove(s.map_values(f), 0);
    vstd::seq_lib::to_multiset_contains(s.map_values(f), task_kind(s[0]));
    assert(s.map_values(f)[0] == task_kind(s[0]));
}

/// A tick neither creates nor loses work: the kinds of the tasks that the
/// scheduler holds, in its timers and in its run queue together, are the same
/// before and after the tick (the task that runs comes back as its next
/// occurrence).
pub proof fn lemma_tick_keeps_kinds(timers: Seq<Task>, queue: Seq<Task>, now: u64)
    ensures
        kinds(tick_timers(timers, queue, now) + tick_queue(timers, queue, now)) == kinds(
            timers + queue,
        ),
{
    broadcast use vstd::multiset::group_multiset_axioms;

    let t1 = timers_after_ring(timers, now);
    let q1 = queue_after_ring(timers, queue, now);
    lemma_kinds_concat(timers, queue);
    lemma_kinds_concat(t1, q1);
    if timer_rings(timers, now) {
        lemma_kinds_drop_first(timers);
        lemma_kinds_push(queue, timers[0]);
        assert(kinds(t1).add(kinds(q1)) =~= kinds(timers).add(kinds(queue)));
    }
    let t2 = tick_timers(timers, queue, now);
    let q2 = tick_queue(timers, queue, now);
    lemma_kinds_concat(t2, q2);
    if q1.len() > 0 {
        let r = rescheduled_spec(q1[0], now);
        crate::scheduler::timers::lemma_insert_pos_bound(t1, task_timer(r));
        lemma_kinds_insert(t1, crate::scheduler::timers::insert_pos(t1, task_timer(r)) as int, r);
        lemma_kinds_drop_first(q1);
        assert(task_kind(r) == task_kind(q1[0]));
        assert(kinds(t2).add(kinds(q2)) =~= kinds(t1).add(kinds(q1)));
    }
}

/// Starting an empty scheduler leaves it holding exactly one task of each
/// kind; with `lemma_tick_keeps_kinds`, that stays so on every tick: prices
/// are updated, opportunities ranked and the database written again and
/// again, and no task is ever duplicated.
pub proof fn lemma_start_holds_one_of_each(now: u64)
    requires
        now <= u64::MAX - 30,
    ensures
        ({
            let queue = seq![Task::UpdateLatest(UpdateLatestTask { timer: 0 })];
            let timers = with_timer(
                with_timer(
                    Seq::<Task>::empty(),
                    Task::CalculateArbitrage(CalculateArbitrageTask { timer: (now + 10) as u64 }),
                ),
                Task::FlushData(FlushDataTask { timer: (now + 30) as u64 }),
            );
            kinds(timers + queue) == Multiset::<TaskKind>::empty().insert(
                TaskKind::UpdateLatest,
            ).insert(TaskKind::CalculateArbitrage).insert(TaskKind::FlushData)
        }),
{
    broadcast use vstd::multiset::group_multiset_axioms;

    let c = Task::CalculateArbitrage(CalculateArbitrageTask { timer: (now + 10) as u64 });
    let fl = Task::FlushData(FlushDataTask { timer: (now + 30) as u64 });
    let u = Task::UpdateLatest(UpdateLatestTask { timer: 0 });
    let e = Seq::<Task>::empty();
    let t1 = with_timer(e, c);
    let t2 = with_timer(t1, fl);
    let queue = seq![u];
    crate::scheduler::timers::lemma_insert_pos_bound(e, task_timer(c));
    lemma_kinds_insert(e, crate::scheduler::timers::insert_pos(e, task_timer(c)) as int, c);
    crate::scheduler::timers::lemma_insert_pos_bound(t1, task_timer(fl));
    lemma_kinds_insert(t1, crate::scheduler::timers::insert_pos(t1, task_timer(fl)) as int, fl);
    assert(queue =~= e.push(u));
    lemma_kinds_push(e, u);
    lemma_kinds_concat(t2, queue);
    assert(kinds(e) =~= Multiset::<TaskKind>::empty()) by {
        let em = e.map_values(|t: Task| task_kind(t));
        assert(em.len() == 0);
        em.to_multiset_ensures();
        vstd::multiset::lemma_multiset_empty_len(em.to_multiset());
    }
    assert(kinds(t2 + queue) =~= Multiset::<TaskKind>::empty().insert(TaskKind::UpdateLatest).insert(
        TaskKind::CalculateArbitrage,
    ).insert(TaskKind::FlushData));
}

/// A tick runs only work that is ready: the task it hands out is the front of
/// the run queue, or, when the queue is empty, the first pending timer, which
/// is then due no later than the tick's time.
pub proof fn lemma_tick_runs_only_ready_work(timers: Seq<Task>, queue: Seq<Task>, now: u64)
    ensures
        tick_task(timers, queue, now) matches Some(t) ==> {
            ||| queue.len() > 0 && t == queue[0]
            ||| queue.len() == 0 && timers.len() > 0 && t == timers[0] && task_timer(t) <= now
        },
        tick_task(timers, queue, now) is None ==> queue.len() == 0 && !timer_rings(timers, now),
{
}

/// A task that a tick hands out to run is pending again afterwards, as its
/// next occurrence: exactly one new timer joins the pending ones, of the same
/// kind as the task, due one repeat period after the tick (a minute for a
/// price update, thirty seconds for a ranking, five minutes for a write to
/// disk). A tick that hands out nothing adds no timer.
pub proof fn lemma_tick_reschedules_the_task_it_runs(
    timers: Seq<Task>,
    queue: Seq<Task>,
    now: u64,
)
    requires
        tick_fits(timers, queue, now),
    ensures
        tick_task(timers, queue, now) matches Some(t) ==> {
            let r = rescheduled_spec(t, now);
            &&& tick_timers(timers, queue, now).contains(r)
            &&& tick_timers(timers, queue, now).to_multiset() == timers_after_ring(
                timers,
                now,
            ).to_multiset().insert(r)
            &&& task_kind(r) == task_kind(t)
            &&& task_timer(r) == now + repeat_period(t)
        },
        tick_task(timers, queue, now) is None ==> tick_timers(timers, queue, now)
            == timers_after_ring(timers, now),
{
    if let Some(t) = tick_task(timers, queue, now) {
        let t1 = timers_after_ring(timers, now);
        let r = rescheduled_spec(t, now);
        let p = crate::scheduler::timers::insert_pos(t1, task_timer(r));
        crate::scheduler::timers::lemma_insert_pos_bound(t1, task_timer(r));
        assert(tick_timers(timers, queue, now)[p as int] == r);
        vstd::seq_lib::to_multiset_insert(t1, p as int, r);
    }
}

/// The run queue is first in, first out, whatever the tasks' timers: a tick
/// hands out the front of the queue, and a ringing timer joins at its back.
pub proof fn lemma_run_queue_is_fifo(timers: Seq<Task>, queue: Seq<Task>, now: u64)
    ensures
        queue.len() > 0 ==> tick_task(timers, queue, now) == Some(queue[0]),
        tick_queue(timers, queue, now) == if timer_rings(timers, now) {
            (queue + seq![timers[0]]).drop_first()
        } else if queue.len() > 0 {
            queue.drop_first()
        } else {
            queue
        },
        timers_after_ring(timers, now) == if timer_rings(timers, now) {
            timers.drop_first()
        } else {
            timers
        },
{
    if timer_rings(timers, now) {
        assert(queue.push(timers[0]) =~= queue + seq![timers[0]]);
    }
}

/// A pending timer rings exactly when the earliest one is due no later than
/// the tick's time: it then leaves the timers and runs unless an earlier
/// queued task runs first; otherwise the timers keep every task and only a
/// queued task can run.
pub proof fn lemma_due_timer_rings(timers: Seq<Task>, queue: Seq<Task>, now: u64)
    ensures
        timers.len() > 0 && task_timer(timers[0]) <= now ==> {
            &&& timers_after_ring(timers, now) == timers.drop_first()
            &&& tick_task(timers, queue, now) == Some(
                if queue.len() > 0 {
                    queue[0]
                } else {
                    timers[0]
                },
            )
        },
        (timers.len() == 0 || task_timer(timers[0]) > now) ==> {
            &&& timers_after_ring(timers, now) == timers
            &&& tick_task(timers, queue, now) == if queue.len() > 0 {
                Some(queue[0])
            } else {
                None::<Task>
            }
        },
{
}

/// A tick keeps the timers in time order.
pub proof fn lemma_tick_keeps_timers_sorted(timers: Seq<Task>, queue: Seq<Task>, now: u64)
    requires
        sorted_by_timer(timers),
    ensures
        sorted_by_timer(tick_timers(timers, queue, now)),
{
    let t1 = timers_after_ring(timers, now);
    assert(sorted_by_timer(t1)) by {
        if timer_rings(timers, now) {
            assert forall|i: int, j: int| 0 <= i <= j < t1.len() implies task_timer(t1[i])
                <= task_timer(t1[j]) by {
                assert(t1[i] == timers[i + 1]);
                assert(t1[j] == timers[j + 1]);
            }
        }
    }
    let q1 = queue_after_ring(timers, queue, now);
    if q1.len() > 0 {
        crate::scheduler::timers::lemma_with_timer_sorted(t1, rescheduled_spec(q1[0], now));
    }
}

/// The scheduler: it keeps the items database, the pending timers and the
/// queue of tasks that are ready to run, and on each tick decides which task
/// runs next.
pub struct Scheduler {
    context: Context,
    task_count: u128,
    timers: Timers,
    hertz: u64,
    tasks: VecDeque<Task>,
}

impl Scheduler {
    /// The items database.
    pub closed spec fn context_spec(&self) -> Context {
        self.context
    }

    /// The number of ticks so far, saturating at `u128::MAX`.
    pub closed spec fn task_count_spec(&self) -> u128 {
        self.task_count
    }

    /// The pending timers, in the order in which they come out.
    pub closed spec fn timers_spec(&self) -> Seq<Task> {
        self.timers@
    }

    /// The tasks that are ready to run, front first.
    pub closed spec fn queue_spec(&self) -> Seq<Task> {
        self.tasks@
    }

    /// Ticks per second.
    pub closed spec fn hertz_spec(&self) -> u64 {
        self.hertz
    }

    /// The timers are in time order and the tick rate is positive.
    pub closed spec fn wf(&self) -> bool {
        &&& self.timers.wf()
        &&& self.hertz > 0
    }

    /// A scheduler over `context`, ticking once a second, with nothing
    /// scheduled yet.
    pub fn new(context: Context) -> (r: Self)
        ensures
            r.wf(),
            r.context_spec() == context,
            r.task_count_spec() == 0,
            r.timers_spec() == Seq::<Task>::empty(),
            r.queue_spec() == Seq::<Task>::empty(),
            r.hertz_spec() == 1,
    {
        Scheduler { context, task_count: 0, timers: Timers::new(), hertz: 1, tasks: VecDeque::new() }
    }

    /// Schedules the first tasks at time `now`: a price update right away, a
    /// ranking of opportunities ten seconds later, and a write to disk thirty
    /// seconds later.
    pub fn start(&mut self, now: u64)
        requires
            old(self).wf(),
            now <= u64::MAX - 30,
        ensures
            final(self).wf(),
            final(self).queue_spec() == seq![Task::UpdateLatest(UpdateLatestTask { timer: 0 })]
                + old(self).queue_spec(),
            final(self).timers_spec() == with_timer(
                with_timer(
                    old(self).timers_spec(),
                    Task::CalculateArbitrage(CalculateArbitrageTask { timer: (now + 10) as u64 }),
                ),
                Task::FlushData(FlushDataTask { timer: (now + 30) as u64 }),
            ),
            final(self).context_spec() == old(self).context_spec(),
            final(self).task_count_spec() == old(self).task_count_spec(),
            final(self).hertz_spec() == old(self).hertz_spec(),
    {
        self.tasks.push_front(Task::UpdateLatest(UpdateLatestTask { timer: 0 }));
        self.timers.add_task(Task::CalculateArbitrage(CalculateArbitrageTask { timer: now + 10 }));
        self.timers.add_task(Task::FlushData(FlushDataTask { timer: now + 30 }));
    }

    /// One tick at time `now`: counts the tick; moves the first pending timer
    /// to the back of the run queue when it is due; schedules the task at the
    /// front of the queue again for its next occurrence; and hands that task
    /// out to be run.
    pub fn tick(&mut self, now: u64) -> (r: Option<Task>)
        requires
            old(self).wf(),
            tick_fits(old(self).timers_spec(), old(self).queue_spec(), now),
        ensures
            final(self).wf(),
            final(self).task_count_spec() == if old(self).task_count_spec() == u128::MAX {
                u128::MAX
            } else {
                (old(self).task_count_spec() + 1) as u128
            },
            r == tick_task(old(self).timers_spec(), old(self).queue_spec(), now),
            final(self).timers_spec() == tick_timers(
                old(self).timers_spec(),
                old(self).queue_spec(),
                now,
            ),
            final(self).queue_spec() == tick_queue(old(self).timers_spec(), old(self).queue_spec(), now),
            final(self).context_spec() == old(self).context_spec(),
            final(self).hertz_spec() == old(self).hertz_spec(),
    {
        self.task_count = self.task_count.saturating_add(1);
        if let Some(timer) = self.timers.next_timer() {
            if timer <= now {
                let task = self.timers.pop().unwrap();
                self.tasks.push_back(task);
            }
        }
        if self.tasks.len() > 0 {
            proof {
                let q = queue_after_ring(old(self).timers_spec(), old(self).queue_spec(), now);
                assert(self.tasks@ == q);
            }
            let next = self.tasks[0].rescheduled(now);
            self.timers.add_task(next);
        }
        let r = self.tasks.pop_front();
        proof {
            let q = queue_after_ring(old(self).timers_spec(), old(self).queue_spec(), now);
            if q.len() > 0 {
                assert(self.tasks@ =~= q.drop_first());
            }
        }
        r
    }

    /// Whether a tick at time `now` may run: the next occurrence of the task
    /// it would hand out is due at a time that a `u64` holds.
    pub fn tick_fits(&self, now: u64) -> (b: bool)
        requires
            self.wf(),
        ensures
            b == tick_fits(self.timers_spec(), self.queue_spec(), now),
    {
        if self.tasks.len() > 0 {
            now <= u64::MAX - self.tasks[0].repeat_period()
        } else {
            match self.timers.first() {
                Some(t) => if t.timer() <= now {
                    now <= u64::MAX - t.repeat_period()
                } else {
                    true
                },
                None => true,
            }
        }
    }

    /// Seconds to wait between ticks.
    pub fn period_secs(&self) -> (r: u64)
        requires
            self.wf(),
        ensures
            r == 1u64 / self.hertz_spec(),
    {
        1 / self.hertz
    }

    /// The number of ticks so far.
    pub fn task_count(&self) -> (r: u128)
        ensures
            r == self.task_count_spec(),
    {
        self.task_count
    }

    /// The items database.
    pub fn context(&self) -> (r: &Context)
        ensures
            *r == self.context_spec(),
    {
        &self.context
    }

    /// The items database, for a task to change.
    pub fn context_mut(&mut self) -> (r: &mut Context)
        ensures
            *r == old(self).context_spec(),
            final(self).context_spec() == *final(r),
            final(self).task_count_spec() == old(self).task_count_spec(),
            final(self).timers_spec() == old(self).timers_spec(),
            final(self).queue_spec() == old(self).queue_spec(),
            final(self).hertz_spec() == old(self).hertz_spec(),
            final(self).wf() == old(self).wf(),
    {
        &mut self.context
    }
}

} // verus!

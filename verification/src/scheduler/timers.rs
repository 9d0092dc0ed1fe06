use vstd::prelude::*;
use vstd::multiset::Multiset;
use crate::tasks::{task_timer, Task};

verus! {

/// Whether the tasks of `s` are in order of the times at which they are due.
pub open spec fn sorted_by_timer(s: Seq<Task>) -> bool {
    forall|i: int, j: int| 0 <= i <= j < s.len() ==> task_timer(s[i]) <= task_timer(s[j])
}

/// The number of leading tasks of `s` that are due no later than `t`: the
/// place at which a task due at `t` joins `s`, after the tasks due at the
/// same time.
pub open spec fn insert_pos(s: Seq<Task>, t: u64) -> nat
    decreases s.len(),
{
    if s.len() == 0 {
        0
    } else if task_timer(s[0]) <= t {
        1 + insert_pos(s.drop_first(), t)
    } else {
        0
    }
}

/// `s` with `task` added at its place in time order.
pub open spec fn with_timer(s: Seq<Task>, task: Task) -> Seq<Task> {
    s.insert(insert_pos(s, task_timer(task)) as int, task)
}

/// When the first `p` tasks of a sorted `s` are due no later than `t` and the
/// others later, `task` joins `s` at `p`.
proof fn lemma_insert_pos(s: Seq<Task>, t: u64, p: int)
    requires
        sorted_by_timer(s),
        0 <= p <= s.len(),
        forall|i: int| 0 <= i < p ==> task_timer(s[i]) <= t,
        p < s.len() ==> task_timer(s[p]) > t,
    ensures
        insert_pos(s, t) == p,
    decreases s.len(),
{
    if s.len() > 0 {
        if p > 0 {
            lemma_insert_pos(s.drop_first(), t, p - 1);
        }
    }
}

/// The place at which a task joins `s` is within `s`.
pub proof fn lemma_insert_pos_bound(s: Seq<Task>, t: u64)
    ensures
        insert_pos(s, t) <= s.len(),
    decreases s.len(),
{
    if s.len() > 0 {
        lemma_insert_pos_bound(s.drop_first(), t);
    }
}

proof fn lemma_insert_pos_split(s: Seq<Task>, t: u64)
    requires
        sorted_by_timer(s),
    ensures
        insert_pos(s, t) <= s.len(),
        forall|i: int| 0 <= i < insert_pos(s, t) ==> task_timer(#[trigger] s[i]) <= t,
        forall|i: int| insert_pos(s, t) <= i < s.len() ==> task_timer(#[trigger] s[i]) > t,
    decreases s.len(),
{
    if s.len() > 0 {
        let r = s.drop_first();
        assert(sorted_by_timer(r)) by {
            assert forall|i: int, j: int| 0 <= i <= j < r.len() implies task_timer(r[i])
                <= task_timer(r[j]) by {
                assert(r[i] == s[i + 1] && r[j] == s[j + 1]);
            }
        }
        lemma_insert_pos_split(r, t);
        if task_timer(s[0]) <= t {
            assert forall|i: int| 0 <= i < insert_pos(s, t) implies task_timer(#[trigger] s[i])
                <= t by {
                if i > 0 {
                    assert(s[i] == r[i - 1]);
                }
            }
            assert forall|i: int| insert_pos(s, t) <= i < s.len() implies task_timer(
                #[trigger] s[i],
            ) > t by {
                assert(s[i] == r[i - 1]);
            }
        } else {
            assert forall|i: int| 0 <= i < s.len() implies task_timer(#[trigger] s[i]) > t by {
                assert(task_timer(s[0]) <= task_timer(s[i]));
            }
        }
    }
}

/// A task added to sorted timers goes right after the tasks due no later than
/// it and right before the tasks due later, everything else keeping its
/// order: tasks due at the same time come out in the order they were added.
pub proof fn lemma_with_timer_places_task(s: Seq<Task>, task: Task)
    requires
        sorted_by_timer(s),
    ensures
        ({
            let p = insert_pos(s, task_timer(task)) as int;
            let r = with_timer(s, task);
            &&& 0 <= p <= s.len()
            &&& r.len() == s.len() + 1
            &&& r[p] == task
            &&& forall|i: int| 0 <= i < p ==> r[i] == s[i] && task_timer(#[trigger] s[i]) <= task_timer(task)
            &&& forall|i: int| p <= i < s.len() ==> r[i + 1] == s[i] && task_timer(#[trigger] s[i]) > task_timer(task)
        }),
{
    lemma_insert_pos_split(s, task_timer(task));
}

/// Adding a task at its place keeps a sorted sequence sorted and adds exactly
/// that task: nothing pending is lost or duplicated.
pub proof fn lemma_with_timer_sorted(s: Seq<Task>, task: Task)
    requires
        sorted_by_timer(s),
    ensures
        sorted_by_timer(with_timer(s, task)),
        with_timer(s, task).to_multiset() == s.to_multiset().insert(task),
{
    let t = task_timer(task);
    lemma_insert_pos_split(s, t);
    let p = insert_pos(s, t) as int;
    let r = with_timer(s, task);
    assert forall|i: int, j: int| 0 <= i <= j < r.len() implies task_timer(r[i]) <= task_timer(
        r[j],
    ) by {
        if j < p {
        } else if j == p {
            if i < p {
            }
        } else if i < p {
            assert(task_timer(s[i]) <= t);
            assert(task_timer(s[j - 1]) > t);
        } else if i == p {
            assert(task_timer(s[j - 1]) > t);
        } else {
        }
    }
    vstd::seq_lib::to_multiset_insert(s, p, task);
}

/// `s` with the tasks of `xs` added one after the other, each at its place.
pub open spec fn with_timers(s: Seq<Task>, xs: Seq<Task>) -> Seq<Task>
    decreases xs.len(),
{
    if xs.len() == 0 {
        s
    } else {
        with_timer(with_timers(s, xs.drop_last()), xs.last())
    }
}

/// Adding any number of tasks one after the other keeps the pending tasks in
/// time order and adds exactly those tasks. Since `pop` takes the first
/// pending task, timers added to an empty `Timers` come out as a permutation
/// of them, in non-decreasing order of the times at which they are due, and
/// then `pop` gives nothing.
pub proof fn lemma_with_timers_sorted(s: Seq<Task>, xs: Seq<Task>)
    requires
        sorted_by_timer(s),
    ensures
        sorted_by_timer(with_timers(s, xs)),
        with_timers(s, xs).to_multiset() == s.to_multiset().add(xs.to_multiset()),
        with_timers(s, xs).len() == s.len() + xs.len(),
    decreases xs.len(),
{
    broadcast use vstd::multiset::group_multiset_axioms;

    if xs.len() == 0 {
        assert(xs.to_multiset() =~= Multiset::<Task>::empty()) by {
            xs.to_multiset_ensures();
            vstd::multiset::lemma_multiset_empty_len(xs.to_multiset());
        }
        assert(s.to_multiset().add(xs.to_multiset()) =~= s.to_multiset());
    } else {
        let p = xs.drop_last();
        lemma_with_timers_sorted(s, p);
        lemma_with_timer_sorted(with_timers(s, p), xs.last());
        lemma_insert_pos_bound(with_timers(s, p), task_timer(xs.last()));
        assert(xs =~= p.push(xs.last()));
        vstd::seq_lib::to_multiset_build(p, xs.last());
        assert(s.to_multiset().add(xs.to_multiset()) =~= s.to_multiset().add(p.to_multiset()).insert(
            xs.last(),
        ));
    }
}

/// The pending timers: tasks waiting for the time at which they are due.
/// The task that is due first comes out first; tasks due at the same time
/// come out in the order in which they were added.
#[derive(Debug)]
pub struct Timers {
    entries: Vec<Task>,
}

impl View for Timers {
    type V = Seq<Task>;

    /// The pending tasks, in the order in which they will come out.
    closed spec fn view(&self) -> Seq<Task> {
        self.entries@
    }
}

impl Timers {
    /// The pending tasks are in time order.
    pub open spec fn wf(&self) -> bool {
        sorted_by_timer(self@)
    }

    /// No pending timers.
    pub fn new() -> (r: Self)
        ensures
            r@ == Seq::<Task>::empty(),
            r.wf(),
    {
        Timers { entries: Vec::new() }
    }

    /// Adds `task`, after the pending tasks that are due no later than it.
    pub fn add_task(&mut self, task: Task)
        requires
            old(self).wf(),
        ensures
            final(self).wf(),
            final(self)@ == with_timer(old(self)@, task),
    {
        let t = task.timer();
        let n = self.entries.len();
        let mut p: usize = 0;
        while p < n
            invariant
                n == self.entries@.len(),
                0 <= p <= n,
                forall|i: int| 0 <= i < p ==> task_timer(#[trigger] self.entries@[i]) <= t,
            ensures
                0 <= p <= n,
                forall|i: int| 0 <= i < p ==> task_timer(#[trigger] self.entries@[i]) <= t,
                p < n ==> task_timer(self.entries@[p as int]) > t,
            decreases n - p,
        {
            if self.entries[p].timer() > t {
                break;
            }
            p = p + 1;
        }
        proof {
            lemma_insert_pos(self@, t, p as int);
        }
        self.entries.insert(p, task);
        proof {
            let s = old(self)@;
            let r = self@;
            assert(r == s.insert(p as int, task));
            assert forall|i: int, j: int| 0 <= i <= j < r.len() implies task_timer(r[i])
                <= task_timer(r[j]) by {
                if j < p {
                } else if j == p {
                    if i < p {
                    }
                } else if i < p {
                    assert(task_timer(s[i]) <= t);
                    assert(task_timer(s[p as int]) <= task_timer(s[j - 1]));
                } else if i == p {
                    assert(task_timer(s[p as int]) <= task_timer(s[j - 1]));
                } else {
                }
            }
        }
    }

    /// The time at which the first pending task is due, if any task is
    /// pending: the earliest time of all pending tasks.
    pub fn next_timer(&self) -> (r: Option<u64>)
        requires
            self.wf(),
        ensures
            self@.len() == 0 ==> r is None,
            self@.len() > 0 ==> r == Some(task_timer(self@[0])),
            r matches Some(t) ==> forall|i: int|
                0 <= i < self@.len() ==> t <= task_timer(#[trigger] self@[i]),
    {
        if self.entries.len() > 0 {
            Some(self.entries[0].timer())
        } else {
            None
        }
    }

    /// The first pending task, if any: the one that comes out next.
    pub fn first(&self) -> (r: Option<&Task>)
        ensures
            self@.len() == 0 ==> r is None,
            self@.len() > 0 ==> r == Some(&self@[0]),
    {
        if self.entries.len() > 0 {
            Some(&self.entries[0])
        } else {
            None
        }
    }

    /// Takes out the first pending task, if any: one that is due no later
    /// than every other pending task.
    pub fn pop(&mut self) -> (r: Option<Task>)
        requires
            old(self).wf(),
        ensures
            final(self).wf(),
            old(self)@.len() == 0 ==> r is None && final(self)@ == old(self)@,
            old(self)@.len() > 0 ==> r == Some(old(self)@[0]) && final(self)@ == old(
                self,
            )@.drop_first(),
            r matches Some(task) ==> forall|i: int|
                0 <= i < final(self)@.len() ==> task_timer(task) <= task_timer(
                    #[trigger] final(self)@[i],
                ),
    {
        if self.entries.len() > 0 {
            let task = self.entries.remove(0);
            proof {
                assert(self@ == old(self)@.drop_first());
            }
            Some(task)
        } else {
            None
        }
    }
}

} // verus!

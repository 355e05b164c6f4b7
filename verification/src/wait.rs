//! Wait records and wait queues.
use vstd::prelude::*;
use crate::sched::{lemma_complete_wait_wf, SchedState, SchedView};
use crate::task::{TaskCb, TaskSt};
use crate::time::Time32;

verus! {

/// The bits of an event group.
pub type EventGroupBits = u32;

/// How a waiter's mask is matched against an event group, and what happens
/// to the bits that satisfied it.
#[derive(Clone, Copy, PartialEq, Eq, Structural, Debug)]
pub struct EventGroupWaitFlags {
    /// Wait for all bits of the mask; otherwise for any of them.
    pub all: bool,
    /// Clear the bits of the mask in the group when the wait is satisfied.
    pub clear: bool,
}

/// The order in which a wait queue serves its waiters.
#[derive(Clone, Copy, PartialEq, Eq, Structural, Debug)]
pub enum QueueOrder {
    /// In the order of arrival.
    Fifo,
    /// By task priority, and in the order of arrival among equals.
    TaskPriority,
}

/// The synchronization object that a wait queue belongs to.
#[derive(Clone, Copy, PartialEq, Eq, Structural, Debug)]
pub enum WaitQueueId {
    Semaphore(usize),
    EventGroup(usize),
}

/// What a waiter waits for and, once the wait has ended, what it was given.
#[derive(Clone, Copy, PartialEq, Eq, Structural, Debug)]
pub enum WaitPayload {
    /// Bits of an event group. `orig_bits` receives the bits that the group
    /// held when the wait was satisfied.
    EventGroupBits { bits: EventGroupBits, flags: EventGroupWaitFlags, orig_bits: EventGroupBits },
    /// One permit of a semaphore.
    SemaphorePermit,
    /// The task's park token.
    Park,
    /// Nothing but the passing of time.
    Sleep,
}

/// A wait record: which queue the waiter stands in, if any, and what it
/// waits for.
#[derive(Clone, Copy, PartialEq, Eq, Debug)]
pub struct Wait {
    pub queue: Option<WaitQueueId>,
    pub payload: WaitPayload,
}

/// What a call that may block reports: that it is done, with its result, or
/// that the calling task now waits and is to be switched out.
#[derive(PartialEq, Eq, Debug)]
pub enum Blocking<T> {
    Done(T),
    Blocked,
}


/// A wait queue as plain data: the waiting tasks in the order in which they
/// will be served, and the queue's ordering policy.
pub struct WaitQueueView {
    pub id: WaitQueueId,
    pub waits: Seq<usize>,
    pub order: QueueOrder,
}

impl WaitQueueView {
    /// Under `TaskPriority` no waiter stands behind one that is less
    /// urgent.
    pub open spec fn sorted(self, tasks: Seq<TaskCb>) -> bool {
        self.order == QueueOrder::TaskPriority ==> forall|a: int, b: int|
            0 <= a < b < self.waits.len() ==> tasks[(#[trigger] self.waits[a]) as int].priority
                <= tasks[(#[trigger] self.waits[b]) as int].priority
    }

    /// The queue holds no task twice, each task in it has a wait record
    /// that names this queue, and the waiters stand in the order of the
    /// queue's policy.
    pub open spec fn wf(self, tasks: Seq<TaskCb>) -> bool {
        &&& self.waits.no_duplicates()
        &&& forall|k: int|
            0 <= k < self.waits.len() ==> (#[trigger] self.waits[k]) < tasks.len()
                && tasks[self.waits[k] as int].wait is Some
                && tasks[self.waits[k] as int].wait->Some_0.queue == Some(self.id)
        &&& self.sorted(tasks)
    }

    /// The first place at or after `from` whose task is less urgent than
    /// `priority`; the length where there is none.
    pub open spec fn insert_position_from(self, tasks: Seq<TaskCb>, priority: usize, from: int) -> int
        decreases self.waits.len() - from,
    {
        if from < 0 || from >= self.waits.len() {
            self.waits.len() as int
        } else if tasks[self.waits[from] as int].priority > priority {
            from
        } else {
            self.insert_position_from(tasks, priority, from + 1)
        }
    }

    /// Where a task of priority `priority` joins the queue: at the tail
    /// under `Fifo`; under `TaskPriority` before the first task that is less
    /// urgent, so behind every task that is as urgent or more.
    pub open spec fn insert_position(self, tasks: Seq<TaskCb>, priority: usize) -> int {
        match self.order {
            QueueOrder::Fifo => self.waits.len() as int,
            QueueOrder::TaskPriority => self.insert_position_from(tasks, priority, 0),
        }
    }

    /// The queue after task `t` has joined it.
    pub open spec fn enqueue(self, tasks: Seq<TaskCb>, t: usize) -> WaitQueueView {
        WaitQueueView {
            waits: self.waits.insert(self.insert_position(tasks, tasks[t as int].priority), t),
            ..self
        }
    }

    /// The queue without task `t`.
    pub open spec fn without(self, t: usize) -> WaitQueueView {
        WaitQueueView { waits: self.waits.remove_value(t), ..self }
    }

    /// The queue without its head.
    pub open spec fn without_head(self) -> WaitQueueView {
        WaitQueueView { waits: self.waits.drop_first(), ..self }
    }

    pub proof fn lemma_insert_position_from(self, tasks: Seq<TaskCb>, priority: usize, from: int)
        requires
            0 <= from <= self.waits.len(),
        ensures
            from <= self.insert_position_from(tasks, priority, from) <= self.waits.len(),
            forall|k: int|
                from <= k < self.insert_position_from(tasks, priority, from) ==> tasks[(
                #[trigger] self.waits[k]) as int].priority <= priority,
            self.insert_position_from(tasks, priority, from) < self.waits.len()
                ==> tasks[self.waits[self.insert_position_from(tasks, priority, from)] as int].priority
                > priority,
        decreases self.waits.len() - from,
    {
        if from < self.waits.len() && tasks[self.waits[from] as int].priority <= priority {
            self.lemma_insert_position_from(tasks, priority, from + 1);
        }
    }

    /// A task joins the queue behind every waiter that is as urgent or more
    /// urgent, and under `TaskPriority` directly before one that is less
    /// urgent, if there is one.
    pub proof fn lemma_insert_position(self, tasks: Seq<TaskCb>, priority: usize)
        ensures
            0 <= self.insert_position(tasks, priority) <= self.waits.len(),
            self.order == QueueOrder::TaskPriority ==> forall|k: int|
                0 <= k < self.insert_position(tasks, priority) ==> tasks[(
                #[trigger] self.waits[k]) as int].priority <= priority,
            self.order == QueueOrder::TaskPriority && self.insert_position(tasks, priority)
                < self.waits.len() ==> tasks[self.waits[self.insert_position(
                tasks,
                priority,
            )] as int].priority > priority,
    {
        self.lemma_insert_position_from(tasks, priority, 0);
    }
}

/// A wait queue of a synchronization object. It holds the indices of the
/// waiting tasks; the wait records themselves are in the task table.
pub struct WaitQueue {
    pub id: WaitQueueId,
    pub waits: Vec<usize>,
    pub order: QueueOrder,
}

impl View for WaitQueue {
    type V = WaitQueueView;

    open spec fn view(&self) -> WaitQueueView {
        WaitQueueView { id: self.id, waits: self.waits@, order: self.order }
    }
}

/// The head of the queue is given what it waited for and leaves the queue;
/// nothing changes where the queue is empty.
pub open spec fn wake_one(q: WaitQueueView, s: SchedView) -> (WaitQueueView, SchedView) {
    if q.waits.len() == 0 {
        (q, s)
    } else {
        (q.without_head(), s.wake(q.waits[0]))
    }
}

/// Up to `n` waiters are woken, from the head on.
pub open spec fn wake_n(q: WaitQueueView, s: SchedView, n: nat) -> (WaitQueueView, SchedView)
    decreases n,
{
    if n == 0 || q.waits.len() == 0 {
        (q, s)
    } else {
        let (q1, s1) = wake_one(q, s);
        wake_n(q1, s1, (n - 1) as nat)
    }
}

/// Waking the head keeps the scheduler's invariant and the queue's, and
/// changes no task but the one woken.
pub proof fn lemma_wake_one_wf(q: WaitQueueView, s: SchedView)
    requires
        s.wf(),
        q.wf(s.tasks),
    ensures
        wake_one(q, s).1.wf(),
        wake_one(q, s).0.wf(wake_one(q, s).1.tasks),
        wake_one(q, s).0.id == q.id,
        wake_one(q, s).1.tasks.len() == s.tasks.len(),
        wake_one(q, s).1.running == s.running,
        wake_one(q, s).1.now == s.now,
        wake_one(q, s).0.order == q.order,
        forall|u: int|
            0 <= u < s.tasks.len() && !(q.waits.len() > 0 && u == q.waits[0]) ==> wake_one(
                q,
                s,
            ).1.tasks[u] == s.tasks[u],
{
    if q.waits.len() > 0 {
        let t = q.waits[0];
        let s1 = s.wake(t);
        let q1 = q.without_head();
        assert(s.tasks[t as int].st == TaskSt::Waiting);
        lemma_complete_wait_wf(s, t, Ok(s.tasks[t as int].wait->Some_0.payload));
        assert forall|k: int| 0 <= k < q1.waits.len() implies (#[trigger] q1.waits[k]) < s1.tasks.len()
            && s1.tasks[q1.waits[k] as int].wait is Some
            && s1.tasks[q1.waits[k] as int].wait->Some_0.queue == Some(q1.id) by {
            assert(q1.waits[k] == q.waits[k + 1]);
            assert(q.waits[k + 1] != q.waits[0]);
        }
        assert forall|i: int, j: int|
            0 <= i < q1.waits.len() && 0 <= j < q1.waits.len() && i != j implies q1.waits[i]
            != q1.waits[j] by {
            assert(q1.waits[i] == q.waits[i + 1]);
            assert(q1.waits[j] == q.waits[j + 1]);
        }
    }
}

impl WaitQueue {
    /// The empty queue of object `id`, which serves its waiters in the given
    /// order.
    pub fn new(id: WaitQueueId, order: QueueOrder) -> (r: WaitQueue)
        ensures
            r@ == (WaitQueueView { id, waits: Seq::empty(), order }),
    {
        WaitQueue { id, waits: Vec::new(), order }
    }

    pub fn is_empty(&self) -> (r: bool)
        ensures
            r == (self@.waits.len() == 0),
    {
        self.waits.len() == 0
    }

    /// Where a task of priority `priority` joins the queue.
    pub fn insert_position(&self, sched: &SchedState, priority: usize) -> (r: usize)
        requires
            forall|k: int| 0 <= k < self@.waits.len() ==> (#[trigger] self@.waits[k]) < sched@.tasks.len(),
        ensures
            r == self@.insert_position(sched@.tasks, priority),
            r <= self@.waits.len(),
    {
        proof {
            self@.lemma_insert_position(sched@.tasks, priority);
        }
        match self.order {
            QueueOrder::Fifo => self.waits.len(),
            QueueOrder::TaskPriority => {
                let mut i: usize = 0;
                while i < self.waits.len()
                    invariant
                        i <= self.waits.len(),
                        self.order == QueueOrder::TaskPriority,
                        forall|k: int|
                            0 <= k < self@.waits.len() ==> (#[trigger] self@.waits[k])
                                < sched@.tasks.len(),
                        self@.insert_position_from(sched@.tasks, priority, 0)
                            == self@.insert_position_from(sched@.tasks, priority, i as int),
                    decreases self.waits.len() - i,
                {
                    if sched.tasks[self.waits[i]].priority > priority {
                        assert(self@.insert_position_from(sched@.tasks, priority, i as int) == i);
                        return i;
                    }
                    i += 1;
                }
                i
            },
        }
    }

    /// Puts the running task into this queue and makes it wait for
    /// `payload`, with a timeout that expires at `at` where one is given.
    pub fn wait(&mut self, sched: &mut SchedState, payload: WaitPayload, at: Option<Time32>)
        requires
            old(sched)@.running is Some,
            old(sched)@.running->Some_0 < old(sched)@.tasks.len(),
            forall|k: int|
                0 <= k < old(self)@.waits.len() ==> (#[trigger] old(self)@.waits[k]) < old(
                    sched,
                )@.tasks.len(),
        ensures
            final(self)@ == old(self)@.enqueue(old(sched)@.tasks, old(sched)@.running->Some_0),
            final(sched)@ == old(sched)@.begin_wait(
                Wait { queue: Some(old(self)@.id), payload },
                at,
            ),
    {
        let r = sched.running_task.unwrap();
        let pos = self.insert_position(sched, sched.tasks[r].priority);
        self.waits.insert(pos, r);
        sched.begin_wait(Wait { queue: Some(self.id), payload }, at);
    }

    /// Takes task `t` out of the queue, where it is in it.
    pub fn remove(&mut self, t: usize)
        ensures
            final(self)@ == old(self)@.without(t),
    {
        let mut i: usize = 0;
        while i < self.waits.len()
            invariant
                i <= self.waits.len(),
                self@ == old(self)@,
                forall|k: int| 0 <= k < i ==> self@.waits[k] != t,
            decreases self.waits.len() - i,
        {
            if self.waits[i] == t {
                proof {
                    self@.waits.index_of_first_ensures(t);
                    assert(self@.waits[i as int] == t);
                    let found = self@.waits.index_of_first(t)->Some_0;
                    assert(self@.waits[found] == t);
                    assert(found == i);
                }
                let _ = self.waits.remove(i);
                return ;
            }
            i += 1;
        }
        proof {
            self@.waits.index_of_first_ensures(t);
        }
    }

    /// Wakes the head of the queue, if there is one, and tells whether it
    /// did. The task becomes Ready; the processor is not yielded.
    pub fn wake_up_one(&mut self, sched: &mut SchedState) -> (r: bool)
        requires
            old(sched)@.wf(),
            old(self)@.wf(old(sched)@.tasks),
        ensures
            r == (old(self)@.waits.len() > 0),
            (final(self)@, final(sched)@) == wake_one(old(self)@, old(sched)@),
            final(sched)@.wf(),
            final(self)@.wf(final(sched)@.tasks),
    {
        proof {
            lemma_wake_one_wf(self@, sched@);
        }
        if self.waits.len() == 0 {
            return false;
        }
        let t = self.waits.remove(0);
        sched.wake(t);
        true
    }

    /// Wakes every waiter, from the head on, and tells whether there was
    /// one.
    pub fn wake_up_all(&mut self, sched: &mut SchedState) -> (r: bool)
        requires
            old(sched)@.wf(),
            old(self)@.wf(old(sched)@.tasks),
        ensures
            r == (old(self)@.waits.len() > 0),
            (final(self)@, final(sched)@) == wake_n(
                old(self)@,
                old(sched)@,
                old(self)@.waits.len(),
            ),
            final(self)@.waits.len() == 0,
            final(sched)@.wf(),
            final(self)@.wf(final(sched)@.tasks),
    {
        let some = self.waits.len() > 0;
        while self.waits.len() > 0
            invariant
                sched@.wf(),
                self@.wf(sched@.tasks),
                wake_n(self@, sched@, self@.waits.len()) == wake_n(
                    old(self)@,
                    old(sched)@,
                    old(self)@.waits.len(),
                ),
            decreases self.waits.len(),
        {
            self.wake_up_one(sched);
        }
        some
    }
}


/// Taking a task out of a queue without duplicates leaves the other tasks
/// in it, in their order, and the task itself out of it.
pub proof fn lemma_without(q: Seq<usize>, t: usize)
    requires
        q.no_duplicates(),
    ensures
        q.remove_value(t).no_duplicates(),
        !q.remove_value(t).contains(t),
        q.remove_value(t).len() <= q.len(),
        forall|u: usize| u != t ==> (q.remove_value(t).contains(u) <==> q.contains(u)),
        forall|k: int|
            0 <= k < q.remove_value(t).len() ==> q.contains(#[trigger] q.remove_value(t)[k]),
        q.len() > 0 && q[0] == t ==> q.remove_value(t) == q.drop_first(),
        !q.contains(t) ==> q.remove_value(t) == q,
{
    q.index_of_first_ensures(t);
    let r = q.remove_value(t);
    match q.index_of_first(t) {
        Some(i) => {
            assert(r == q.remove(i));
            assert forall|k: int| 0 <= k < r.len() implies q.contains(#[trigger] r[k]) && r[k]
                != t by {
                if k < i {
                    assert(r[k] == q[k]);
                } else {
                    assert(r[k] == q[k + 1]);
                }
            }
            assert forall|a: int, b: int| 0 <= a < r.len() && 0 <= b < r.len() && a != b implies r[a]
                != r[b] by {
                let qa = if a < i { a } else { a + 1 };
                let qb = if b < i { b } else { b + 1 };
                assert(r[a] == q[qa] && r[b] == q[qb]);
            }
            assert forall|u: usize| u != t implies (r.contains(u) <==> q.contains(u)) by {
                if q.contains(u) {
                    let j = choose|j: int| 0 <= j < q.len() && q[j] == u;
                    let rj = if j < i { j } else { j - 1 };
                    assert(r[rj] == u);
                }
                if r.contains(u) {
                    let j = choose|j: int| 0 <= j < r.len() && r[j] == u;
                    assert(q.contains(r[j]));
                }
            }
            if q.len() > 0 && q[0] == t {
                assert(i == 0);
                assert(r =~= q.drop_first());
            }
            if r.contains(t) {
                let j = choose|j: int| 0 <= j < r.len() && r[j] == t;
                assert(r[j] != t);
            }
        },
        None => {
            assert(r == q);
        },
    }
}

/// Putting a task into a queue that does not hold it adds that task and
/// nothing else, and keeps the queue free of duplicates.
pub proof fn lemma_insert(q: Seq<usize>, pos: int, t: usize)
    requires
        q.no_duplicates(),
        !q.contains(t),
        0 <= pos <= q.len(),
    ensures
        q.insert(pos, t).no_duplicates(),
        q.insert(pos, t).contains(t),
        forall|u: usize| q.insert(pos, t).contains(u) <==> (q.contains(u) || u == t),
{
    let r = q.insert(pos, t);
    assert(r[pos] == t);
    assert forall|u: usize| r.contains(u) <==> (q.contains(u) || u == t) by {
        if q.contains(u) {
            let j = choose|j: int| 0 <= j < q.len() && q[j] == u;
            let rj = if j < pos { j } else { j + 1 };
            assert(r[rj] == u);
        }
        if r.contains(u) && u != t {
            let j = choose|j: int| 0 <= j < r.len() && r[j] == u;
            let qj = if j < pos { j } else { j - 1 };
            assert(q[qj] == u);
        }
    }
    assert forall|a: int, b: int| 0 <= a < r.len() && 0 <= b < r.len() && a != b implies r[a]
        != r[b] by {
        let qa = if a < pos { a } else { a - 1 };
        let qb = if b < pos { b } else { b - 1 };
        if a != pos && b != pos {
            assert(r[a] == q[qa] && r[b] == q[qb]);
        } else if a == pos {
            assert(r[b] == q[qb]);
            assert(q.contains(q[qb]));
        } else {
            assert(r[a] == q[qa]);
            assert(q.contains(q[qa]));
        }
    }
}


/// The order of a queue depends on the priorities of its waiters alone.
pub proof fn lemma_sorted_frame(q: WaitQueueView, before: Seq<TaskCb>, after: Seq<TaskCb>)
    requires
        q.sorted(before),
        forall|k: int|
            0 <= k < q.waits.len() ==> after[(#[trigger] q.waits[k]) as int].priority
                == before[q.waits[k] as int].priority,
    ensures
        q.sorted(after),
{
    if q.order == QueueOrder::TaskPriority {
        assert forall|a: int, b: int| 0 <= a < b < q.waits.len() implies after[(
        #[trigger] q.waits[a]) as int].priority <= after[(#[trigger] q.waits[b]) as int].priority by {
            assert(before[q.waits[a] as int].priority <= before[q.waits[b] as int].priority);
        }
    }
}

/// A queue stays in order when a waiter leaves it.
pub proof fn lemma_without_sorted(q: WaitQueueView, tasks: Seq<TaskCb>, t: usize)
    requires
        q.sorted(tasks),
    ensures
        q.without(t).sorted(tasks),
{
    q.waits.index_of_first_ensures(t);
    let r = q.without(t);
    if q.order == QueueOrder::TaskPriority {
        match q.waits.index_of_first(t) {
            Some(i) => {
                assert forall|a: int, b: int| 0 <= a < b < r.waits.len() implies tasks[(
                #[trigger] r.waits[a]) as int].priority <= tasks[(
                #[trigger] r.waits[b]) as int].priority by {
                    let qa = if a < i { a } else { a + 1 };
                    let qb = if b < i { b } else { b + 1 };
                    assert(r.waits[a] == q.waits[qa]);
                    assert(r.waits[b] == q.waits[qb]);
                    assert(tasks[q.waits[qa] as int].priority <= tasks[q.waits[qb] as int].priority);
                }
            },
            None => {},
        }
    }
}

/// A queue stays in order when a task joins it: under `TaskPriority` the
/// task comes behind every waiter that is as urgent or more urgent, and
/// before every waiter that is less urgent.
pub proof fn lemma_enqueue_sorted(q: WaitQueueView, tasks: Seq<TaskCb>, t: usize)
    requires
        q.sorted(tasks),
    ensures
        q.enqueue(tasks, t).sorted(tasks),
{
    let p = tasks[t as int].priority;
    let pos = q.insert_position(tasks, p);
    let r = q.enqueue(tasks, t);
    q.lemma_insert_position(tasks, p);
    if q.order == QueueOrder::TaskPriority {
        assert forall|a: int, b: int| 0 <= a < b < r.waits.len() implies tasks[(
        #[trigger] r.waits[a]) as int].priority <= tasks[(#[trigger] r.waits[b]) as int].priority by {
            let qa = if a < pos { a } else { a - 1 };
            let qb = if b < pos { b } else { b - 1 };
            if a == pos {
                assert(r.waits[a] == t);
                assert(r.waits[b] == q.waits[qb]);
                assert(pos < q.waits.len());
                if qb > pos {
                    assert(tasks[q.waits[pos] as int].priority <= tasks[q.waits[qb] as int].priority);
                }
            } else if b == pos {
                assert(r.waits[b] == t);
                assert(r.waits[a] == q.waits[qa]);
            } else {
                assert(r.waits[a] == q.waits[qa]);
                assert(r.waits[b] == q.waits[qb]);
                assert(tasks[q.waits[qa] as int].priority <= tasks[q.waits[qb] as int].priority);
            }
        }
    }
}

} // verus!

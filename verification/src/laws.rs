//! What holds of every state that the kernel can reach, and of its
//! operations taken together. Each statement here is proved from the
//! kernel's invariant, which every operation keeps, and from what the
//! operations' contracts say.
use vstd::prelude::*;
use crate::error::{
    ActivateTaskError, CpuLockError, ExitTaskError, InterruptTaskError, ParkError,
    PollSemaphoreError, SignalSemaphoreError, SleepError, UnparkError, WaitSemaphoreError,
    WaitSemaphoreTimeoutError,
};
use crate::kernel::{lemma_block_wf, lemma_end_wait_wf, KernelView};
use crate::semaphore::{lemma_grant_permits, lemma_semaphore_value_wf};
use crate::task::{spec_index_of_id, Id, TaskSt, WaitOutcome};
use crate::time::{
    lemma_fires_exactly_when_reached, spec_is_due, tick_after, Duration, Time32, Time64,
    BAD_DURATION32, TIME_USER_HEADROOM,
};
use crate::timeout::{is_linked, lemma_linked, lemma_position, next_due, Timeout, TimeoutOwner};
use crate::timer::{lemma_timer_unlink_wf, TimerCb};
use crate::wait::{
    Blocking, EventGroupBits, EventGroupWaitFlags, QueueOrder, Wait, WaitPayload, WaitQueueId,
};

verus! {

/// A task is Ready exactly while it stands in the ready queue, at the level
/// of its priority.
pub proof fn lemma_ready_iff_in_ready_queue(k: KernelView, t: usize, p: int)
    requires
        k.wf(),
        t < k.sched.tasks.len(),
    ensures
        k.sched.ready.holds(p, t) <==> (k.sched.tasks[t as int].st == TaskSt::Ready
            && k.sched.tasks[t as int].priority == p),
{
    if k.sched.tasks[t as int].st == TaskSt::Ready && k.sched.tasks[t as int].priority == p {
        assert(k.sched.ready.holds(k.sched.tasks[t as int].priority as int, t));
    }
}

/// A task is Waiting exactly while it has a wait record. A wait record that
/// names a queue is linked in that queue, once, and in no other; one that
/// names none is linked in none.
pub proof fn lemma_waiting_iff_linked(k: KernelView, t: usize, id: WaitQueueId)
    requires
        k.wf(),
        t < k.sched.tasks.len(),
    ensures
        k.sched.tasks[t as int].st == TaskSt::Waiting <==> k.sched.tasks[t as int].wait is Some,
        k.queued(id, t) <==> (k.sched.tasks[t as int].wait is Some
            && k.sched.tasks[t as int].wait->Some_0.queue == Some(id)),
        k.valid_queue(id) ==> k.queue(id).waits.no_duplicates(),
{
    match id {
        WaitQueueId::Semaphore(i) => {
            if i < k.semaphores.len() {
                let q = k.semaphores[i as int].queue;
                assert(q.wf(k.sched.tasks));
                if q.waits.contains(t) {
                    let j = choose|j: int| 0 <= j < q.waits.len() && q.waits[j] == t;
                    assert(k.sched.tasks[q.waits[j] as int].wait is Some);
                }
            }
        },
        WaitQueueId::EventGroup(i) => {
            if i < k.event_groups.len() {
                let q = k.event_groups[i as int].queue;
                assert(q.wf(k.sched.tasks));
                if q.waits.contains(t) {
                    let j = choose|j: int| 0 <= j < q.waits.len() && q.waits[j] == t;
                    assert(k.sched.tasks[q.waits[j] as int].wait is Some);
                }
            }
        },
    }
    if k.sched.tasks[t as int].wait is Some && k.sched.tasks[t as int].wait->Some_0.queue == Some(
        id,
    ) {
        assert(k.queued(k.sched.tasks[t as int].wait->Some_0.queue->Some_0, t));
    }
}

/// A semaphore's value is never above its maximum, and while it is above
/// zero nobody waits for the semaphore.
pub proof fn lemma_semaphore_bounds(k: KernelView, i: usize)
    requires
        k.wf(),
        i < k.semaphores.len(),
    ensures
        0 <= k.semaphores[i as int].value <= k.semaphores[i as int].max_value,
        k.semaphores[i as int].value > 0 ==> k.semaphores[i as int].queue.waits.len() == 0,
{
    assert(k.semaphores[i as int].wf());
}

/// Bit `p` of the priority bitmap is set exactly where level `p` of the
/// ready queue holds a task.
pub proof fn lemma_bitmap_tells_occupied_levels(k: KernelView, p: int)
    requires
        k.wf(),
        0 <= p < k.sched.ready.levels.len(),
    ensures
        k.sched.ready.bitmap[p] <==> k.sched.ready.levels[p].len() > 0,
{
}

/// At most one task is Running.
pub proof fn lemma_at_most_one_running(k: KernelView, t: usize, u: usize)
    requires
        k.wf(),
        t < k.sched.tasks.len(),
        u < k.sched.tasks.len(),
        k.sched.tasks[t as int].st == TaskSt::Running,
        k.sched.tasks[u as int].st == TaskSt::Running,
    ensures
        t == u,
        k.sched.running == Some(t),
{
}

/// The owner of a linked timeout expects it: a timer is Active, a task is
/// Waiting.
pub proof fn lemma_linked_timeout_is_expected(k: KernelView, owner: TimeoutOwner)
    requires
        k.wf(),
        is_linked(k.sched.timeouts, owner),
    ensures
        match owner {
            TimeoutOwner::Timer(i) => i < k.timers.len() && k.timers[i as int].active,
            TimeoutOwner::Task(t) => t < k.sched.tasks.len() && k.sched.tasks[t as int].st
                == TaskSt::Waiting,
        },
{
    let j = choose|j: int|
        0 <= j < k.sched.timeouts.len() && (#[trigger] k.sched.timeouts[j]).owner == owner;
    assert(k.sched.timeouts[j].owner == owner);
}

/// The preemption check keeps the kernel's invariant and touches nothing
/// but the dispatch line.
pub proof fn lemma_check_preemption(k: KernelView)
    requires
        k.wf(),
    ensures
        k.check_preemption().wf(),
        k.check_preemption().sched == k.sched,
        k.check_preemption().semaphores == k.semaphores,
        k.check_preemption().event_groups == k.event_groups,
        k.check_preemption().timers == k.timers,
        k.check_preemption().is_waitable() == k.is_waitable(),
        k.check_preemption().cpu_lock == k.cpu_lock,
{
}

impl KernelView {
    /// The state after `wait_one` has been called `n` times on the
    /// semaphore `id`, with nothing else happening in between.
    pub open spec fn wait_semaphore_times(self, id: Id, n: nat) -> KernelView
        decreases n,
    {
        if n == 0 {
            self
        } else {
            self.wait_semaphore(id).0.wait_semaphore_times(id, (n - 1) as nat)
        }
    }
}

/// The value that `n` calls of `wait_one` leave: each takes a permit while
/// there is one; the call that finds none makes the caller wait, after
/// which no call of the caller's is allowed and the value stays.
pub proof fn lemma_wait_semaphore_times(k: KernelView, id: Id, n: nat)
    requires
        k.wf(),
        spec_index_of_id(id, k.semaphores.len()) is Some,
    ensures
        k.wait_semaphore_times(id, n).semaphores.len() == k.semaphores.len(),
        k.wait_semaphore_times(id, n).semaphores[id - 1].value == if k.is_waitable()
            && k.semaphores[id - 1].value >= n {
            k.semaphores[id - 1].value - n
        } else if k.is_waitable() {
            0
        } else {
            k.semaphores[id - 1].value as int
        },
    decreases n,
{
    let i = (id - 1) as usize;
    if n > 0 {
        let k1 = k.wait_semaphore(id).0;
        assert(k.semaphores[i as int].wf());
        if !k.is_waitable() {
            assert(k1 == k);
        } else if k.semaphores[i as int].value >= 1 {
            lemma_semaphore_value_wf(k, i, (k.semaphores[i as int].value - 1) as usize);
        } else {
            lemma_block_wf(k, Some(WaitQueueId::Semaphore(i)), WaitPayload::SemaphorePermit, None);
            let b = k.block(Some(WaitQueueId::Semaphore(i)), WaitPayload::SemaphorePermit, None);
            lemma_check_preemption(b);
            assert(!b.sched.is_running());
            assert(b.semaphores[i as int].value == 0);
        }
        lemma_wait_semaphore_times(k1, id, (n - 1) as nat);
    }
}

/// What `signal` does to the value of the semaphore and to the number of
/// its waiters, where it succeeds.
pub proof fn lemma_signal_semaphore(k: KernelView, id: Id, n: usize)
    requires
        k.wf(),
        k.signal_semaphore(id, n).1 is Ok,
    ensures
        k.signal_semaphore(id, n).0.wf(),
        spec_index_of_id(id, k.semaphores.len()) is Some,
        k.signal_semaphore(id, n).0.semaphores.len() == k.semaphores.len(),
        k.signal_semaphore(id, n).0.is_waitable() == k.is_waitable(),
        k.signal_semaphore(id, n).0.semaphores[id - 1].value == if n
            <= k.semaphores[id - 1].queue.waits.len() {
            k.semaphores[id - 1].value as int
        } else {
            k.semaphores[id - 1].value + n - k.semaphores[id - 1].queue.waits.len()
        },
{
    let i = (id - 1) as usize;
    lemma_grant_permits(k, i, n as nat);
    let (woken, rest) = k.grant_permits(i, n as nat);
    let sem = woken.semaphores[i as int];
    assert(sem.wf());
    lemma_semaphore_value_wf(woken, i, (sem.value + rest) as usize);
    lemma_check_preemption(woken.with_semaphore_value(i, (sem.value + rest) as usize));
    assert(woken.sched.is_running() == k.sched.is_running()) by {
        lemma_grant_permits_keeps_running(k, i, n as nat);
    }
}

/// Granting permits makes tasks Ready; it does not touch the task that
/// runs.
pub proof fn lemma_grant_permits_keeps_running(k: KernelView, i: usize, n: nat)
    requires
        k.wf(),
        i < k.semaphores.len(),
    ensures
        k.grant_permits(i, n).0.sched.is_running() == k.sched.is_running(),
        k.grant_permits(i, n).0.sched.running == k.sched.running,
    decreases n,
{
    let q = k.semaphores[i as int].queue;
    if n > 0 && q.waits.len() > 0 {
        let t = q.waits[0];
        assert(q.wf(k.sched.tasks));
        assert(k.sched.tasks[t as int].st == TaskSt::Waiting <==> k.sched.tasks[t as int].wait is Some);
        lemma_end_wait_wf(k, t, Ok(WaitPayload::SemaphorePermit));
        let k1 = k.end_wait(t, Ok(WaitPayload::SemaphorePermit));
        lemma_grant_permits_keeps_running(k1, i, (n - 1) as nat);
    }
}

/// Where a task signals `n` permits and succeeds, and then calls `wait_one`
/// `n` times, with nothing else happening, the semaphore's value is what it
/// was before.
pub proof fn lemma_signal_then_wait_restores_value(k: KernelView, id: Id, n: usize)
    requires
        k.wf(),
        k.is_waitable(),
        k.signal_semaphore(id, n).1 is Ok,
    ensures
        k.signal_semaphore(id, n).0.wait_semaphore_times(id, n as nat).semaphores[id - 1].value
            == k.semaphores[id - 1].value,
{
    lemma_signal_semaphore(k, id, n);
    lemma_wait_semaphore_times(k.signal_semaphore(id, n).0, id, n as nat);
    assert(k.semaphores[id - 1].wf());
}

/// `drain` is idempotent: a second call changes nothing and returns what
/// the first returned.
pub proof fn lemma_drain_is_idempotent(k: KernelView, id: Id)
    ensures
        k.drain_semaphore(id).0.drain_semaphore(id) == k.drain_semaphore(id),
{
    let k1 = k.drain_semaphore(id).0;
    if !k.cpu_lock && spec_index_of_id(id, k.semaphores.len()) is Some {
        let i = (id - 1) as usize;
        assert(k1.semaphores.len() == k.semaphores.len());
        assert(k1.with_semaphore_value(i, 0).semaphores =~= k1.semaphores);
    }
}

/// Stopping a timer and starting it again, with no change of its delay in
/// between, leaves the timer's delay as it was, however far the tick count
/// has moved on while the timer was stopped.
pub proof fn lemma_stop_then_start_keeps_delay(k: KernelView, i: usize, tick_count: Time32)
    requires
        k.wf(),
        i < k.timers.len(),
    ensures
        k.stop_timer(i).timer_tick(tick_count).start_timer(i).timer_delay(i) == k.timer_delay(i),
{
    let d = k.timer_delay(i);
    let cb = k.timers[i as int];
    assert(cb.wf());
    lemma_position(k.sched.timeouts, TimeoutOwner::Timer(i));
    let stopped = k.stop_timer(i);
    let stopped_cb = TimerCb { active: false, delay: d, ..cb };
    lemma_timer_unlink_wf(k, i, stopped_cb);
    if !k.timer_linked(i) {
        assert(d == cb.delay);
    }
    let ticked = stopped.timer_tick(tick_count);
    assert(ticked.timers == stopped.timers);
    assert(ticked.sched.timeouts == stopped.sched.timeouts);
    assert(!ticked.timer_linked(i));
    if d != BAD_DURATION32 {
        let at = tick_after(tick_count, d);
        lemma_linked(ticked.sched.timeouts, Timeout { at, owner: TimeoutOwner::Timer(i) });
        lemma_fires_exactly_when_reached(tick_count, d, 0);
    }
}

/// Setting the system time leaves every timeout where it was: what has
/// fired stays fired, what was due stays due, and what was not stays not.
pub proof fn lemma_set_time_keeps_timeouts(k: KernelView, time: Time64)
    ensures
        k.set_time(time).0.sched.timeouts == k.sched.timeouts,
        k.set_time(time).0.sched.now == k.sched.now,
        next_due(k.set_time(time).0.sched.timeouts, k.set_time(time).0.sched.now) == next_due(
            k.sched.timeouts,
            k.sched.now,
        ),
        forall|j: int|
            0 <= j < k.sched.timeouts.len() ==> spec_is_due(
                (#[trigger] k.set_time(time).0.sched.timeouts[j]).at,
                k.set_time(time).0.sched.now,
            ) == spec_is_due(k.sched.timeouts[j].at, k.sched.now),
        k.set_time(time).0.timers == k.timers,
        k.set_time(time).0.sched.tasks == k.sched.tasks,
{
}

/// Where blocking is allowed, `wait_one_timeout` with a timeout of zero is
/// a poll: it leaves the state that `poll_one` leaves, and it succeeds,
/// fails with `Timeout` or fails with `BadId` exactly where `poll_one`
/// does.
pub proof fn lemma_zero_timeout_is_poll(k: KernelView, id: Id)
    requires
        k.is_waitable(),
    ensures
        k.wait_semaphore_timeout(id, Duration { micros: 0 }).0 == k.poll_semaphore(id).0,
        match k.poll_semaphore(id).1 {
            Ok(()) => k.wait_semaphore_timeout(id, Duration { micros: 0 }).1 == Ok::<
                _,
                WaitSemaphoreTimeoutError,
            >(Blocking::Done(())),
            Err(PollSemaphoreError::Timeout) => k.wait_semaphore_timeout(
                id,
                Duration { micros: 0 },
            ).1 == Err::<Blocking<()>, _>(WaitSemaphoreTimeoutError::Timeout),
            Err(PollSemaphoreError::BadId) => k.wait_semaphore_timeout(
                id,
                Duration { micros: 0 },
            ).1 == Err::<Blocking<()>, _>(WaitSemaphoreTimeoutError::BadId),
            Err(PollSemaphoreError::BadContext) => false,
        },
{
}

/// The same holds of an event group: with a timeout of zero,
/// `wait_timeout` leaves the state that `poll` leaves.
pub proof fn lemma_zero_timeout_is_poll_event_group(
    k: KernelView,
    id: Id,
    mask: EventGroupBits,
    flags: EventGroupWaitFlags,
)
    requires
        k.is_waitable(),
    ensures
        k.wait_event_group_timeout(id, mask, flags, Duration { micros: 0 }).0
            == k.poll_event_group(id, mask, flags).0,
        k.poll_event_group(id, mask, flags).1 is Ok <==> k.wait_event_group_timeout(
            id,
            mask,
            flags,
            Duration { micros: 0 },
        ).1 is Ok,
{
}

/// A semaphore that holds as many permits as it can takes no more: with
/// nobody waiting for it, `signal` of one permit fails with
/// `QueueOverflow`.
pub proof fn lemma_signal_at_maximum_overflows(k: KernelView, id: Id)
    requires
        k.wf(),
        !k.cpu_lock,
        spec_index_of_id(id, k.semaphores.len()) is Some,
        k.semaphores[id - 1].value == k.semaphores[id - 1].max_value,
        k.semaphores[id - 1].queue.waits.len() == 0,
    ensures
        k.signal_semaphore(id, 1).1 == Err::<(), _>(SignalSemaphoreError::QueueOverflow),
        k.signal_semaphore(id, 1).0.semaphores[id - 1].value == k.semaphores[id - 1].max_value,
{
    let i = (id - 1) as usize;
    assert(k.grant_permits(i, 1) == (k, 1nat));
}

/// A semaphore that holds no permit makes the caller of `wait_one` wait:
/// the caller is Waiting and stands in the semaphore's queue.
pub proof fn lemma_wait_at_zero_blocks(k: KernelView, id: Id)
    requires
        k.wf(),
        k.is_waitable(),
        spec_index_of_id(id, k.semaphores.len()) is Some,
        k.semaphores[id - 1].value == 0,
    ensures
        k.wait_semaphore(id).1 == Ok::<Blocking<()>, WaitSemaphoreError>(Blocking::Blocked),
        k.wait_semaphore(id).0.sched.tasks[k.sched.running->Some_0 as int].st == TaskSt::Waiting,
        k.wait_semaphore(id).0.queued(
            WaitQueueId::Semaphore((id - 1) as usize),
            k.sched.running->Some_0,
        ),
        k.wait_semaphore(id).0.semaphores[id - 1].value == 0,
{
    let i = (id - 1) as usize;
    let r = k.sched.running->Some_0;
    lemma_block_wf(k, Some(WaitQueueId::Semaphore(i)), WaitPayload::SemaphorePermit, None);
    let b = k.block(Some(WaitQueueId::Semaphore(i)), WaitPayload::SemaphorePermit, None);
    lemma_check_preemption(b);
    assert(b.sched.tasks[r as int].wait is Some);
    assert(b.queued(b.sched.tasks[r as int].wait->Some_0.queue->Some_0, r));
}


/// In a wait queue that serves by task priority, no waiter stands behind
/// one that is less urgent: the more urgent waiter is served first.
pub proof fn lemma_priority_queue_serves_most_urgent_first(
    k: KernelView,
    id: WaitQueueId,
    a: int,
    b: int,
)
    requires
        k.wf(),
        k.valid_queue(id),
        k.queue(id).order == QueueOrder::TaskPriority,
        0 <= a < b < k.queue(id).waits.len(),
    ensures
        k.sched.tasks[k.queue(id).waits[a] as int].priority
            <= k.sched.tasks[k.queue(id).waits[b] as int].priority,
{
    match id {
        WaitQueueId::Semaphore(i) => {
            assert(k.semaphores[i as int].queue.wf(k.sched.tasks));
        },
        WaitQueueId::EventGroup(i) => {
            assert(k.event_groups[i as int].queue.wf(k.sched.tasks));
        },
    }
    let q = k.queue(id);
    assert(q.sorted(k.sched.tasks));
    assert(k.sched.tasks[q.waits[a] as int].priority <= k.sched.tasks[q.waits[b] as int].priority);
}

/// With the CPU Lock held, the operations on tasks are refused: `activate`,
/// `interrupt` and `unpark`, for any handle, and `park`, `sleep` and
/// `exit_task` each return `BadContext`, and the kernel stays as it is.
pub proof fn lemma_held_lock_refuses(k: KernelView, id: Id, duration: Duration)
    requires
        k.cpu_lock,
        duration.micros >= 0,
    ensures
        k.activate_task(id) == (k, Err::<(), _>(ActivateTaskError::BadContext)),
        k.interrupt_task(id) == (k, Err::<(), _>(InterruptTaskError::BadContext)),
        k.unpark_task(id) == (k, Err::<(), _>(UnparkError::BadContext)),
        k.park() == (k, Err::<Blocking<()>, _>(ParkError::BadContext)),
        k.sleep(duration) == (k, Err::<Blocking<()>, _>(SleepError::BadContext)),
        k.exit_task() == (k, Err::<(), _>(ExitTaskError::BadContext)),
        k.acquire_cpu_lock() == (k, Err::<(), _>(CpuLockError::BadContext)),
{
}

/// Once the CPU Lock has been given up, a task may block again: where a
/// task runs and the lock is held, `release_cpu_lock` succeeds, and `park`
/// is not refused after it.
pub proof fn lemma_released_lock_allows(k: KernelView)
    requires
        k.wf(),
        k.cpu_lock,
        k.is_task_context(),
        k.sched.is_running(),
    ensures
        k.release_cpu_lock().1 == Ok::<(), CpuLockError>(()),
        k.release_cpu_lock().0.is_waitable(),
        k.release_cpu_lock().0.park().1 is Ok,
{
    lemma_check_preemption(KernelView { cpu_lock: false, ..k });
}

/// While a task waits, its wait record is linked: after the running task
/// has been put to wait, it is Waiting, it has the wait record, and it
/// stands in the queue that the record names and in no other; a record that
/// names no queue is linked in none.
pub proof fn lemma_block_links_wait(
    k: KernelView,
    queue: Option<WaitQueueId>,
    payload: WaitPayload,
    at: Option<Time32>,
    other: WaitQueueId,
)
    requires
        k.wf(),
        k.sched.is_running(),
        queue is Some ==> k.valid_queue(queue->Some_0),
        queue matches Some(WaitQueueId::Semaphore(i)) ==> k.semaphores[i as int].value == 0,
    ensures
        k.block(queue, payload, at).wf(),
        k.block(queue, payload, at).sched.tasks[k.sched.running->Some_0 as int].st
            == TaskSt::Waiting,
        k.block(queue, payload, at).sched.tasks[k.sched.running->Some_0 as int].wait == Some(
            Wait { queue, payload },
        ),
        k.block(queue, payload, at).queued(other, k.sched.running->Some_0) <==> queue == Some(
            other,
        ),
        at is Some <==> is_linked(
            k.block(queue, payload, at).sched.timeouts,
            TimeoutOwner::Task(k.sched.running->Some_0),
        ),
{
    let r = k.sched.running->Some_0;
    let f = k.block(queue, payload, at);
    lemma_block_wf(k, queue, payload, at);
    lemma_waiting_iff_linked(f, r, other);
    if is_linked(k.sched.timeouts, TimeoutOwner::Task(r)) {
        lemma_linked_timeout_is_expected(k, TimeoutOwner::Task(r));
    }
    match at {
        Some(at) => {
            lemma_linked(k.sched.timeouts, Timeout { at, owner: TimeoutOwner::Task(r) });
        },
        None => {},
    }
}

/// When a wait has ended, its record is linked nowhere: the task is not
/// Waiting, it has no wait record, it stands in no wait queue, and it has
/// no timeout linked.
pub proof fn lemma_end_wait_unlinks(
    k: KernelView,
    t: usize,
    outcome: WaitOutcome,
    other: WaitQueueId,
)
    requires
        k.wf(),
        t < k.sched.tasks.len(),
        k.sched.tasks[t as int].st == TaskSt::Waiting,
    ensures
        k.end_wait(t, outcome).wf(),
        k.end_wait(t, outcome).sched.tasks[t as int].st == TaskSt::Ready,
        k.end_wait(t, outcome).sched.tasks[t as int].wait is None,
        k.end_wait(t, outcome).sched.tasks[t as int].wait_result == Some(outcome),
        !k.end_wait(t, outcome).queued(other, t),
        !is_linked(k.end_wait(t, outcome).sched.timeouts, TimeoutOwner::Task(t)),
{
    let f = k.end_wait(t, outcome);
    lemma_end_wait_wf(k, t, outcome);
    lemma_waiting_iff_linked(f, t, other);
    if is_linked(f.sched.timeouts, TimeoutOwner::Task(t)) {
        lemma_linked_timeout_is_expected(f, TimeoutOwner::Task(t));
    }
}

/// Setting the system time moves the moment at which each pending timeout
/// fires, as the system time tells it, by as much as it moves the system
/// time, and so keeps the order of these moments and the times between
/// them. A timeout that has `left` ticks to run when the time is set to
/// `time` is not due before the tick count has moved on by `left`; when it
/// has, the timeout is due, and the system time is `time` and `left`
/// ticks.
pub proof fn lemma_set_time_then_wait(k: KernelView, time: Time64, left: Time32, passed: Time32)
    requires
        k.set_time(time).1 is Ok,
        left <= TIME_USER_HEADROOM,
        passed <= left,
    ensures
        k.set_time(time).0.timer_tick(tick_after(k.sched.now, passed)).sys_time == (time
            + passed) % 0x1_0000_0000_0000_0000,
        k.set_time(time).0.timer_tick(tick_after(k.sched.now, passed)).sched.timeouts
            == k.sched.timeouts,
        spec_is_due(
            tick_after(k.sched.now, left),
            k.set_time(time).0.timer_tick(tick_after(k.sched.now, passed)).sched.now,
        ) <==> passed == left,
{
    lemma_fires_exactly_when_reached(k.sched.now, left, passed);
}

} // verus!

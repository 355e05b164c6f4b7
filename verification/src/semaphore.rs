//! Semaphores.
use vstd::prelude::*;
use crate::cfg::{CfgBuilder, CfgView, SemaphoreDescriptor};
use crate::error::{
    DrainSemaphoreError, GetSemaphoreError, PollSemaphoreError, SignalSemaphoreError,
    WaitSemaphoreError, WaitSemaphoreTimeoutError, WaitTimeoutError,
};
use crate::kernel::{lemma_end_wait_wf, Kernel, KernelView};
use crate::task::{index_of_id, spec_index_of_id, Id, TaskSt, WaitOutcome};
use crate::time::{
    expiration_after, spec_time32_from_duration, tick_after, time32_from_duration, Duration,
};
use crate::wait::{
    lemma_without, Blocking, QueueOrder, WaitPayload, WaitQueue, WaitQueueId, WaitQueueView,
};

verus! {

/// The number of permits that a semaphore holds.
pub type SemaphoreValue = usize;

/// The state of a semaphore as plain data.
pub struct SemaphoreView {
    pub value: SemaphoreValue,
    pub max_value: SemaphoreValue,
    pub queue: WaitQueueView,
}

impl SemaphoreView {
    /// The value is within the maximum, and tasks wait only while there is
    /// no permit.
    pub open spec fn wf(self) -> bool {
        &&& self.value <= self.max_value
        &&& self.value > 0 ==> self.queue.waits.len() == 0
    }
}

/// The state of a semaphore.
pub struct SemaphoreCb {
    pub value: SemaphoreValue,
    pub max_value: SemaphoreValue,
    pub wait_queue: WaitQueue,
}

impl View for SemaphoreCb {
    type V = SemaphoreView;

    open spec fn view(&self) -> SemaphoreView {
        SemaphoreView { value: self.value, max_value: self.max_value, queue: self.wait_queue@ }
    }
}

impl SemaphoreCb {
    /// The semaphore with index `index`, holding `initial` permits of at
    /// most `maximum`, with nobody waiting.
    pub fn new(index: usize, initial: SemaphoreValue, maximum: SemaphoreValue, order: QueueOrder) -> (r:
        SemaphoreCb)
        ensures
            r@ == (SemaphoreView {
                value: initial,
                max_value: maximum,
                queue: WaitQueueView {
                    id: WaitQueueId::Semaphore(index),
                    waits: Seq::empty(),
                    order,
                },
            }),
    {
        SemaphoreCb {
            value: initial,
            max_value: maximum,
            wait_queue: WaitQueue::new(WaitQueueId::Semaphore(index), order),
        }
    }
}


/// A handle to a semaphore.
#[derive(Clone, Copy, PartialEq, Eq, Structural, Debug, Hash)]
pub struct Semaphore {
    pub id: Id,
}

impl KernelView {
    /// The state in which semaphore `i` holds `value` permits.
    pub open spec fn with_semaphore_value(self, i: usize, value: SemaphoreValue) -> KernelView {
        KernelView {
            semaphores: self.semaphores.update(
                i as int,
                SemaphoreView { value, ..self.semaphores[i as int] },
            ),
            ..self
        }
    }

    /// Up to `n` of the tasks that wait for semaphore `i` are given a permit
    /// each, from the head of the queue on. The result is the state after
    /// that and the number of permits that found no waiter.
    pub open spec fn grant_permits(self, i: usize, n: nat) -> (KernelView, nat)
        decreases n,
    {
        if n == 0 || self.semaphores[i as int].queue.waits.len() == 0 {
            (self, n)
        } else {
            self.end_wait(
                self.semaphores[i as int].queue.waits[0],
                Ok(WaitPayload::SemaphorePermit),
            ).grant_permits(i, (n - 1) as nat)
        }
    }

    /// What `Semaphore::signal` does. With the CPU Lock held it fails with
    /// `BadContext`, for a semaphore that does not exist with `BadId`. Else
    /// the permits go to the waiters first, one each from the head of the
    /// queue on. The permits left over are added to the value. Where that
    /// would exceed the maximum, the value stops at the maximum and the call
    /// fails with `QueueOverflow`. The preemption check runs in either case.
    pub open spec fn signal_semaphore(self, id: Id, count: SemaphoreValue) -> (
        KernelView,
        Result<(), SignalSemaphoreError>,
    ) {
        if self.cpu_lock {
            (self, Err(SignalSemaphoreError::BadContext))
        } else {
            match spec_index_of_id(id, self.semaphores.len()) {
                None => (self, Err(SignalSemaphoreError::BadId)),
                Some(i) => {
                    let (woken, rest) = self.grant_permits(i, count as nat);
                    let sem = woken.semaphores[i as int];
                    if sem.value + rest > sem.max_value {
                        (
                            woken.with_semaphore_value(i, sem.max_value).check_preemption(),
                            Err(SignalSemaphoreError::QueueOverflow),
                        )
                    } else {
                        (
                            woken.with_semaphore_value(
                                i,
                                (sem.value + rest) as usize,
                            ).check_preemption(),
                            Ok(()),
                        )
                    }
                },
            }
        }
    }

    /// What the polling of semaphore `i` does: where it holds a permit, one
    /// is taken.
    pub open spec fn take_permit(self, i: usize) -> (KernelView, bool) {
        let sem = self.semaphores[i as int];
        if sem.value >= 1 {
            (self.with_semaphore_value(i, (sem.value - 1) as usize), true)
        } else {
            (self, false)
        }
    }

    /// What `Semaphore::poll_one` does. With the CPU Lock held it fails with
    /// `BadContext`, for a semaphore that does not exist with `BadId`,
    /// where the semaphore holds no permit with `Timeout`. Else one permit
    /// is taken.
    pub open spec fn poll_semaphore(self, id: Id) -> (KernelView, Result<(), PollSemaphoreError>) {
        if self.cpu_lock {
            (self, Err(PollSemaphoreError::BadContext))
        } else {
            match spec_index_of_id(id, self.semaphores.len()) {
                None => (self, Err(PollSemaphoreError::BadId)),
                Some(i) => {
                    let (taken, ok) = self.take_permit(i);
                    if ok {
                        (taken, Ok(()))
                    } else {
                        (self, Err(PollSemaphoreError::Timeout))
                    }
                },
            }
        }
    }

    /// What `Semaphore::wait_one` does. Where blocking is not allowed it
    /// fails with `BadContext`, for a semaphore that does not exist with
    /// `BadId`. Else, where the semaphore holds a permit, one is taken and
    /// the call is done; where it holds none, the running task joins the
    /// semaphore's queue and waits, and the preemption check runs.
    pub open spec fn wait_semaphore(self, id: Id) -> (
        KernelView,
        Result<Blocking<()>, WaitSemaphoreError>,
    ) {
        if !self.is_waitable() {
            (self, Err(WaitSemaphoreError::BadContext))
        } else {
            match spec_index_of_id(id, self.semaphores.len()) {
                None => (self, Err(WaitSemaphoreError::BadId)),
                Some(i) => {
                    let (taken, ok) = self.take_permit(i);
                    if ok {
                        (taken, Ok(Blocking::Done(())))
                    } else {
                        (
                            self.block(
                                Some(WaitQueueId::Semaphore(i)),
                                WaitPayload::SemaphorePermit,
                                None,
                            ).check_preemption(),
                            Ok(Blocking::Blocked),
                        )
                    }
                },
            }
        }
    }

    /// What `Semaphore::wait_one_timeout` does. For a negative timeout it
    /// fails with `BadParam`, where blocking is not allowed with
    /// `BadContext`, for a semaphore that does not exist with `BadId`.
    /// Else, where the semaphore holds a permit, one is taken and the call
    /// is done. Where it holds none, a timeout of zero fails with `Timeout`
    /// at once; with any other, the running task joins the semaphore's
    /// queue and waits, its timeout expiring `timeout` from now, and the
    /// preemption check runs.
    pub open spec fn wait_semaphore_timeout(self, id: Id, timeout: Duration) -> (
        KernelView,
        Result<Blocking<()>, WaitSemaphoreTimeoutError>,
    ) {
        match spec_time32_from_duration(timeout) {
            Err(_) => (self, Err(WaitSemaphoreTimeoutError::BadParam)),
            Ok(d) => if !self.is_waitable() {
                (self, Err(WaitSemaphoreTimeoutError::BadContext))
            } else {
                match spec_index_of_id(id, self.semaphores.len()) {
                    None => (self, Err(WaitSemaphoreTimeoutError::BadId)),
                    Some(i) => {
                        let (taken, ok) = self.take_permit(i);
                        if ok {
                            (taken, Ok(Blocking::Done(())))
                        } else if d == 0 {
                            (self, Err(WaitSemaphoreTimeoutError::Timeout))
                        } else {
                            (
                                self.block(
                                    Some(WaitQueueId::Semaphore(i)),
                                    WaitPayload::SemaphorePermit,
                                    Some(tick_after(self.sched.now, d)),
                                ).check_preemption(),
                                Ok(Blocking::Blocked),
                            )
                        }
                    },
                }
            },
        }
    }

    /// What `Semaphore::drain` does. With the CPU Lock held it fails with
    /// `BadContext`, for a semaphore that does not exist with `BadId`. Else
    /// the semaphore holds no permit, and nothing else has changed.
    pub open spec fn drain_semaphore(self, id: Id) -> (KernelView, Result<(), DrainSemaphoreError>) {
        if self.cpu_lock {
            (self, Err(DrainSemaphoreError::BadContext))
        } else {
            match spec_index_of_id(id, self.semaphores.len()) {
                None => (self, Err(DrainSemaphoreError::BadId)),
                Some(i) => (self.with_semaphore_value(i, 0), Ok(())),
            }
        }
    }

    /// What `Semaphore::get` returns: the value, or `BadContext` with the
    /// CPU Lock held, or `BadId` for a semaphore that does not exist.
    pub open spec fn get_semaphore(self, id: Id) -> Result<SemaphoreValue, GetSemaphoreError> {
        if self.cpu_lock {
            Err(GetSemaphoreError::BadContext)
        } else {
            match spec_index_of_id(id, self.semaphores.len()) {
                None => Err(GetSemaphoreError::BadId),
                Some(i) => Ok(self.semaphores[i as int].value),
            }
        }
    }
}

/// A new value of a semaphore keeps the kernel's invariant where it is
/// within the maximum and, if it is not zero, nobody waits.
pub proof fn lemma_semaphore_value_wf(k: KernelView, i: usize, value: SemaphoreValue)
    requires
        k.wf(),
        i < k.semaphores.len(),
        value <= k.semaphores[i as int].max_value,
        value > 0 ==> k.semaphores[i as int].queue.waits.len() == 0,
    ensures
        k.with_semaphore_value(i, value).wf(),
{
    let f = k.with_semaphore_value(i, value);
    assert forall|j: int| 0 <= j < f.semaphores.len() implies (#[trigger] f.semaphores[j]).wf()
        && f.semaphores[j].queue.id == WaitQueueId::Semaphore(j as usize)
        && f.semaphores[j].queue.wf(f.sched.tasks) by {
        assert(k.semaphores[j].wf());
        assert(k.semaphores[j].queue.wf(k.sched.tasks));
    }
    assert forall|u: int|
        0 <= u < f.sched.tasks.len() && (#[trigger] f.sched.tasks[u]).wait is Some
            && f.sched.tasks[u].wait->Some_0.queue is Some implies f.queued(
        f.sched.tasks[u].wait->Some_0.queue->Some_0,
        u as usize,
    ) by {
        assert(k.queued(k.sched.tasks[u].wait->Some_0.queue->Some_0, u as usize));
    }
}

/// Granting permits keeps the kernel's invariant. It serves as many waiters
/// as there are permits or waiters, whichever is less; it leaves the value
/// and the maximum as they are; and a permit is left over only where nobody
/// waits any more.
pub proof fn lemma_grant_permits(k: KernelView, i: usize, n: nat)
    requires
        k.wf(),
        i < k.semaphores.len(),
    ensures
        k.grant_permits(i, n).0.wf(),
        k.grant_permits(i, n).0.semaphores.len() == k.semaphores.len(),
        k.grant_permits(i, n).0.semaphores[i as int].value == k.semaphores[i as int].value,
        k.grant_permits(i, n).0.semaphores[i as int].max_value == k.semaphores[i as int].max_value,
        k.grant_permits(i, n).1 == if n <= k.semaphores[i as int].queue.waits.len() {
            0
        } else {
            n - k.semaphores[i as int].queue.waits.len()
        },
        k.grant_permits(i, n).0.semaphores[i as int].queue.waits.len() == if n
            <= k.semaphores[i as int].queue.waits.len() {
            k.semaphores[i as int].queue.waits.len() - n
        } else {
            0
        },
        k.grant_permits(i, n).0.cpu_lock == k.cpu_lock,
        k.grant_permits(i, n).0.booted == k.booted,
        k.grant_permits(i, n).0.interrupts == k.interrupts,
        k.grant_permits(i, n).0.dispatch_line == k.dispatch_line,
    decreases n,
{
    let q = k.semaphores[i as int].queue;
    if n > 0 && q.waits.len() > 0 {
        let t = q.waits[0];
        assert(q.wf(k.sched.tasks));
        assert(k.sched.tasks[t as int].st == TaskSt::Waiting <==> k.sched.tasks[t as int].wait is Some);
        lemma_end_wait_wf(k, t, Ok(WaitPayload::SemaphorePermit));
        lemma_without(q.waits, t);
        let k1 = k.end_wait(t, Ok(WaitPayload::SemaphorePermit));
        assert(k1.semaphores[i as int].queue.waits == q.waits.drop_first());
        lemma_grant_permits(k1, i, (n - 1) as nat);
    }
}

impl Semaphore {
    pub fn from_id(id: Id) -> (r: Semaphore)
        ensures
            r.id == id,
    {
        Semaphore { id }
    }

    pub fn id(self) -> (r: Id)
        ensures
            r == self.id,
    {
        self.id
    }

    /// Removes all permits held by the semaphore.
    pub fn drain(self, k: &mut Kernel) -> (r: Result<(), DrainSemaphoreError>)
        requires
            old(k)@.wf(),
        ensures
            (final(k)@, r) == old(k)@.drain_semaphore(self.id),
            final(k)@.wf(),
    {
        if k.cpu_lock {
            return Err(DrainSemaphoreError::BadContext);
        }
        let i = match index_of_id(self.id, k.semaphores.len()) {
            Some(i) => i,
            None => {
                return Err(DrainSemaphoreError::BadId);
            },
        };
        proof {
            lemma_semaphore_value_wf(k@, i, 0);
        }
        k.semaphores[i].value = 0;
        proof {
            assert(k@.semaphores =~= old(k)@.with_semaphore_value(i, 0).semaphores);
            assert(k@.event_groups =~= old(k)@.event_groups);
        }
        Ok(())
    }

    /// The number of permits that the semaphore holds.
    pub fn get(self, k: &Kernel) -> (r: Result<SemaphoreValue, GetSemaphoreError>)
        ensures
            r == k@.get_semaphore(self.id),
    {
        if k.cpu_lock {
            return Err(GetSemaphoreError::BadContext);
        }
        match index_of_id(self.id, k.semaphores.len()) {
            Some(i) => Ok(k.semaphores[i].value),
            None => Err(GetSemaphoreError::BadId),
        }
    }

    /// Releases `count` permits: to the waiters first, then to the
    /// semaphore.
    pub fn signal(self, k: &mut Kernel, count: SemaphoreValue) -> (r: Result<
        (),
        SignalSemaphoreError,
    >)
        requires
            old(k)@.wf(),
        ensures
            (final(k)@, r) == old(k)@.signal_semaphore(self.id, count),
            final(k)@.wf(),
    {
        if k.cpu_lock {
            return Err(SignalSemaphoreError::BadContext);
        }
        let i = match index_of_id(self.id, k.semaphores.len()) {
            Some(i) => i,
            None => {
                return Err(SignalSemaphoreError::BadId);
            },
        };
        let mut n: usize = count;
        while n > 0 && !k.semaphores[i].wait_queue.is_empty()
            invariant
                k@.wf(),
                i < k@.semaphores.len(),
                k@.grant_permits(i, n as nat) == old(k)@.grant_permits(i, count as nat),
            decreases n,
        {
            let t = k.semaphores[i].wait_queue.waits[0];
            proof {
                let q = k@.semaphores[i as int].queue;
                assert(q.wf(k@.sched.tasks));
                assert(q.waits[0] == t);
                assert(k@.sched.tasks[t as int].st == TaskSt::Waiting
                    <==> k@.sched.tasks[t as int].wait is Some);
            }
            k.end_wait(t, Ok(WaitPayload::SemaphorePermit));
            n -= 1;
        }
        proof {
            lemma_grant_permits(old(k)@, i, count as nat);
            assert(k@.grant_permits(i, n as nat) == (k@, n as nat));
        }
        let ghost woken = k@;
        let value = k.semaphores[i].value;
        let max_value = k.semaphores[i].max_value;
        proof {
            assert(k@.semaphores[i as int].wf());
        }
        let r = if n > max_value - value {
            proof {
                lemma_semaphore_value_wf(k@, i, max_value);
            }
            k.semaphores[i].value = max_value;
            Err(SignalSemaphoreError::QueueOverflow)
        } else {
            proof {
                lemma_semaphore_value_wf(k@, i, (value + n) as usize);
            }
            k.semaphores[i].value = value + n;
            Ok(())
        };
        proof {
            assert(k@.semaphores =~= woken.with_semaphore_value(
                i,
                k@.semaphores[i as int].value,
            ).semaphores);
            assert(k@.event_groups =~= woken.event_groups);
        }
        k.unlock_cpu_and_check_preemption();
        r
    }

    /// Releases one permit.
    pub fn signal_one(self, k: &mut Kernel) -> (r: Result<(), SignalSemaphoreError>)
        requires
            old(k)@.wf(),
        ensures
            (final(k)@, r) == old(k)@.signal_semaphore(self.id, 1),
            final(k)@.wf(),
    {
        self.signal(k, 1)
    }

    /// Takes a permit, or makes the running task wait for one.
    pub fn wait_one(self, k: &mut Kernel) -> (r: Result<Blocking<()>, WaitSemaphoreError>)
        requires
            old(k)@.wf(),
        ensures
            (final(k)@, r) == old(k)@.wait_semaphore(self.id),
            final(k)@.wf(),
    {
        if !k.is_waitable() {
            return Err(WaitSemaphoreError::BadContext);
        }
        let i = match index_of_id(self.id, k.semaphores.len()) {
            Some(i) => i,
            None => {
                return Err(WaitSemaphoreError::BadId);
            },
        };
        if take_permit(k, i) {
            return Ok(Blocking::Done(()));
        }
        k.block(Some(WaitQueueId::Semaphore(i)), WaitPayload::SemaphorePermit, None);
        k.unlock_cpu_and_check_preemption();
        Ok(Blocking::Blocked)
    }

    /// Takes a permit, or makes the running task wait for one for at most
    /// `timeout`.
    pub fn wait_one_timeout(self, k: &mut Kernel, timeout: Duration) -> (r: Result<
        Blocking<()>,
        WaitSemaphoreTimeoutError,
    >)
        requires
            old(k)@.wf(),
        ensures
            (final(k)@, r) == old(k)@.wait_semaphore_timeout(self.id, timeout),
            final(k)@.wf(),
    {
        let d = match time32_from_duration(timeout) {
            Ok(d) => d,
            Err(_) => {
                return Err(WaitSemaphoreTimeoutError::BadParam);
            },
        };
        if !k.is_waitable() {
            return Err(WaitSemaphoreTimeoutError::BadContext);
        }
        let i = match index_of_id(self.id, k.semaphores.len()) {
            Some(i) => i,
            None => {
                return Err(WaitSemaphoreTimeoutError::BadId);
            },
        };
        if take_permit(k, i) {
            return Ok(Blocking::Done(()));
        }
        if d == 0 {
            return Err(WaitSemaphoreTimeoutError::Timeout);
        }
        let at = expiration_after(k.sched.now, d);
        k.block(Some(WaitQueueId::Semaphore(i)), WaitPayload::SemaphorePermit, Some(at));
        k.unlock_cpu_and_check_preemption();
        Ok(Blocking::Blocked)
    }

    /// Takes a permit if the semaphore holds one; never waits.
    pub fn poll_one(self, k: &mut Kernel) -> (r: Result<(), PollSemaphoreError>)
        requires
            old(k)@.wf(),
        ensures
            (final(k)@, r) == old(k)@.poll_semaphore(self.id),
            final(k)@.wf(),
    {
        if k.cpu_lock {
            return Err(PollSemaphoreError::BadContext);
        }
        let i = match index_of_id(self.id, k.semaphores.len()) {
            Some(i) => i,
            None => {
                return Err(PollSemaphoreError::BadId);
            },
        };
        if take_permit(k, i) {
            Ok(())
        } else {
            Err(PollSemaphoreError::Timeout)
        }
    }

    /// What a task that waited for a permit is told when it runs again.
    pub fn wait_one_result(outcome: WaitOutcome) -> (r: Result<(), WaitSemaphoreTimeoutError>)
        ensures
            r == match outcome {
                Ok(_) => Ok::<(), WaitSemaphoreTimeoutError>(()),
                Err(WaitTimeoutError::Interrupted) => Err(WaitSemaphoreTimeoutError::Interrupted),
                Err(WaitTimeoutError::Timeout) => Err(WaitSemaphoreTimeoutError::Timeout),
            },
    {
        match outcome {
            Ok(_) => Ok(()),
            Err(WaitTimeoutError::Interrupted) => Err(WaitSemaphoreTimeoutError::Interrupted),
            Err(WaitTimeoutError::Timeout) => Err(WaitSemaphoreTimeoutError::Timeout),
        }
    }
}

/// Takes a permit of semaphore `i` where it holds one, and tells whether
/// it did.
pub fn take_permit(k: &mut Kernel, i: usize) -> (r: bool)
    requires
        old(k)@.wf(),
        i < old(k)@.semaphores.len(),
    ensures
        (final(k)@, r) == old(k)@.take_permit(i),
        final(k)@.wf(),
{
    let value = k.semaphores[i].value;
    if value >= 1 {
        proof {
            assert(k@.semaphores[i as int].wf());
            lemma_semaphore_value_wf(k@, i, (value - 1) as usize);
        }
        k.semaphores[i].value = value - 1;
        proof {
            assert(k@.semaphores =~= old(k)@.with_semaphore_value(
                i,
                (value - 1) as usize,
            ).semaphores);
            assert(k@.event_groups =~= old(k)@.event_groups);
        }
        true
    } else {
        false
    }
}


/// Defines a semaphore, property by property.
#[derive(Clone, Copy, Debug)]
pub struct SemaphoreDefiner {
    pub initial_value: Option<SemaphoreValue>,
    pub maximum_value: Option<SemaphoreValue>,
    pub queue_order: QueueOrder,
}

impl Semaphore {
    /// Begins the definition of a semaphore.
    pub fn define() -> (r: SemaphoreDefiner)
        ensures
            r == (SemaphoreDefiner {
                initial_value: None,
                maximum_value: None,
                queue_order: QueueOrder::TaskPriority,
            }),
    {
        SemaphoreDefiner::new()
    }
}

impl SemaphoreDefiner {
    fn new() -> (r: SemaphoreDefiner)
        ensures
            r == (SemaphoreDefiner {
                initial_value: None,
                maximum_value: None,
                queue_order: QueueOrder::TaskPriority,
            }),
    {
        SemaphoreDefiner {
            initial_value: None,
            maximum_value: None,
            queue_order: QueueOrder::TaskPriority,
        }
    }

    /// Gives the initial value. Required, and given once. It is not to be
    /// above the maximum.
    pub fn initial(self, initial: SemaphoreValue) -> (r: SemaphoreDefiner)
        requires
            self.initial_value is None,
        ensures
            r == (SemaphoreDefiner { initial_value: Some(initial), ..self }),
    {
        SemaphoreDefiner { initial_value: Some(initial), ..self }
    }

    /// Gives the maximum value. Required, and given once.
    pub fn maximum(self, maximum: SemaphoreValue) -> (r: SemaphoreDefiner)
        requires
            self.maximum_value is None,
        ensures
            r == (SemaphoreDefiner { maximum_value: Some(maximum), ..self }),
    {
        SemaphoreDefiner { maximum_value: Some(maximum), ..self }
    }

    /// Says in which order the semaphore serves its waiters; by task
    /// priority where nothing is said.
    pub fn queue_order(self, queue_order: QueueOrder) -> (r: SemaphoreDefiner)
        ensures
            r == (SemaphoreDefiner { queue_order, ..self }),
    {
        SemaphoreDefiner { queue_order, ..self }
    }

    /// Adds the semaphore to the configuration and returns a handle to it.
    pub fn finish(self, c: &mut CfgBuilder) -> (r: Semaphore)
        requires
            self.initial_value is Some,
            self.maximum_value is Some,
            old(c)@.semaphores.len() < usize::MAX,
        ensures
            final(c)@ == (CfgView {
                semaphores: old(c)@.semaphores.push(
                    SemaphoreDescriptor {
                        initial: self.initial_value->Some_0,
                        maximum: self.maximum_value->Some_0,
                        queue_order: self.queue_order,
                    },
                ),
                ..old(c)@
            }),
            r.id == old(c)@.semaphores.len() + 1,
    {
        c.semaphores.push(
            SemaphoreDescriptor {
                initial: self.initial_value.unwrap(),
                maximum: self.maximum_value.unwrap(),
                queue_order: self.queue_order,
            },
        );
        Semaphore { id: c.semaphores.len() }
    }
}

} // verus!

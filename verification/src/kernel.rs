//! The kernel's state as one aggregate, its invariant, and the operations
//! that concern the kernel as a whole: the CPU Lock, the time, boot and
//! dispatch.
use vstd::prelude::*;
use crate::error::{CpuLockError, TimeError, WaitTimeoutError};
use crate::event_group::{EventGroupCb, EventGroupView};
use crate::interrupt::{
    InterruptController, InterruptControllerView, InterruptNum, IntLine, INTERRUPT_PRIORITY_DISPATCH,
};
use crate::sched::{
    lemma_begin_wait_wf, lemma_complete_wait_wf, lemma_launch_pending_wf,
    lemma_switch_keeps_others, lemma_switch_wf, SchedState, SchedView,
};
use crate::semaphore::{SemaphoreCb, SemaphoreView};
use crate::task::{TaskCb, TaskSt, WaitOutcome};
use crate::time::{
    is_due, spec_remaining, tick_distance, Time32, Time64, BAD_DURATION32, MAX_TIMEOUT,
};
use crate::timeout::{
    earliest, is_linked, lemma_linked, lemma_position, lemma_unlinked, next_due, position,
    Timeout, TimeoutOwner,
};
use crate::timer::{
    init_timer, lemma_timer_unlink_wf, start_timer, timer_timeout_handler, TimerCb,
};
use crate::wait::{
    lemma_enqueue_sorted, lemma_insert, lemma_sorted_frame, lemma_without, lemma_without_sorted,
    Wait, WaitPayload, WaitQueueId, WaitQueueView,
};

verus! {

/// The kernel's state as plain data.
pub struct KernelView {
    pub sched: SchedView,
    pub semaphores: Seq<SemaphoreView>,
    pub event_groups: Seq<EventGroupView>,
    pub timers: Seq<TimerCb>,
    pub interrupts: InterruptControllerView,
    pub dispatch_line: InterruptNum,
    pub cpu_lock: bool,
    pub booted: bool,
    pub sys_time: Time64,
}

impl KernelView {
    /// Every semaphore's value is within its maximum, tasks wait for a
    /// semaphore only while it holds no permit, and its queue is in order.
    pub open spec fn semaphores_wf(self) -> bool {
        &&& self.semaphores.len() <= usize::MAX
        &&& forall|i: int|
            0 <= i < self.semaphores.len() ==> (#[trigger] self.semaphores[i]).wf()
                && self.semaphores[i].queue.id == WaitQueueId::Semaphore(i as usize)
                && self.semaphores[i].queue.wf(self.sched.tasks)
    }

    /// Every event group's queue is in order.
    pub open spec fn event_groups_wf(self) -> bool {
        &&& self.event_groups.len() <= usize::MAX
        &&& forall|i: int|
            0 <= i < self.event_groups.len() ==> (#[trigger] self.event_groups[i]).queue.id
                == WaitQueueId::EventGroup(i as usize) && self.event_groups[i].queue.wf(
                self.sched.tasks,
            )
    }

    /// Task `t` stands in the wait queue of object `id`.
    pub open spec fn queued(self, id: WaitQueueId, t: usize) -> bool {
        match id {
            WaitQueueId::Semaphore(i) => i < self.semaphores.len()
                && self.semaphores[i as int].queue.waits.contains(t),
            WaitQueueId::EventGroup(i) => i < self.event_groups.len()
                && self.event_groups[i as int].queue.waits.contains(t),
        }
    }

    /// A task whose wait record names a queue stands in that queue.
    pub open spec fn waits_queued(self) -> bool {
        forall|t: int|
            0 <= t < self.sched.tasks.len() && (#[trigger] self.sched.tasks[t]).wait is Some
                && self.sched.tasks[t].wait->Some_0.queue is Some ==> self.queued(
                self.sched.tasks[t].wait->Some_0.queue->Some_0,
                t as usize,
            )
    }

    /// A timer whose timeout is linked is Active; an Active timer whose
    /// timeout is not linked has an infinite delay.
    pub open spec fn timers_wf(self) -> bool {
        &&& self.timers.len() <= usize::MAX
        &&& forall|k: int|
            0 <= k < self.sched.timeouts.len() ==> match (#[trigger] self.sched.timeouts[k]).owner {
                TimeoutOwner::Timer(i) => i < self.timers.len() && self.timers[i as int].active,
                TimeoutOwner::Task(_) => true,
            }
        &&& forall|i: int|
            0 <= i < self.timers.len() ==> (#[trigger] self.timers[i]).wf() && (self.timers[i].active
                && !is_linked(self.sched.timeouts, TimeoutOwner::Timer(i as usize))
                ==> self.timers[i].delay == BAD_DURATION32)
    }

    /// The kernel's invariant.
    pub open spec fn wf(self) -> bool {
        &&& self.sched.wf()
        &&& self.semaphores_wf()
        &&& self.event_groups_wf()
        &&& self.waits_queued()
        &&& self.timers_wf()
        &&& self.dispatch_line < self.interrupts.lines.len() <= usize::MAX
        &&& !self.booted ==> self.cpu_lock
    }

    /// An interrupt handler is running.
    pub open spec fn is_interrupt_context(self) -> bool {
        self.interrupts.active.len() > 0
    }

    /// The code that runs is a task's: the kernel has booted and no
    /// interrupt handler is running.
    pub open spec fn is_task_context(self) -> bool {
        self.booted && !self.is_interrupt_context()
    }

    /// A call that may block is allowed: a task runs, it is in the Running
    /// state, and the CPU Lock is not held.
    pub open spec fn is_waitable(self) -> bool {
        !self.cpu_lock && self.is_task_context() && self.sched.is_running()
    }

    /// The object `id` exists.
    pub open spec fn valid_queue(self, id: WaitQueueId) -> bool {
        match id {
            WaitQueueId::Semaphore(i) => i < self.semaphores.len(),
            WaitQueueId::EventGroup(i) => i < self.event_groups.len(),
        }
    }

    /// The wait queue of object `id`.
    pub open spec fn queue(self, id: WaitQueueId) -> WaitQueueView {
        match id {
            WaitQueueId::Semaphore(i) => self.semaphores[i as int].queue,
            WaitQueueId::EventGroup(i) => self.event_groups[i as int].queue,
        }
    }

    /// The state in which the wait queue of object `id` is `q`.
    pub open spec fn with_queue(self, id: WaitQueueId, q: WaitQueueView) -> KernelView {
        match id {
            WaitQueueId::Semaphore(i) => KernelView {
                semaphores: self.semaphores.update(
                    i as int,
                    SemaphoreView { queue: q, ..self.semaphores[i as int] },
                ),
                ..self
            },
            WaitQueueId::EventGroup(i) => KernelView {
                event_groups: self.event_groups.update(
                    i as int,
                    EventGroupView { queue: q, ..self.event_groups[i as int] },
                ),
                ..self
            },
        }
    }

    /// Task `t` leaves the wait queue that its wait record names, if it
    /// names one.
    pub open spec fn dequeue(self, t: usize) -> KernelView {
        match self.sched.tasks[t as int].wait {
            Some(w) => match w.queue {
                Some(id) => self.with_queue(id, self.queue(id).without(t)),
                None => self,
            },
            None => self,
        }
    }

    /// The wait of task `t` ends with `outcome`: the task leaves its wait
    /// queue, its timeout is unlinked, and it is Ready.
    pub open spec fn end_wait(self, t: usize, outcome: WaitOutcome) -> KernelView {
        let d = self.dequeue(t);
        KernelView { sched: d.sched.complete_wait(t, outcome), ..d }
    }

    /// The running task begins to wait for `payload`: in the wait queue of
    /// object `queue`, where one is given, and with a timeout that expires
    /// at `at`, where one is given.
    pub open spec fn block(
        self,
        queue: Option<WaitQueueId>,
        payload: WaitPayload,
        at: Option<Time32>,
    ) -> KernelView {
        let r = self.sched.running->Some_0;
        let e = match queue {
            Some(id) => self.with_queue(id, self.queue(id).enqueue(self.sched.tasks, r)),
            None => self,
        };
        KernelView { sched: self.sched.begin_wait(Wait { queue, payload }, at), ..e }
    }

    /// What `acquire_cpu_lock` does: it takes the CPU Lock, and fails with
    /// `BadContext` where the lock is held already.
    pub open spec fn acquire_cpu_lock(self) -> (KernelView, Result<(), CpuLockError>) {
        if self.cpu_lock {
            (self, Err(CpuLockError::BadContext))
        } else {
            (KernelView { cpu_lock: true, ..self }, Ok(()))
        }
    }

    /// What `release_cpu_lock` does: it gives the CPU Lock up and runs the
    /// preemption check. It fails with `BadContext` where the lock is not
    /// held, and during boot.
    pub open spec fn release_cpu_lock(self) -> (KernelView, Result<(), CpuLockError>) {
        if !self.cpu_lock || !self.booted {
            (self, Err(CpuLockError::BadContext))
        } else {
            ((KernelView { cpu_lock: false, ..self }).check_preemption(), Ok(()))
        }
    }

    /// What `timer_tick` does: the kernel's tick becomes `tick_count`, and
    /// the system time moves on by the ticks that have passed.
    pub open spec fn timer_tick(self, tick_count: Time32) -> KernelView {
        KernelView {
            sched: SchedView { now: tick_count, ..self.sched },
            sys_time: ((self.sys_time + tick_distance(self.sched.now, tick_count))
                % 0x1_0000_0000_0000_0000) as Time64,
            ..self
        }
    }

    /// What `set_time` does: the system time becomes `time` and nothing else
    /// changes. It fails with `BadContext` outside a task and with the CPU
    /// Lock held.
    pub open spec fn set_time(self, time: Time64) -> (KernelView, Result<(), TimeError>) {
        if self.cpu_lock || !self.is_task_context() {
            (self, Err(TimeError::BadContext))
        } else {
            (KernelView { sys_time: time, ..self }, Ok(()))
        }
    }

    /// How a wait for `payload` ends when its timeout expires: a sleep ends
    /// as it should, any other wait with `Timeout`.
    pub open spec fn timed_out(payload: WaitPayload) -> WaitOutcome {
        match payload {
            WaitPayload::Sleep => Ok(WaitPayload::Sleep),
            _ => Err(WaitTimeoutError::Timeout),
        }
    }

    /// What `expire_next` does. Where no timeout is due at the kernel's
    /// tick, nothing. Else the timeout that expires first is unlinked. If
    /// it is a task's, the task's wait ends, as `timed_out` says, and the
    /// preemption check runs. If it is a timer's, the timer schedules its
    /// next tick, and its callback is returned for the caller to call.
    pub open spec fn expire_next(self) -> (KernelView, Option<Expired>) {
        match next_due(self.sched.timeouts, self.sched.now) {
            None => (self, None),
            Some(e) => match e.owner {
                TimeoutOwner::Task(t) => (
                    self.end_wait(
                        t,
                        Self::timed_out(self.sched.tasks[t as int].wait->Some_0.payload),
                    ).check_preemption(),
                    Some(Expired::Wait { task: t }),
                ),
                TimeoutOwner::Timer(i) => (
                    self.with_timer(
                        i,
                        TimerCb { delay: BAD_DURATION32, ..self.timers[i as int] },
                        self.timer_unlinked(i),
                    ).timer_fired(i, e.at),
                    Some(
                        Expired::Timer {
                            timer: i,
                            entry_point: self.timers[i as int].attr.entry_point,
                            entry_param: self.timers[i as int].attr.entry_param,
                        },
                    ),
                ),
            },
        }
    }

    /// The state after each of the first `n` timers that is to be active
    /// from the start has been started.
    pub open spec fn init_timers(self, n: int) -> KernelView
        decreases n,
    {
        if n <= 0 {
            self
        } else {
            let k = self.init_timers(n - 1);
            if k.timers[n - 1].attr.init_active {
                k.start_timer((n - 1) as usize)
            } else {
                k
            }
        }
    }

    /// What `boot` does: it starts the timers that are to be active from
    /// the start.
    pub open spec fn boot(self) -> KernelView {
        self.init_timers(self.timers.len() as int)
    }

    /// What `dispatch_first_task` does: the boot phase is over, the CPU Lock
    /// is given up, and the dispatch line is set up and pended, so that the
    /// dispatcher is the first handler to be entered.
    pub open spec fn dispatch_first_task(self) -> KernelView {
        KernelView {
            booted: true,
            cpu_lock: false,
            interrupts: InterruptControllerView {
                lines: self.interrupts.lines.update(
                    self.dispatch_line as int,
                    IntLine {
                        priority: INTERRUPT_PRIORITY_DISPATCH,
                        enable: true,
                        pended: true,
                        ..self.interrupts.lines[self.dispatch_line as int]
                    },
                ),
                ..self.interrupts
            },
            ..self
        }
    }

    /// When the kernel is to be told the time next: at once where a timeout
    /// is due; else when the timeout that expires first expires; and after
    /// `MAX_TIMEOUT` where none is linked.
    pub open spec fn next_tick(self) -> TickRequest {
        match earliest(self.sched.timeouts, self.sched.now) {
            Some(i) => {
                let left = spec_remaining(self.sched.timeouts[i].at, self.sched.now);
                if left == 0 {
                    TickRequest::Now
                } else {
                    TickRequest::After(left)
                }
            },
            None => TickRequest::After(MAX_TIMEOUT),
        }
    }

    /// What `time` returns: the system time, or `BadContext` outside a task
    /// and with the CPU Lock held.
    pub open spec fn time(self) -> Result<Time64, TimeError> {
        if self.cpu_lock || !self.is_task_context() {
            Err(TimeError::BadContext)
        } else {
            Ok(self.sys_time)
        }
    }

    /// What the dispatcher does: the scheduler chooses the task to run.
    pub open spec fn choose_running_task(self) -> KernelView {
        KernelView { sched: self.sched.choose_running_task(), ..self }
    }

    /// The state after the preemption check at the end of an operation: the
    /// dispatch line is pended where the dispatcher has something to do.
    pub open spec fn check_preemption(self) -> KernelView {
        if self.sched.preemption_needed() {
            KernelView {
                interrupts: InterruptControllerView {
                    lines: self.interrupts.lines.update(
                        self.dispatch_line as int,
                        IntLine { pended: true, ..self.interrupts.lines[self.dispatch_line as int] },
                    ),
                    ..self.interrupts
                },
                ..self
            }
        } else {
            self
        }
    }
}

/// What the kernel asks of the tick source.
#[derive(Clone, Copy, PartialEq, Eq, Structural, Debug)]
pub enum TickRequest {
    /// Tick at once: a timeout is due.
    Now,
    /// Tick after this many ticks, or earlier.
    After(Time32),
}

/// What the dispatcher has done, for the caller to act on.
pub struct Chosen {
    /// The tasks that were launched, in the order of the task table. Their
    /// contexts are to be initialised before they first run.
    pub launched: Vec<usize>,
    /// Whether another task runs than before: a context switch is due.
    pub switched: bool,
}

/// What `expire_next` has done, for the caller to act on.

#[derive(Clone, Copy, PartialEq, Eq, Structural, Debug)]
pub enum Expired {
    /// The wait of the task `task` has timed out.
    Wait { task: usize },
    /// The timer `timer` has fired: its callback `entry_point` is to be called
    /// with `entry_param`, with the CPU Lock released.
    Timer { timer: usize, entry_point: usize, entry_param: usize },
}

/// The kernel's state. Every operation of the kernel takes it by reference:
/// it is the one place where the state of tasks, synchronization objects,
/// timers and interrupt lines lives.
pub struct Kernel {
    pub sched: SchedState,
    pub semaphores: Vec<SemaphoreCb>,
    pub event_groups: Vec<EventGroupCb>,
    pub timers: Vec<TimerCb>,
    pub interrupts: InterruptController,
    /// The interrupt line whose handler is the dispatcher.
    pub dispatch_line: InterruptNum,
    /// Whether the CPU Lock is held.
    pub cpu_lock: bool,
    /// Whether the boot phase is over.
    pub booted: bool,
    /// The system time at the tick `sched.now`.
    pub sys_time: Time64,
}

impl View for Kernel {
    type V = KernelView;

    open spec fn view(&self) -> KernelView {
        KernelView {
            sched: self.sched@,
            semaphores: Seq::new(self.semaphores@.len(), |i: int| self.semaphores@[i]@),
            event_groups: Seq::new(self.event_groups@.len(), |i: int| self.event_groups@[i]@),
            timers: self.timers@,
            interrupts: self.interrupts@,
            dispatch_line: self.dispatch_line,
            cpu_lock: self.cpu_lock,
            booted: self.booted,
            sys_time: self.sys_time,
        }
    }
}

impl Kernel {
    /// The preemption check at the end of an operation: pends the dispatch
    /// line where the dispatcher has something to do.
    pub fn unlock_cpu_and_check_preemption(&mut self)
        requires
            old(self)@.wf(),
        ensures
            final(self)@ == old(self)@.check_preemption(),
            final(self)@.wf(),
    {
        if self.sched.preemption_needed() {
            self.interrupts.lines[self.dispatch_line].pended = true;
            proof {
                assert(self@.semaphores =~= old(self)@.semaphores);
                assert(self@.event_groups =~= old(self)@.event_groups);
            }
        }
    }

    pub fn is_interrupt_context(&self) -> (r: bool)
        ensures
            r == self@.is_interrupt_context(),
    {
        self.interrupts.is_interrupt_context()
    }

    pub fn is_task_context(&self) -> (r: bool)
        ensures
            r == self@.is_task_context(),
    {
        self.booted && !self.interrupts.is_interrupt_context()
    }

    pub fn is_waitable(&self) -> (r: bool)
        ensures
            r == self@.is_waitable(),
    {
        !self.cpu_lock && self.is_task_context() && self.sched.is_running()
    }
}


/// A queue stays in order when the tasks in it stay as they are.
pub proof fn lemma_queue_frame(q: WaitQueueView, before: Seq<TaskCb>, after: Seq<TaskCb>)
    requires
        q.wf(before),
        before.len() == after.len(),
        forall|k: int|
            0 <= k < q.waits.len() ==> after[(#[trigger] q.waits[k]) as int]
                == before[q.waits[k] as int],
    ensures
        q.wf(after),
{
}

/// Ending the wait of a Waiting task keeps the kernel's invariant.
pub proof fn lemma_end_wait_wf(k: KernelView, t: usize, outcome: WaitOutcome)
    requires
        k.wf(),
        t < k.sched.tasks.len(),
        k.sched.tasks[t as int].st == TaskSt::Waiting,
    ensures
        k.end_wait(t, outcome).wf(),
        k.end_wait(t, outcome).sched.tasks.len() == k.sched.tasks.len(),
{
    let f = k.end_wait(t, outcome);
    let w = k.sched.tasks[t as int].wait->Some_0;
    lemma_complete_wait_wf(k.sched, t, outcome);
    lemma_unlinked(k.sched.timeouts, TimeoutOwner::Task(t));
    assert(f.sched == k.sched.complete_wait(t, outcome));
    assert forall|u: int| 0 <= u < k.sched.tasks.len() && u != t implies f.sched.tasks[u]
        == k.sched.tasks[u] by {}
    assert(f.sched.tasks[t as int].wait is None);
    match w.queue {
        Some(id) => {
            assert(k.queued(id, t));
            lemma_without(k.queue(id).waits, t);
        },
        None => {},
    }
    assert(f.semaphores.len() == k.semaphores.len());
    assert(f.event_groups.len() == k.event_groups.len());
    assert forall|i: int| 0 <= i < f.semaphores.len() implies (#[trigger] f.semaphores[i]).wf()
        && f.semaphores[i].queue.id == WaitQueueId::Semaphore(i as usize)
        && f.semaphores[i].queue.wf(f.sched.tasks) by {
        let q = k.semaphores[i].queue;
        let fq = f.semaphores[i].queue;
        assert(k.semaphores[i].wf());
        assert(q.wf(k.sched.tasks));
        if w.queue == Some(WaitQueueId::Semaphore(i as usize)) {
            assert(fq.waits == q.waits.remove_value(t));
            assert(fq == q.without(t));
            assert forall|m: int| 0 <= m < fq.waits.len() implies (#[trigger] fq.waits[m])
                < f.sched.tasks.len() && f.sched.tasks[fq.waits[m] as int].wait is Some
                && f.sched.tasks[fq.waits[m] as int].wait->Some_0.queue == Some(fq.id) by {
                let u = fq.waits[m];
                assert(q.waits.contains(u));
                let j = choose|j: int| 0 <= j < q.waits.len() && q.waits[j] == u;
                assert(q.waits[j] < k.sched.tasks.len());
                assert(u != t);
            }
            lemma_without_sorted(q, k.sched.tasks, t);
            assert forall|m: int| 0 <= m < fq.waits.len() implies f.sched.tasks[(
            #[trigger] fq.waits[m]) as int].priority == k.sched.tasks[fq.waits[m] as int].priority by {
                assert(q.waits.contains(fq.waits[m]));
            }
            lemma_sorted_frame(fq, k.sched.tasks, f.sched.tasks);
        } else {
            assert(fq == q);
            assert forall|m: int| 0 <= m < q.waits.len() implies f.sched.tasks[(
            #[trigger] q.waits[m]) as int] == k.sched.tasks[q.waits[m] as int] by {
                assert(k.sched.tasks[q.waits[m] as int].wait->Some_0.queue == Some(q.id));
            }
            lemma_queue_frame(q, k.sched.tasks, f.sched.tasks);
        }
    }
    assert forall|i: int| 0 <= i < f.event_groups.len() implies (
    #[trigger] f.event_groups[i]).queue.id == WaitQueueId::EventGroup(i as usize)
        && f.event_groups[i].queue.wf(f.sched.tasks) by {
        let q = k.event_groups[i].queue;
        let fq = f.event_groups[i].queue;
        assert(q.wf(k.sched.tasks));
        if w.queue == Some(WaitQueueId::EventGroup(i as usize)) {
            assert(fq.waits == q.waits.remove_value(t));
            assert(fq == q.without(t));
            assert forall|m: int| 0 <= m < fq.waits.len() implies (#[trigger] fq.waits[m])
                < f.sched.tasks.len() && f.sched.tasks[fq.waits[m] as int].wait is Some
                && f.sched.tasks[fq.waits[m] as int].wait->Some_0.queue == Some(fq.id) by {
                let u = fq.waits[m];
                assert(q.waits.contains(u));
                let j = choose|j: int| 0 <= j < q.waits.len() && q.waits[j] == u;
                assert(q.waits[j] < k.sched.tasks.len());
                assert(u != t);
            }
            lemma_without_sorted(q, k.sched.tasks, t);
            assert forall|m: int| 0 <= m < fq.waits.len() implies f.sched.tasks[(
            #[trigger] fq.waits[m]) as int].priority == k.sched.tasks[fq.waits[m] as int].priority by {
                assert(q.waits.contains(fq.waits[m]));
            }
            lemma_sorted_frame(fq, k.sched.tasks, f.sched.tasks);
        } else {
            assert(fq == q);
            assert forall|m: int| 0 <= m < q.waits.len() implies f.sched.tasks[(
            #[trigger] q.waits[m]) as int] == k.sched.tasks[q.waits[m] as int] by {
                assert(k.sched.tasks[q.waits[m] as int].wait->Some_0.queue == Some(q.id));
            }
            lemma_queue_frame(q, k.sched.tasks, f.sched.tasks);
        }
    }
    assert forall|u: int|
        0 <= u < f.sched.tasks.len() && (#[trigger] f.sched.tasks[u]).wait is Some
            && f.sched.tasks[u].wait->Some_0.queue is Some implies f.queued(
        f.sched.tasks[u].wait->Some_0.queue->Some_0,
        u as usize,
    ) by {
        assert(u != t);
        let id = k.sched.tasks[u].wait->Some_0.queue->Some_0;
        assert(k.queued(id, u as usize));
        if w.queue == Some(id) {
            assert(f.queue(id).waits == k.queue(id).waits.remove_value(t));
        } else {
            assert(f.queue(id) == k.queue(id));
        }
    }
    assert forall|j: int| 0 <= j < f.sched.timeouts.len() implies match (
    #[trigger] f.sched.timeouts[j]).owner {
        TimeoutOwner::Timer(i) => i < f.timers.len() && f.timers[i as int].active,
        TimeoutOwner::Task(_) => true,
    } by {
        let e = f.sched.timeouts[j];
        assert(k.sched.timeouts.contains(e));
        let m = choose|m: int| 0 <= m < k.sched.timeouts.len() && k.sched.timeouts[m] == e;
        assert(k.sched.timeouts[m].owner == e.owner);
    }
    assert forall|i: int| 0 <= i < f.timers.len() implies (#[trigger] f.timers[i]).wf() && (
    f.timers[i].active && !is_linked(f.sched.timeouts, TimeoutOwner::Timer(i as usize))
        ==> f.timers[i].delay == BAD_DURATION32) by {
        assert(k.timers[i].wf());
        assert(is_linked(f.sched.timeouts, TimeoutOwner::Timer(i as usize)) == is_linked(
            k.sched.timeouts,
            TimeoutOwner::Timer(i as usize),
        ));
    }
}

/// The running task stands in no wait queue.
pub proof fn lemma_running_not_queued(k: KernelView, id: WaitQueueId)
    requires
        k.wf(),
        k.sched.is_running(),
        k.valid_queue(id),
    ensures
        !k.queue(id).waits.contains(k.sched.running->Some_0),
        k.queue(id).wf(k.sched.tasks),
{
    let r = k.sched.running->Some_0;
    match id {
        WaitQueueId::Semaphore(i) => {
            assert(k.semaphores[i as int].queue.wf(k.sched.tasks));
        },
        WaitQueueId::EventGroup(i) => {
            assert(k.event_groups[i as int].queue.wf(k.sched.tasks));
        },
    }
    assert(k.sched.tasks[r as int].st == TaskSt::Waiting <==> k.sched.tasks[r as int].wait is Some);
    if k.queue(id).waits.contains(r) {
        let j = choose|j: int| 0 <= j < k.queue(id).waits.len() && k.queue(id).waits[j] == r;
        assert(k.sched.tasks[k.queue(id).waits[j] as int].wait is Some);
    }
}

/// When the running task is put to wait, the wait queue of every object is
/// in order afterwards.
pub proof fn lemma_block_queue_wf(
    k: KernelView,
    queue: Option<WaitQueueId>,
    payload: WaitPayload,
    at: Option<Time32>,
    id: WaitQueueId,
)
    requires
        k.wf(),
        k.sched.is_running(),
        queue is Some ==> k.valid_queue(queue->Some_0),
        k.valid_queue(id),
    ensures
        k.block(queue, payload, at).valid_queue(id),
        k.block(queue, payload, at).queue(id).id == k.queue(id).id,
        k.block(queue, payload, at).queue(id).wf(k.block(queue, payload, at).sched.tasks),
        k.block(queue, payload, at).queue(id).waits.len() >= k.queue(id).waits.len(),
        forall|u: usize|
            k.queue(id).waits.contains(u) ==> k.block(queue, payload, at).queue(id).waits.contains(
                u,
            ),
        queue == Some(id) ==> k.block(queue, payload, at).queue(id).waits.contains(
            k.sched.running->Some_0,
        ),
        queue != Some(id) ==> k.block(queue, payload, at).queue(id) == k.queue(id),
{
    let f = k.block(queue, payload, at);
    let r = k.sched.running->Some_0;
    let q = k.queue(id);
    let fq = f.queue(id);
    lemma_running_not_queued(k, id);
    assert forall|u: int| 0 <= u < k.sched.tasks.len() && u != r implies f.sched.tasks[u]
        == k.sched.tasks[u] by {}
    assert(f.sched.tasks[r as int].priority == k.sched.tasks[r as int].priority);
    if queue == Some(id) {
        let pos = q.insert_position(k.sched.tasks, k.sched.tasks[r as int].priority);
        q.lemma_insert_position(k.sched.tasks, k.sched.tasks[r as int].priority);
        lemma_insert(q.waits, pos, r);
        assert(fq == q.enqueue(k.sched.tasks, r));
        assert forall|m: int| 0 <= m < fq.waits.len() implies (#[trigger] fq.waits[m])
            < f.sched.tasks.len() && f.sched.tasks[fq.waits[m] as int].wait is Some
            && f.sched.tasks[fq.waits[m] as int].wait->Some_0.queue == Some(fq.id) by {
            if m != pos {
                let qm = if m < pos { m } else { m - 1 };
                assert(fq.waits[m] == q.waits[qm]);
                assert(q.waits.contains(q.waits[qm]));
            }
        }
        lemma_enqueue_sorted(q, k.sched.tasks, r);
        assert forall|m: int| 0 <= m < fq.waits.len() implies f.sched.tasks[(
        #[trigger] fq.waits[m]) as int].priority == k.sched.tasks[fq.waits[m] as int].priority by {}
        lemma_sorted_frame(fq, k.sched.tasks, f.sched.tasks);
    } else {
        assert(fq == q);
        assert forall|m: int| 0 <= m < q.waits.len() implies f.sched.tasks[(
        #[trigger] q.waits[m]) as int] == k.sched.tasks[q.waits[m] as int] by {
            assert(q.waits.contains(q.waits[m]));
        }
        lemma_queue_frame(q, k.sched.tasks, f.sched.tasks);
    }
}

/// Putting the running task to wait keeps the kernel's invariant, provided
/// the object that it waits for exists and, if it is a semaphore, holds no
/// permit.
pub proof fn lemma_block_wf(
    k: KernelView,
    queue: Option<WaitQueueId>,
    payload: WaitPayload,
    at: Option<Time32>,
)
    requires
        k.wf(),
        k.sched.is_running(),
        queue is Some ==> k.valid_queue(queue->Some_0),
        queue matches Some(WaitQueueId::Semaphore(i)) ==> k.semaphores[i as int].value == 0,
    ensures
        k.block(queue, payload, at).wf(),
        k.block(queue, payload, at).sched.tasks.len() == k.sched.tasks.len(),
{
    let f = k.block(queue, payload, at);
    let r = k.sched.running->Some_0;
    let wait = Wait { queue, payload };
    lemma_begin_wait_wf(k.sched, wait, at);
    assert(f.sched == k.sched.begin_wait(wait, at));
    assert(!is_linked(k.sched.timeouts, TimeoutOwner::Task(r))) by {
        if is_linked(k.sched.timeouts, TimeoutOwner::Task(r)) {
            let i = choose|i: int|
                0 <= i < k.sched.timeouts.len() && (#[trigger] k.sched.timeouts[i]).owner
                    == TimeoutOwner::Task(r);
            assert(k.sched.tasks[r as int].st == TaskSt::Waiting);
        }
    }
    match at {
        Some(at) => {
            lemma_linked(k.sched.timeouts, Timeout { at, owner: TimeoutOwner::Task(r) });
        },
        None => {},
    }
    assert(f.semaphores.len() == k.semaphores.len());
    assert(f.event_groups.len() == k.event_groups.len());
    assert forall|i: int| 0 <= i < f.semaphores.len() implies (#[trigger] f.semaphores[i]).wf()
        && f.semaphores[i].queue.id == WaitQueueId::Semaphore(i as usize)
        && f.semaphores[i].queue.wf(f.sched.tasks) by {
        assert(k.semaphores[i].wf());
        lemma_block_queue_wf(k, queue, payload, at, WaitQueueId::Semaphore(i as usize));
        assert(f.semaphores[i].queue == f.queue(WaitQueueId::Semaphore(i as usize)));
        assert(k.semaphores[i].queue == k.queue(WaitQueueId::Semaphore(i as usize)));
    }
    assert forall|i: int| 0 <= i < f.event_groups.len() implies (
    #[trigger] f.event_groups[i]).queue.id == WaitQueueId::EventGroup(i as usize)
        && f.event_groups[i].queue.wf(f.sched.tasks) by {
        lemma_block_queue_wf(k, queue, payload, at, WaitQueueId::EventGroup(i as usize));
        assert(f.event_groups[i].queue == f.queue(WaitQueueId::EventGroup(i as usize)));
        assert(k.event_groups[i].queue == k.queue(WaitQueueId::EventGroup(i as usize)));
    }
    assert forall|u: int|
        0 <= u < f.sched.tasks.len() && (#[trigger] f.sched.tasks[u]).wait is Some
            && f.sched.tasks[u].wait->Some_0.queue is Some implies f.queued(
        f.sched.tasks[u].wait->Some_0.queue->Some_0,
        u as usize,
    ) by {
        let id = f.sched.tasks[u].wait->Some_0.queue->Some_0;
        if u == r {
            assert(queue == Some(id));
            lemma_block_queue_wf(k, queue, payload, at, id);
        } else {
            assert(f.sched.tasks[u] == k.sched.tasks[u]);
            assert(k.queued(id, u as usize));
            lemma_block_queue_wf(k, queue, payload, at, id);
            assert(k.queue(id).waits.contains(u as usize));
        }
    }
    assert forall|j: int| 0 <= j < f.sched.timeouts.len() implies match (
    #[trigger] f.sched.timeouts[j]).owner {
        TimeoutOwner::Timer(i) => i < f.timers.len() && f.timers[i as int].active,
        TimeoutOwner::Task(_) => true,
    } by {
        if j < k.sched.timeouts.len() {
            assert(f.sched.timeouts[j] == k.sched.timeouts[j]);
        }
    }
    assert forall|i: int| 0 <= i < f.timers.len() implies (#[trigger] f.timers[i]).wf() && (
    f.timers[i].active && !is_linked(f.sched.timeouts, TimeoutOwner::Timer(i as usize))
        ==> f.timers[i].delay == BAD_DURATION32) by {
        assert(k.timers[i].wf());
        assert(is_linked(f.sched.timeouts, TimeoutOwner::Timer(i as usize)) == is_linked(
            k.sched.timeouts,
            TimeoutOwner::Timer(i as usize),
        ));
    }
}


/// A change of the scheduler's state keeps the kernel's invariant where it
/// keeps the scheduler's, leaves the timeouts and every task with a wait
/// record as they are, and gives no task a wait record.
pub proof fn lemma_sched_change_wf(k: KernelView, s: SchedView)
    requires
        k.wf(),
        s.wf(),
        s.tasks.len() == k.sched.tasks.len(),
        s.timeouts == k.sched.timeouts,
        forall|u: int|
            0 <= u < s.tasks.len() ==> ((#[trigger] s.tasks[u]).wait is Some
                || k.sched.tasks[u].wait is Some) ==> s.tasks[u] == k.sched.tasks[u],
    ensures
        (KernelView { sched: s, ..k }).wf(),
{
    let f = KernelView { sched: s, ..k };
    assert forall|i: int| 0 <= i < f.semaphores.len() implies (#[trigger] f.semaphores[i]).wf()
        && f.semaphores[i].queue.id == WaitQueueId::Semaphore(i as usize)
        && f.semaphores[i].queue.wf(f.sched.tasks) by {
        let q = k.semaphores[i].queue;
        assert(k.semaphores[i].wf());
        assert(q.wf(k.sched.tasks));
        lemma_queue_frame(q, k.sched.tasks, f.sched.tasks);
    }
    assert forall|i: int| 0 <= i < f.event_groups.len() implies (
    #[trigger] f.event_groups[i]).queue.id == WaitQueueId::EventGroup(i as usize)
        && f.event_groups[i].queue.wf(f.sched.tasks) by {
        let q = k.event_groups[i].queue;
        assert(q.wf(k.sched.tasks));
        lemma_queue_frame(q, k.sched.tasks, f.sched.tasks);
    }
    assert forall|u: int|
        0 <= u < f.sched.tasks.len() && (#[trigger] f.sched.tasks[u]).wait is Some
            && f.sched.tasks[u].wait->Some_0.queue is Some implies f.queued(
        f.sched.tasks[u].wait->Some_0.queue->Some_0,
        u as usize,
    ) by {
        assert(k.sched.tasks[u] == f.sched.tasks[u]);
        assert(k.queued(k.sched.tasks[u].wait->Some_0.queue->Some_0, u as usize));
    }
    assert forall|j: int| 0 <= j < f.sched.timeouts.len() implies match (
    #[trigger] f.sched.timeouts[j]).owner {
        TimeoutOwner::Timer(i) => i < f.timers.len() && f.timers[i as int].active,
        TimeoutOwner::Task(_) => true,
    } by {
        assert(f.sched.timeouts[j] == k.sched.timeouts[j]);
    }
    assert forall|i: int| 0 <= i < f.timers.len() implies (#[trigger] f.timers[i]).wf() && (
    f.timers[i].active && !is_linked(f.sched.timeouts, TimeoutOwner::Timer(i as usize))
        ==> f.timers[i].delay == BAD_DURATION32) by {
        assert(k.timers[i].wf());
    }
}

/// The dispatcher keeps the kernel's invariant.
pub proof fn lemma_choose_running_task_kernel_wf(k: KernelView)
    requires
        k.wf(),
    ensures
        k.choose_running_task().wf(),
{
    let n = k.sched.tasks.len() as int;
    lemma_launch_pending_wf(k.sched, n);
    let m = k.sched.launch_pending(n);
    lemma_switch_wf(m);
    let s = m.switch();
    assert forall|u: int|
        0 <= u < s.tasks.len() && ((#[trigger] s.tasks[u]).wait is Some
            || k.sched.tasks[u].wait is Some) implies s.tasks[u] == k.sched.tasks[u] by {
        lemma_switch_keeps_others(m, u);
        assert(k.sched.tasks[u].st == TaskSt::Waiting <==> k.sched.tasks[u].wait is Some);
        assert(m.tasks[u].st == TaskSt::Waiting <==> m.tasks[u].wait is Some);
    }
    lemma_sched_change_wf(k, s);
}

impl Kernel {
    /// Ends the wait of the Waiting task `t` with `outcome`: takes the task
    /// out of its wait queue, unlinks its timeout and makes it Ready.
    pub fn end_wait(&mut self, t: usize, outcome: WaitOutcome)
        requires
            old(self)@.wf(),
            t < old(self)@.sched.tasks.len(),
            old(self)@.sched.tasks[t as int].st == TaskSt::Waiting,
        ensures
            final(self)@ == old(self)@.end_wait(t, outcome),
            final(self)@.wf(),
    {
        proof {
            lemma_end_wait_wf(self@, t, outcome);
            assert(self@.sched.tasks[t as int].wait is Some);
        }
        match self.sched.tasks[t].wait {
            Some(w) => match w.queue {
                Some(WaitQueueId::Semaphore(i)) => {
                    assert(self@.queued(WaitQueueId::Semaphore(i), t));
                    self.semaphores[i].wait_queue.remove(t);
                    proof {
                        assert(self@.semaphores =~= old(self)@.dequeue(t).semaphores);
                        assert(self@.event_groups =~= old(self)@.dequeue(t).event_groups);
                    }
                },
                Some(WaitQueueId::EventGroup(i)) => {
                    assert(self@.queued(WaitQueueId::EventGroup(i), t));
                    self.event_groups[i].wait_queue.remove(t);
                    proof {
                        assert(self@.semaphores =~= old(self)@.dequeue(t).semaphores);
                        assert(self@.event_groups =~= old(self)@.dequeue(t).event_groups);
                    }
                },
                None => {},
            },
            None => {},
        }
        self.sched.complete_wait(t, outcome);
        proof {
            assert(self@.semaphores =~= old(self)@.end_wait(t, outcome).semaphores);
            assert(self@.event_groups =~= old(self)@.end_wait(t, outcome).event_groups);
        }
    }

    /// Puts the running task to wait for `payload`: in the wait queue of
    /// object `queue`, where one is given, and with a timeout that expires
    /// at `at`, where one is given.
    pub fn block(&mut self, queue: Option<WaitQueueId>, payload: WaitPayload, at: Option<Time32>)
        requires
            old(self)@.wf(),
            old(self)@.sched.is_running(),
            queue is Some ==> old(self)@.valid_queue(queue->Some_0),
            queue matches Some(WaitQueueId::Semaphore(i)) ==> old(self)@.semaphores[i as int].value
                == 0,
        ensures
            final(self)@ == old(self)@.block(queue, payload, at),
            final(self)@.wf(),
    {
        proof {
            lemma_block_wf(self@, queue, payload, at);
        }
        match queue {
            Some(WaitQueueId::Semaphore(i)) => {
                assert(self@.semaphores[i as int].queue.wf(self@.sched.tasks));
                self.semaphores[i].wait_queue.wait(&mut self.sched, payload, at);
            },
            Some(WaitQueueId::EventGroup(i)) => {
                assert(self@.event_groups[i as int].queue.wf(self@.sched.tasks));
                self.event_groups[i].wait_queue.wait(&mut self.sched, payload, at);
            },
            None => {
                self.sched.begin_wait(Wait { queue: None, payload }, at);
            },
        }
        proof {
            assert(self@.semaphores =~= old(self)@.block(queue, payload, at).semaphores);
            assert(self@.event_groups =~= old(self)@.block(queue, payload, at).event_groups);
        }
    }

    /// Takes the CPU Lock.
    pub fn acquire_cpu_lock(&mut self) -> (r: Result<(), CpuLockError>)
        requires
            old(self)@.wf(),
        ensures
            (final(self)@, r) == old(self)@.acquire_cpu_lock(),
            final(self)@.wf(),
    {
        if self.cpu_lock {
            return Err(CpuLockError::BadContext);
        }
        self.cpu_lock = true;
        proof {
            assert(self@.semaphores =~= old(self)@.semaphores);
            assert(self@.event_groups =~= old(self)@.event_groups);
        }
        Ok(())
    }

    /// Gives the CPU Lock up. The preemption check runs at this boundary.
    pub fn release_cpu_lock(&mut self) -> (r: Result<(), CpuLockError>)
        requires
            old(self)@.wf(),
        ensures
            (final(self)@, r) == old(self)@.release_cpu_lock(),
            final(self)@.wf(),
    {
        if !self.cpu_lock || !self.booted {
            return Err(CpuLockError::BadContext);
        }
        self.cpu_lock = false;
        proof {
            assert(self@.semaphores =~= old(self)@.semaphores);
            assert(self@.event_groups =~= old(self)@.event_groups);
        }
        self.unlock_cpu_and_check_preemption();
        Ok(())
    }

    pub fn has_cpu_lock(&self) -> (r: bool)
        ensures
            r == self@.cpu_lock,
    {
        self.cpu_lock
    }

    /// Tells the kernel the tick count that the tick source has reached.
    /// The system time moves on by as much as the tick count.
    pub fn timer_tick(&mut self, tick_count: Time32)
        requires
            old(self)@.wf(),
        ensures
            final(self)@ == old(self)@.timer_tick(tick_count),
            final(self)@.wf(),
    {
        let elapsed: u32 = tick_count.wrapping_sub(self.sched.now);
        self.sys_time = self.sys_time.wrapping_add(elapsed as u64);
        self.sched.now = tick_count;
        proof {
            assert(self@.semaphores =~= old(self)@.semaphores);
            assert(self@.event_groups =~= old(self)@.event_groups);
        }
    }

    /// Sets the system time. The pending timeouts stay as they are: they
    /// are kept in ticks, which the system time does not enter.
    pub fn set_time(&mut self, time: Time64) -> (r: Result<(), TimeError>)
        requires
            old(self)@.wf(),
        ensures
            (final(self)@, r) == old(self)@.set_time(time),
            final(self)@.wf(),
    {
        if self.cpu_lock || !self.is_task_context() {
            return Err(TimeError::BadContext);
        }
        self.sys_time = time;
        proof {
            assert(self@.semaphores =~= old(self)@.semaphores);
            assert(self@.event_groups =~= old(self)@.event_groups);
        }
        Ok(())
    }

    /// The system time. It fails with `BadContext` outside a task and with
    /// the CPU Lock held.
    pub fn time(&self) -> (r: Result<Time64, TimeError>)
        ensures
            r == self@.time(),
    {
        if self.cpu_lock || !self.is_task_context() {
            return Err(TimeError::BadContext);
        }
        Ok(self.sys_time)
    }

    /// The dispatcher: chooses the task to run. Returns the tasks that were
    /// launched, and whether the choice asks for a context switch.
    pub fn choose_running_task(&mut self) -> (r: Chosen)
        requires
            old(self)@.wf(),
        ensures
            final(self)@ == old(self)@.choose_running_task(),
            r.launched@ == old(self)@.sched.pending(old(self)@.sched.tasks.len() as int),
            r.switched == (final(self)@.sched.running != old(self)@.sched.running),
            final(self)@.wf(),
    {
        proof {
            lemma_choose_running_task_kernel_wf(self@);
        }
        let before = self.sched.running_task;
        let launched = self.sched.choose_running_task();
        proof {
            assert(self@.semaphores =~= old(self)@.semaphores);
            assert(self@.event_groups =~= old(self)@.event_groups);
        }
        let switched = match (before, self.sched.running_task) {
            (Some(a), Some(b)) => a != b,
            (None, None) => false,
            _ => true,
        };
        Chosen { launched, switched }
    }

    /// When the tick source is to tick next, so that no timeout expires
    /// unnoticed.
    pub fn next_tick(&self) -> (r: TickRequest)
        ensures
            r == self@.next_tick(),
            r matches TickRequest::After(d) ==> 1 <= d <= MAX_TIMEOUT,
    {
        match self.sched.timeouts.ticks_until_next(self.sched.now) {
            Some(left) => {
                if left == 0 {
                    TickRequest::Now
                } else {
                    TickRequest::After(left)
                }
            },
            None => TickRequest::After(MAX_TIMEOUT),
        }
    }

    /// The task that runs.
    pub fn running_task(&self) -> (r: Option<usize>)
        ensures
            r == self@.sched.running,
    {
        self.sched.running_task
    }
}


impl Kernel {
    /// Lets the timeout that expires first expire, if it is due at the
    /// kernel's tick. The tick handler calls this until it returns `None`.
    pub fn expire_next(&mut self) -> (r: Option<Expired>)
        requires
            old(self)@.wf(),
        ensures
            (final(self)@, r) == old(self)@.expire_next(),
            final(self)@.wf(),
    {
        let now = self.sched.now;
        let idx = match self.sched.timeouts.peek_earliest(now) {
            Some(idx) => idx,
            None => {
                return None;
            },
        };
        let e = self.sched.timeouts.entries[idx];
        if !is_due(e.at, now) {
            return None;
        }
        proof {
            assert(self@.sched.timeouts[idx as int] == e);
            lemma_position(self@.sched.timeouts, e.owner);
            assert(position(self@.sched.timeouts, e.owner) == idx) by {
                let p = position(self@.sched.timeouts, e.owner);
                if p != idx {
                    assert(self@.sched.timeouts[p].owner == self@.sched.timeouts[idx as int].owner);
                }
            }
        }
        match e.owner {
            TimeoutOwner::Task(t) => {
                proof {
                    assert(self@.sched.tasks[t as int].st == TaskSt::Waiting
                        <==> self@.sched.tasks[t as int].wait is Some);
                }
                let outcome = match self.sched.tasks[t].wait {
                    Some(w) => match w.payload {
                        WaitPayload::Sleep => Ok(WaitPayload::Sleep),
                        _ => Err(WaitTimeoutError::Timeout),
                    },
                    None => Err(WaitTimeoutError::Timeout),
                };
                self.end_wait(t, outcome);
                self.unlock_cpu_and_check_preemption();
                Some(Expired::Wait { task: t })
            },
            TimeoutOwner::Timer(i) => {
                let cb = self.timers[i];
                proof {
                    assert(self@.timers[i as int].wf());
                    lemma_timer_unlink_wf(self@, i, TimerCb { delay: BAD_DURATION32, ..cb });
                }
                self.timers[i].delay = BAD_DURATION32;
                let _ = self.sched.timeouts.remove(TimeoutOwner::Timer(i));
                proof {
                    assert(self@.semaphores =~= old(self)@.semaphores);
                    assert(self@.event_groups =~= old(self)@.event_groups);
                    assert(self@.timers =~= old(self)@.timers.update(
                        i as int,
                        TimerCb { delay: BAD_DURATION32, ..cb },
                    ));
                }
                let (entry_point, entry_param) = timer_timeout_handler(self, i, e.at);
                Some(Expired::Timer { timer: i, entry_point, entry_param })
            },
        }
    }

    /// The kernel's part of the boot phase: starts the timers that are to
    /// be active from the start. The startup hooks run after it, and
    /// `dispatch_first_task` ends the phase.
    pub fn boot(&mut self)
        requires
            old(self)@.wf(),
            !old(self)@.booted,
        ensures
            final(self)@ == old(self)@.boot(),
            final(self)@.wf(),
            !final(self)@.booted,
    {
        let n = self.timers.len();
        let mut i: usize = 0;
        while i < n
            invariant
                i <= n,
                n == self@.timers.len(),
                n == old(self)@.timers.len(),
                self@.wf(),
                !self@.booted,
                self@ == old(self)@.init_timers(i as int),
            decreases n - i,
        {
            init_timer(self, i);
            i += 1;
        }
    }

    /// Ends the boot phase and hands the processor to the dispatcher.
    pub fn dispatch_first_task(&mut self)
        requires
            old(self)@.wf(),
            !old(self)@.booted,
        ensures
            final(self)@ == old(self)@.dispatch_first_task(),
            final(self)@.wf(),
    {
        let line = self.interrupts.lines[self.dispatch_line];
        self.interrupts.lines[self.dispatch_line] = IntLine {
            priority: INTERRUPT_PRIORITY_DISPATCH,
            enable: true,
            pended: true,
            start: line.start,
        };
        self.cpu_lock = false;
        self.booted = true;
        proof {
            assert(self@.semaphores =~= old(self)@.semaphores);
            assert(self@.event_groups =~= old(self)@.event_groups);
        }
    }
}

} // verus!

//! Task control blocks and the task state machine.
use vstd::prelude::*;
use crate::error::{
    ActivateTaskError, ExitTaskError, GetCurrentTaskError, InterruptTaskError, ParkError,
    SleepError, UnparkError, WaitTimeoutError,
};
use crate::kernel::{lemma_sched_change_wf, Kernel, KernelView};
use crate::sched::{lemma_exit_running_wf, lemma_update_task_wf, SchedView};
use crate::time::{
    expiration_after, spec_time32_from_duration, tick_after, time32_from_duration, Duration,
    BAD_DURATION32,
};
use crate::timeout::{is_linked, TimeoutOwner};
use crate::wait::{Blocking, Wait, WaitPayload, WaitQueueId};

verus! {

/// The identifier behind an object handle: the object's place in its table,
/// counted from one. Zero names no object.
pub type Id = usize;

/// The states of a task.
///
/// ```text
/// Dormant --activate--> PendingActivation --dispatch--> Ready
/// Ready --chosen--> Running --preempted--> Ready
/// Running --wait--> Waiting --wake--> Ready
/// Running --exit--> Dormant
/// ```
#[derive(Clone, Copy, PartialEq, Eq, Structural, Debug)]
pub enum TaskSt {
    Dormant,
    PendingActivation,
    Ready,
    Running,
    Waiting,
}

/// The part of the hunk pool that serves as a task's stack.
#[derive(Clone, Copy, PartialEq, Eq, Structural, Debug)]
pub struct StackHunk {
    pub start: usize,
    pub len: usize,
}

/// What is fixed about a task at configuration time. `entry_point` names the
/// entry function in the application's table of entry functions.
#[derive(Clone, Copy, PartialEq, Eq, Structural, Debug)]
pub struct TaskAttr {
    pub entry_point: usize,
    pub entry_param: usize,
    pub stack: StackHunk,
}

/// How a wait ended: with what the waiter was given, or with the reason why
/// it was given nothing.
pub type WaitOutcome = Result<WaitPayload, WaitTimeoutError>;

/// The state of one task.
#[derive(Clone, Copy, PartialEq, Eq, Debug)]
pub struct TaskCb {
    pub attr: TaskAttr,
    /// The priority; a lower value is more urgent.
    pub priority: usize,
    pub st: TaskSt,
    /// What the task waits for; set exactly while the task is Waiting.
    pub wait: Option<Wait>,
    /// How the task's last wait ended, until the task has taken note of it.
    pub wait_result: Option<WaitOutcome>,
    /// The binary permit of `park` and `unpark`.
    pub park_token: bool,
}

impl TaskCb {
    /// The control block of a task that has not run yet: PendingActivation
    /// where it is to be active from the start, Dormant where not.
    pub fn new(attr: TaskAttr, priority: usize, active: bool) -> (r: TaskCb)
        ensures
            r == (TaskCb {
                attr,
                priority,
                st: if active {
                    TaskSt::PendingActivation
                } else {
                    TaskSt::Dormant
                },
                wait: None,
                wait_result: None,
                park_token: false,
            }),
    {
        TaskCb {
            attr,
            priority,
            st: if active {
                TaskSt::PendingActivation
            } else {
                TaskSt::Dormant
            },
            wait: None,
            wait_result: None,
            park_token: false,
        }
    }
}


/// A handle to a task.
#[derive(Clone, Copy, PartialEq, Eq, Structural, Debug, Hash)]
pub struct Task {
    pub id: Id,
}

/// The place in a table of `len` objects that the identifier `id` names.
pub open spec fn spec_index_of_id(id: Id, len: nat) -> Option<usize> {
    if 1 <= id <= len {
        Some((id - 1) as usize)
    } else {
        None
    }
}

pub fn index_of_id(id: Id, len: usize) -> (r: Option<usize>)
    ensures
        r == spec_index_of_id(id, len as nat),
{
    if 1 <= id && id <= len {
        Some(id - 1)
    } else {
        None
    }
}

impl KernelView {
    /// The state in which task `t` has the control block `cb`.
    pub open spec fn with_task(self, t: usize, cb: TaskCb) -> KernelView {
        KernelView {
            sched: SchedView { tasks: self.sched.tasks.update(t as int, cb), ..self.sched },
            ..self
        }
    }

    /// What `Task::activate` does. With the CPU Lock held it fails with
    /// `BadContext`, for a task that does not exist with `BadId`, for one
    /// that is not Dormant with `QueueOverflow`. Else the task's activation
    /// is pending, and the preemption check runs.
    pub open spec fn activate_task(self, id: Id) -> (KernelView, Result<(), ActivateTaskError>) {
        if self.cpu_lock {
            (self, Err(ActivateTaskError::BadContext))
        } else {
            match spec_index_of_id(id, self.sched.tasks.len()) {
                None => (self, Err(ActivateTaskError::BadId)),
                Some(t) => if self.sched.tasks[t as int].st != TaskSt::Dormant {
                    (self, Err(ActivateTaskError::QueueOverflow))
                } else {
                    (
                        self.with_task(
                            t,
                            TaskCb { st: TaskSt::PendingActivation, ..self.sched.tasks[t as int] },
                        ).check_preemption(),
                        Ok(()),
                    )
                },
            }
        }
    }

    /// What `Task::interrupt` does. With the CPU Lock held it fails with
    /// `BadContext`, for a task that does not exist with `BadId`, for one
    /// that is not Waiting with `BadObjectState`. Else the task's wait ends
    /// with `Interrupted`, and the preemption check runs.
    pub open spec fn interrupt_task(self, id: Id) -> (KernelView, Result<(), InterruptTaskError>) {
        if self.cpu_lock {
            (self, Err(InterruptTaskError::BadContext))
        } else {
            match spec_index_of_id(id, self.sched.tasks.len()) {
                None => (self, Err(InterruptTaskError::BadId)),
                Some(t) => if self.sched.tasks[t as int].st != TaskSt::Waiting {
                    (self, Err(InterruptTaskError::BadObjectState))
                } else {
                    (
                        self.end_wait(t, Err(WaitTimeoutError::Interrupted)).check_preemption(),
                        Ok(()),
                    )
                },
            }
        }
    }

    /// Task `t` waits for its park token.
    pub open spec fn is_parked(self, t: usize) -> bool {
        self.sched.tasks[t as int].wait matches Some(w) && w.payload == WaitPayload::Park
    }

    /// What `Task::unpark` does. With the CPU Lock held it fails with
    /// `BadContext`, for a task that does not exist with `BadId`, for one
    /// that is Dormant with `BadObjectState`. Else a task that is parked is
    /// woken, and the preemption check runs; any other task is given the
    /// token, which it holds at most once.
    pub open spec fn unpark_task(self, id: Id) -> (KernelView, Result<(), UnparkError>) {
        if self.cpu_lock {
            (self, Err(UnparkError::BadContext))
        } else {
            match spec_index_of_id(id, self.sched.tasks.len()) {
                None => (self, Err(UnparkError::BadId)),
                Some(t) => if self.sched.tasks[t as int].st == TaskSt::Dormant {
                    (self, Err(UnparkError::BadObjectState))
                } else if self.is_parked(t) {
                    (self.end_wait(t, Ok(WaitPayload::Park)).check_preemption(), Ok(()))
                } else {
                    (
                        self.with_task(
                            t,
                            TaskCb { park_token: true, ..self.sched.tasks[t as int] },
                        ),
                        Ok(()),
                    )
                },
            }
        }
    }

    /// What `Task::current` returns: the running task, or `BadContext`
    /// outside a task and with the CPU Lock held.
    pub open spec fn current_task(self) -> Result<Option<Task>, GetCurrentTaskError> {
        if self.cpu_lock || !self.is_task_context() {
            Err(GetCurrentTaskError::BadContext)
        } else {
            Ok(
                match self.sched.running {
                    Some(t) => Some(Task { id: (t + 1) as usize }),
                    None => None,
                },
            )
        }
    }

    /// What `park` does. Where blocking is not allowed it fails with
    /// `BadContext`. Else, where the running task holds its token, the
    /// token is taken and the call is done; where not, the task waits for
    /// it, and the preemption check runs.
    pub open spec fn park(self) -> (KernelView, Result<Blocking<()>, ParkError>) {
        if !self.is_waitable() {
            (self, Err(ParkError::BadContext))
        } else {
            let r = self.sched.running->Some_0;
            if self.sched.tasks[r as int].park_token {
                (
                    self.with_task(r, TaskCb { park_token: false, ..self.sched.tasks[r as int] }),
                    Ok(Blocking::Done(())),
                )
            } else {
                (
                    self.block(None, WaitPayload::Park, None).check_preemption(),
                    Ok(Blocking::Blocked),
                )
            }
        }
    }

    /// What `sleep` does. For a negative duration it fails with `BadParam`,
    /// where blocking is not allowed with `BadContext`. A sleep of no
    /// duration is done at once. Else the running task waits, with a timeout
    /// that expires `duration` from now, and the preemption check runs.
    pub open spec fn sleep(self, duration: Duration) -> (KernelView, Result<Blocking<()>, SleepError>) {
        match spec_time32_from_duration(duration) {
            Err(_) => (self, Err(SleepError::BadParam)),
            Ok(d) => if !self.is_waitable() {
                (self, Err(SleepError::BadContext))
            } else if d == 0 {
                (self, Ok(Blocking::Done(())))
            } else {
                (
                    self.block(
                        None,
                        WaitPayload::Sleep,
                        Some(tick_after(self.sched.now, d)),
                    ).check_preemption(),
                    Ok(Blocking::Blocked),
                )
            },
        }
    }

    /// What `exit_task` does. Where the caller is not the running task, or
    /// the CPU Lock is held, it fails with `BadContext`. Else it takes the
    /// CPU Lock; the running task is Dormant, and nothing runs. The lock
    /// stays held: the port gives it up when it leaves the task's stack for
    /// the dispatcher.
    pub open spec fn exit_task(self) -> (KernelView, Result<(), ExitTaskError>) {
        if !self.is_waitable() {
            (self, Err(ExitTaskError::BadContext))
        } else {
            (KernelView { sched: self.sched.exit_running(), cpu_lock: true, ..self }, Ok(()))
        }
    }

    /// What `take_wait_result` does: it hands the running task the outcome
    /// of its last wait, once.
    pub open spec fn take_wait_result(self) -> (KernelView, Option<WaitOutcome>) {
        if !self.sched.is_running() {
            (self, None)
        } else {
            let r = self.sched.running->Some_0;
            (
                self.with_task(r, TaskCb { wait_result: None, ..self.sched.tasks[r as int] }),
                self.sched.tasks[r as int].wait_result,
            )
        }
    }
}

/// Replacing the control block of a task keeps the kernel's invariant
/// under the conditions of `lemma_update_task_wf`.
pub proof fn lemma_with_task_wf(k: KernelView, t: usize, cb: TaskCb)
    requires
        k.wf(),
        t < k.sched.tasks.len(),
        cb.priority == k.sched.tasks[t as int].priority,
        cb.wait == k.sched.tasks[t as int].wait,
        cb.wait is None,
        cb.st == k.sched.tasks[t as int].st || (k.sched.tasks[t as int].st != TaskSt::Ready
            && k.sched.tasks[t as int].st != TaskSt::Waiting && cb.st != TaskSt::Ready && cb.st
            != TaskSt::Waiting && cb.st != TaskSt::Running),
    ensures
        k.with_task(t, cb).wf(),
{
    lemma_update_task_wf(k.sched, t, cb);
    lemma_sched_change_wf(k, k.with_task(t, cb).sched);
}

impl Task {
    pub fn from_id(id: Id) -> (r: Task)
        ensures
            r.id == id,
    {
        Task { id }
    }

    pub fn id(self) -> (r: Id)
        ensures
            r == self.id,
    {
        self.id
    }

    /// Asks for the task to be started.
    pub fn activate(self, k: &mut Kernel) -> (r: Result<(), ActivateTaskError>)
        requires
            old(k)@.wf(),
        ensures
            (final(k)@, r) == old(k)@.activate_task(self.id),
            final(k)@.wf(),
    {
        if k.cpu_lock {
            return Err(ActivateTaskError::BadContext);
        }
        let t = match index_of_id(self.id, k.sched.tasks.len()) {
            Some(t) => t,
            None => {
                return Err(ActivateTaskError::BadId);
            },
        };
        if k.sched.tasks[t].st != TaskSt::Dormant {
            return Err(ActivateTaskError::QueueOverflow);
        }
        proof {
            assert(k@.sched.tasks[t as int].st == TaskSt::Waiting
                <==> k@.sched.tasks[t as int].wait is Some);
            lemma_with_task_wf(
                k@,
                t,
                TaskCb { st: TaskSt::PendingActivation, ..k@.sched.tasks[t as int] },
            );
        }
        k.sched.tasks[t].st = TaskSt::PendingActivation;
        proof {
            assert(k@.semaphores =~= old(k)@.semaphores);
            assert(k@.event_groups =~= old(k)@.event_groups);
            assert(k@.sched.tasks =~= old(k)@.sched.tasks.update(
                t as int,
                TaskCb { st: TaskSt::PendingActivation, ..old(k)@.sched.tasks[t as int] },
            ));
        }
        k.unlock_cpu_and_check_preemption();
        Ok(())
    }

    /// Ends the task's wait from outside: the waiter gets `Interrupted`.
    pub fn interrupt(self, k: &mut Kernel) -> (r: Result<(), InterruptTaskError>)
        requires
            old(k)@.wf(),
        ensures
            (final(k)@, r) == old(k)@.interrupt_task(self.id),
            final(k)@.wf(),
    {
        if k.cpu_lock {
            return Err(InterruptTaskError::BadContext);
        }
        let t = match index_of_id(self.id, k.sched.tasks.len()) {
            Some(t) => t,
            None => {
                return Err(InterruptTaskError::BadId);
            },
        };
        if k.sched.tasks[t].st != TaskSt::Waiting {
            return Err(InterruptTaskError::BadObjectState);
        }
        k.end_wait(t, Err(WaitTimeoutError::Interrupted));
        k.unlock_cpu_and_check_preemption();
        Ok(())
    }

    /// Gives the task its park token, waking it if it is parked.
    pub fn unpark(self, k: &mut Kernel) -> (r: Result<(), UnparkError>)
        requires
            old(k)@.wf(),
        ensures
            (final(k)@, r) == old(k)@.unpark_task(self.id),
            final(k)@.wf(),
    {
        if k.cpu_lock {
            return Err(UnparkError::BadContext);
        }
        let t = match index_of_id(self.id, k.sched.tasks.len()) {
            Some(t) => t,
            None => {
                return Err(UnparkError::BadId);
            },
        };
        if k.sched.tasks[t].st == TaskSt::Dormant {
            return Err(UnparkError::BadObjectState);
        }
        let parked = match k.sched.tasks[t].wait {
            Some(w) => w.payload == WaitPayload::Park,
            None => false,
        };
        proof {
            assert(k@.sched.tasks[t as int].st == TaskSt::Waiting
                <==> k@.sched.tasks[t as int].wait is Some);
        }
        if parked {
            k.end_wait(t, Ok(WaitPayload::Park));
            k.unlock_cpu_and_check_preemption();
        } else {
            proof {
                if k@.sched.tasks[t as int].wait is None {
                    lemma_with_task_wf(
                        k@,
                        t,
                        TaskCb { park_token: true, ..k@.sched.tasks[t as int] },
                    );
                } else {
                    lemma_park_token_wf(k@, t);
                }
            }
            k.sched.tasks[t].park_token = true;
            proof {
                assert(k@.semaphores =~= old(k)@.semaphores);
                assert(k@.event_groups =~= old(k)@.event_groups);
                assert(k@.sched.tasks =~= old(k)@.sched.tasks.update(
                    t as int,
                    TaskCb { park_token: true, ..old(k)@.sched.tasks[t as int] },
                ));
            }
        }
        Ok(())
    }

    /// The task that runs.
    pub fn current(k: &Kernel) -> (r: Result<Option<Task>, GetCurrentTaskError>)
        requires
            k@.wf(),
        ensures
            r == k@.current_task(),
    {
        if k.cpu_lock || !k.is_task_context() {
            return Err(GetCurrentTaskError::BadContext);
        }
        Ok(
            match k.sched.running_task {
                Some(t) => Some(Task { id: t + 1 }),
                None => None,
            },
        )
    }
}

/// Giving a task its park token keeps the kernel's invariant.
pub proof fn lemma_park_token_wf(k: KernelView, t: usize)
    requires
        k.wf(),
        t < k.sched.tasks.len(),
    ensures
        k.with_task(t, TaskCb { park_token: true, ..k.sched.tasks[t as int] }).wf(),
{
    let cb = TaskCb { park_token: true, ..k.sched.tasks[t as int] };
    let f = k.with_task(t, cb);
    lemma_update_task_wf(k.sched, t, cb);
    assert forall|i: int| 0 <= i < f.semaphores.len() implies (#[trigger] f.semaphores[i]).wf()
        && f.semaphores[i].queue.id == WaitQueueId::Semaphore(i as usize)
        && f.semaphores[i].queue.wf(f.sched.tasks) by {
        assert(k.semaphores[i].wf());
        assert(k.semaphores[i].queue.wf(k.sched.tasks));
    }
    assert forall|i: int| 0 <= i < f.event_groups.len() implies (
    #[trigger] f.event_groups[i]).queue.id == WaitQueueId::EventGroup(i as usize)
        && f.event_groups[i].queue.wf(f.sched.tasks) by {
        assert(k.event_groups[i].queue.wf(k.sched.tasks));
    }
    assert forall|u: int|
        0 <= u < f.sched.tasks.len() && (#[trigger] f.sched.tasks[u]).wait is Some
            && f.sched.tasks[u].wait->Some_0.queue is Some implies f.queued(
        f.sched.tasks[u].wait->Some_0.queue->Some_0,
        u as usize,
    ) by {
        assert(k.sched.tasks[u].wait == f.sched.tasks[u].wait);
        assert(k.queued(k.sched.tasks[u].wait->Some_0.queue->Some_0, u as usize));
    }
    assert forall|j: int| 0 <= j < f.sched.timeouts.len() implies match (
    #[trigger] f.sched.timeouts[j]).owner {
        TimeoutOwner::Timer(i) => i < f.timers.len() && f.timers[i as int].active,
        TimeoutOwner::Task(_) => true,
    } by {
        assert(f.sched.timeouts[j] == k.sched.timeouts[j]);
    }
    assert forall|i: int| 0 <= i < f.timers.len() implies (#[trigger] f.timers[i]).wf() && (
    f.timers[i].active && !is_linked(f.sched.timeouts, TimeoutOwner::Timer(i as usize))
        ==> f.timers[i].delay == BAD_DURATION32) by {
        assert(k.timers[i].wf());
    }
}

impl Kernel {
    /// Waits for the running task's park token, and takes it.
    pub fn park(&mut self) -> (r: Result<Blocking<()>, ParkError>)
        requires
            old(self)@.wf(),
        ensures
            (final(self)@, r) == old(self)@.park(),
            final(self)@.wf(),
    {
        if !self.is_waitable() {
            return Err(ParkError::BadContext);
        }
        let t = self.sched.running_task.unwrap();
        proof {
            assert(self@.sched.tasks[t as int].st == TaskSt::Waiting
                <==> self@.sched.tasks[t as int].wait is Some);
        }
        if self.sched.tasks[t].park_token {
            proof {
                lemma_with_task_wf(
                    self@,
                    t,
                    TaskCb { park_token: false, ..self@.sched.tasks[t as int] },
                );
            }
            self.sched.tasks[t].park_token = false;
            proof {
                assert(self@.semaphores =~= old(self)@.semaphores);
                assert(self@.event_groups =~= old(self)@.event_groups);
                assert(self@.sched.tasks =~= old(self)@.sched.tasks.update(
                    t as int,
                    TaskCb { park_token: false, ..old(self)@.sched.tasks[t as int] },
                ));
            }
            Ok(Blocking::Done(()))
        } else {
            self.block(None, WaitPayload::Park, None);
            self.unlock_cpu_and_check_preemption();
            Ok(Blocking::Blocked)
        }
    }

    /// Makes the running task wait until `duration` has passed.
    pub fn sleep(&mut self, duration: Duration) -> (r: Result<Blocking<()>, SleepError>)
        requires
            old(self)@.wf(),
        ensures
            (final(self)@, r) == old(self)@.sleep(duration),
            final(self)@.wf(),
    {
        let d = match time32_from_duration(duration) {
            Ok(d) => d,
            Err(_) => {
                return Err(SleepError::BadParam);
            },
        };
        if !self.is_waitable() {
            return Err(SleepError::BadContext);
        }
        if d == 0 {
            return Ok(Blocking::Done(()));
        }
        let at = expiration_after(self.sched.now, d);
        self.block(None, WaitPayload::Sleep, Some(at));
        self.unlock_cpu_and_check_preemption();
        Ok(Blocking::Blocked)
    }

    /// Ends the running task. On success the CPU Lock is held, and the
    /// caller hands over to the port, which leaves the task's stack for the
    /// dispatcher and gives the lock up.
    pub fn exit_task(&mut self) -> (r: Result<(), ExitTaskError>)
        requires
            old(self)@.wf(),
        ensures
            (final(self)@, r) == old(self)@.exit_task(),
            final(self)@.wf(),
    {
        if !self.is_waitable() {
            return Err(ExitTaskError::BadContext);
        }
        let t = self.sched.running_task.unwrap();
        proof {
            lemma_exit_running_wf(self@.sched);
            assert(self@.sched.tasks[t as int].st == TaskSt::Waiting
                <==> self@.sched.tasks[t as int].wait is Some);
            lemma_sched_change_wf(self@, self@.sched.exit_running());
        }
        self.sched.tasks[t].st = TaskSt::Dormant;
        self.sched.running_task = None;
        self.cpu_lock = true;
        proof {
            assert(self@.semaphores =~= old(self)@.semaphores);
            assert(self@.event_groups =~= old(self)@.event_groups);
            assert(self@.sched.tasks =~= old(self)@.sched.exit_running().tasks);
        }
        Ok(())
    }

    /// What a task that was parked is told when it runs again.
    pub fn park_result(outcome: WaitOutcome) -> (r: Result<(), ParkError>)
        ensures
            r == match outcome {
                Ok(_) => Ok::<(), ParkError>(()),
                Err(_) => Err(ParkError::Interrupted),
            },
    {
        match outcome {
            Ok(_) => Ok(()),
            Err(_) => Err(ParkError::Interrupted),
        }
    }

    /// What a task that slept is told when it runs again.
    pub fn sleep_result(outcome: WaitOutcome) -> (r: Result<(), SleepError>)
        ensures
            r == match outcome {
                Ok(_) => Ok::<(), SleepError>(()),
                Err(_) => Err(SleepError::Interrupted),
            },
    {
        match outcome {
            Ok(_) => Ok(()),
            Err(_) => Err(SleepError::Interrupted),
        }
    }

    /// Hands the running task the outcome of its last wait. A task that has
    /// been woken calls this when it runs again.
    pub fn take_wait_result(&mut self) -> (r: Option<WaitOutcome>)
        requires
            old(self)@.wf(),
        ensures
            (final(self)@, r) == old(self)@.take_wait_result(),
            final(self)@.wf(),
    {
        if !self.sched.is_running() {
            return None;
        }
        let t = self.sched.running_task.unwrap();
        let r = self.sched.tasks[t].wait_result;
        proof {
            assert(self@.sched.tasks[t as int].st == TaskSt::Waiting
                <==> self@.sched.tasks[t as int].wait is Some);
            lemma_with_task_wf(
                self@,
                t,
                TaskCb { wait_result: None, ..self@.sched.tasks[t as int] },
            );
        }
        self.sched.tasks[t].wait_result = None;
        proof {
            assert(self@.semaphores =~= old(self)@.semaphores);
            assert(self@.event_groups =~= old(self)@.event_groups);
            assert(self@.sched.tasks =~= old(self)@.sched.tasks.update(
                t as int,
                TaskCb { wait_result: None, ..old(self)@.sched.tasks[t as int] },
            ));
        }
        r
    }
}

} // verus!

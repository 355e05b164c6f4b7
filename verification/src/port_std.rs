//! The hosted port: the state that it keeps beside the kernel's, and the
//! decisions that it takes. The threads that stand for tasks and interrupt
//! handlers are the host's; the port decides when one is to be started, to
//! be resumed, or to be left.
use vstd::prelude::*;
use crate::error::{
    ClearInterruptLineError, EnableInterruptLineError, PendInterruptLineError,
    QueryInterruptLineError, SetInterruptLinePriorityError,
};
use crate::interrupt::{
    lemma_most_urgent, spec_is_managed, InterruptControllerView, InterruptNum, InterruptPriority,
    IntLine,
};
use crate::sched::{lemma_launch_pending_wf, lemma_switch_wf};
use crate::kernel::{Kernel, KernelView};
use crate::task::TaskSt;
use crate::time::{spec_tick_count_from_micros, tick_count_from_micros, Time32};

verus! {

/// Names a thread of the host.
pub type ThreadId = usize;

/// What the port knows of the thread behind a task. This is not the state
/// that the kernel keeps of the task.
#[derive(Clone, Copy, PartialEq, Eq, Structural, Debug)]
pub enum Tsm {
    /// The task's context is not initialised.
    Uninit,
    /// The task's context is initialised, and the task has not started to
    /// run.
    Dormant,
    /// The task runs on this thread.
    Running(ThreadId),
}

/// The role of a thread.
#[derive(Clone, Copy, PartialEq, Eq, Structural, Debug)]
pub enum ThreadRole {
    Unknown,
    /// The thread stands for an interrupt handler.
    Interrupt,
    /// The thread stands for a task.
    Task,
}

#[derive(Clone, Copy, PartialEq, Eq, Structural, Debug)]
pub struct TaskState {
    pub tsm: Tsm,
}

impl TaskState {
    pub fn new() -> (r: TaskState)
        ensures
            r.tsm == Tsm::Uninit,
    {
        TaskState { tsm: Tsm::Uninit }
    }
}

/// What the dispatcher tells the host to do.
#[derive(Clone, Copy, PartialEq, Eq, Structural, Debug)]
pub enum DispatchAction {
    /// Start a thread for the task `task`, which calls `entry_point` with
    /// `entry_param`.
    Spawn { task: usize, entry_point: usize, entry_param: usize },
    /// Let this thread go on.
    Resume { thread: ThreadId },
    /// No task is ready: there is nothing to run.
    Idle,
}

/// The state of the hosted port: the kernel, and what the port knows of the
/// thread behind each task.
pub struct State {
    pub kernel: Kernel,
    pub task_states: Vec<TaskState>,
}

/// The port's state as plain data.
pub struct StateView {
    pub kernel: KernelView,
    pub task_states: Seq<TaskState>,
}

impl StateView {
    /// The kernel's invariant holds, and the port knows of one thread state
    /// per task.
    pub open spec fn wf(self) -> bool {
        self.kernel.wf() && self.task_states.len() == self.kernel.sched.tasks.len()
    }

    /// The dispatcher can run: the CPU Lock is not held; no task whose
    /// activation is pending has a thread left over from an earlier run; and
    /// the context of every task that may be chosen is initialised.
    pub open spec fn can_dispatch(self) -> bool {
        &&& !self.kernel.cpu_lock
        &&& forall|t: int|
            0 <= t < self.task_states.len() ==> match (#[trigger] self.kernel.sched.tasks[t]).st {
                TaskSt::PendingActivation => !(self.task_states[t].tsm is Running),
                TaskSt::Ready | TaskSt::Running => self.task_states[t].tsm != Tsm::Uninit,
                _ => true,
            }
    }

    /// The thread states after the contexts of the tasks whose activation
    /// was pending have been initialised.
    pub open spec fn initialized(self) -> Seq<TaskState> {
        Seq::new(
            self.task_states.len(),
            |t: int|
                if self.kernel.sched.tasks[t].st == TaskSt::PendingActivation
                    && self.task_states[t].tsm == Tsm::Uninit {
                    TaskState { tsm: Tsm::Dormant }
                } else {
                    self.task_states[t]
                },
        )
    }

    /// What the dispatcher does: the kernel chooses the task to run, and
    /// the contexts of the tasks that were launched are initialised.
    pub open spec fn dispatch(self) -> StateView {
        StateView { kernel: self.kernel.choose_running_task(), task_states: self.initialized() }
    }

    /// What the host is to do after the dispatcher has run.
    pub open spec fn action(self) -> DispatchAction {
        match self.kernel.sched.running {
            Some(task) => match self.task_states[task as int].tsm {
                Tsm::Running(thread) => DispatchAction::Resume { thread },
                _ => DispatchAction::Spawn {
                    task,
                    entry_point: self.kernel.sched.tasks[task as int].attr.entry_point,
                    entry_param: self.kernel.sched.tasks[task as int].attr.entry_param,
                },
            },
            None => DispatchAction::Idle,
        }
    }

    /// The state in which the interrupt lines are `lines`.
    pub open spec fn with_lines(self, lines: Seq<IntLine>) -> StateView {
        StateView {
            kernel: KernelView {
                interrupts: InterruptControllerView { lines, ..self.kernel.interrupts },
                ..self.kernel
            },
            ..self
        }
    }

    /// The state in which the thread of the task `task` has been left, before
    /// a handler is entered: the task's context is not initialised, the CPU
    /// Lock is not held, and the dispatch line is pended.
    pub open spec fn left(self, task: usize) -> StateView {
        (StateView {
            kernel: KernelView { cpu_lock: false, ..self.kernel },
            task_states: self.task_states.update(task as int, TaskState { tsm: Tsm::Uninit }),
        }).with_lines(
            self.kernel.interrupts.lines.update(
                self.kernel.dispatch_line as int,
                IntLine {
                    pended: true,
                    ..self.kernel.interrupts.lines[self.kernel.dispatch_line as int]
                },
            ),
        )
    }

    /// The state after the handler of the line to serve next has been
    /// entered, if the CPU Lock and what runs allow it.
    pub open spec fn enter_next(self) -> StateView {
        StateView {
            kernel: KernelView {
                interrupts: self.kernel.interrupts.enter_next(self.kernel.cpu_lock),
                ..self.kernel
            },
            ..self
        }
    }

    /// The handler that `enter_next` enters.
    pub open spec fn next_interrupt(self) -> Option<InterruptNum> {
        self.kernel.interrupts.next_interrupt(self.kernel.cpu_lock)
    }
}

impl View for State {
    type V = StateView;

    open spec fn view(&self) -> StateView {
        StateView { kernel: self.kernel@, task_states: self.task_states@ }
    }
}

/// Entering a handler keeps the kernel's invariant.
pub proof fn lemma_enter_next_wf(s: StateView)
    requires
        s.wf(),
    ensures
        s.enter_next().wf(),
{
    lemma_most_urgent(s.kernel.interrupts.lines);
}

impl State {
    /// The port's state around a kernel: no task's context is initialised.
    pub fn new(kernel: Kernel) -> (r: State)
        requires
            kernel@.wf(),
        ensures
            r@.kernel == kernel@,
            r@.task_states == Seq::new(
                kernel@.sched.tasks.len(),
                |t: int| TaskState { tsm: Tsm::Uninit },
            ),
            r@.wf(),
    {
        let mut task_states: Vec<TaskState> = Vec::new();
        let n = kernel.sched.tasks.len();
        let mut i: usize = 0;
        while i < n
            invariant
                i <= n,
                task_states@.len() == i,
                forall|t: int| 0 <= t < i ==> task_states@[t] == (TaskState { tsm: Tsm::Uninit }),
            decreases n - i,
        {
            task_states.push(TaskState::new());
            i += 1;
        }
        let r = State { kernel, task_states };
        proof {
            assert(r@.task_states =~= Seq::new(
                kernel@.sched.tasks.len(),
                |t: int| TaskState { tsm: Tsm::Uninit },
            ));
        }
        r
    }

    /// Enters the handler of the line to serve next, if there is one that
    /// the CPU Lock does not mask and that is more urgent than what runs,
    /// and returns its number.
    pub fn check_preemption_by_interrupt(&mut self) -> (r: Option<InterruptNum>)
        requires
            old(self)@.wf(),
        ensures
            r == old(self)@.next_interrupt(),
            final(self)@ == old(self)@.enter_next(),
            final(self)@.wf(),
    {
        proof {
            lemma_enter_next_wf(self@);
        }
        let r = self.kernel.interrupts.check_preemption_by_interrupt(self.kernel.cpu_lock);
        proof {
            assert(self@.kernel.semaphores =~= old(self)@.kernel.semaphores);
            assert(self@.kernel.event_groups =~= old(self)@.kernel.event_groups);
        }
        r
    }

    /// Ends the boot phase: sets the dispatch line up and pends it, gives
    /// the CPU Lock up, and enters the most urgent handler, which is the
    /// dispatcher unless another line is pending. Returns the line whose
    /// handler was entered.
    pub fn dispatch_first_task(&mut self) -> (r: InterruptNum)
        requires
            old(self)@.wf(),
            !old(self)@.kernel.booted,
            old(self)@.kernel.interrupts.active.len() == 0,
        ensures
            final(self)@ == (StateView {
                kernel: old(self)@.kernel.dispatch_first_task(),
                ..old(self)@
            }).enter_next(),
            Some(r) == (StateView {
                kernel: old(self)@.kernel.dispatch_first_task(),
                ..old(self)@
            }).next_interrupt(),
            final(self)@.wf(),
    {
        self.kernel.dispatch_first_task();
        proof {
            let lines = self@.kernel.interrupts.lines;
            lemma_most_urgent(lines);
            assert(lines[self@.kernel.dispatch_line as int].spec_deliverable());
        }
        let r = self.check_preemption_by_interrupt();
        r.unwrap()
    }

    /// Whether the dispatcher can run.
    pub fn can_dispatch(&self) -> (r: bool)
        requires
            self@.wf(),
        ensures
            r == self@.can_dispatch(),
    {
        if self.kernel.cpu_lock {
            return false;
        }
        let mut t: usize = 0;
        while t < self.task_states.len()
            invariant
                t <= self.task_states.len(),
                self@.wf(),
                forall|u: int|
                    0 <= u < t ==> match (#[trigger] self@.kernel.sched.tasks[u]).st {
                        TaskSt::PendingActivation => !(self@.task_states[u].tsm is Running),
                        TaskSt::Ready | TaskSt::Running => self@.task_states[u].tsm != Tsm::Uninit,
                        _ => true,
                    },
            decreases self.task_states.len() - t,
        {
            let tsm = self.task_states[t].tsm;
            let ok = match self.kernel.sched.tasks[t].st {
                TaskSt::PendingActivation => !matches!(tsm, Tsm::Running(_)),
                TaskSt::Ready | TaskSt::Running => !matches!(tsm, Tsm::Uninit),
                _ => true,
            };
            if !ok {
                assert(!match self@.kernel.sched.tasks[t as int].st {
                    TaskSt::PendingActivation => !(self@.task_states[t as int].tsm is Running),
                    TaskSt::Ready | TaskSt::Running => self@.task_states[t as int].tsm
                        != Tsm::Uninit,
                    _ => true,
                });
                return false;
            }
            t += 1;
        }
        true
    }

    /// Prepares the context of task `task`, so that the task starts at its
    /// entry point when it is first dispatched. The task has no thread left
    /// over from an earlier run.
    pub fn initialize_task_state(&mut self, task: usize)
        requires
            task < old(self)@.task_states.len(),
            !(old(self)@.task_states[task as int].tsm is Running),
        ensures
            final(self)@ == (StateView {
                task_states: old(self)@.task_states.update(
                    task as int,
                    TaskState { tsm: Tsm::Dormant },
                ),
                ..old(self)@
            }),
    {
        match self.task_states[task].tsm {
            Tsm::Dormant => {},
            Tsm::Running(_) => {},
            Tsm::Uninit => {
                self.task_states[task].tsm = Tsm::Dormant;
            },
        }
        proof {
            assert(self@.task_states =~= old(self)@.task_states.update(
                task as int,
                TaskState { tsm: Tsm::Dormant },
            ));
        }
    }

    /// The dispatcher: lets the kernel choose the task to run, initialises
    /// the contexts of the tasks that were launched, and tells the host what
    /// to do.
    pub fn dispatch(&mut self) -> (r: DispatchAction)
        requires
            old(self)@.wf(),
            old(self)@.can_dispatch(),
        ensures
            final(self)@ == old(self)@.dispatch(),
            r == final(self)@.action(),
            final(self)@.wf(),
    {
        let launched = self.kernel.choose_running_task().launched;
        let ghost chosen = self@;
        proof {
            lemma_pending(old(self)@.kernel, old(self)@.kernel.sched.tasks.len() as int);
            lemma_launch_pending_wf(
                old(self)@.kernel.sched,
                old(self)@.kernel.sched.tasks.len() as int,
            );
            lemma_switch_wf(
                old(self)@.kernel.sched.launch_pending(old(self)@.kernel.sched.tasks.len() as int),
            );
        }
        let mut i: usize = 0;
        while i < launched.len()
            invariant
                i <= launched.len(),
                self@.kernel == chosen.kernel,
                self@.task_states.len() == old(self)@.task_states.len(),
                old(self)@.wf(),
                old(self)@.can_dispatch(),
                forall|j: int|
                    0 <= j < launched@.len() ==> (#[trigger] launched@[j]) < old(
                        self,
                    )@.task_states.len() && old(self)@.kernel.sched.tasks[launched@[j] as int].st
                        == TaskSt::PendingActivation,
                forall|t: int|
                    0 <= t < self@.task_states.len() ==> (#[trigger] self@.task_states[t]) == if (
                    exists|j: int| 0 <= j < i && launched@[j] == t) {
                        old(self)@.initialized()[t]
                    } else {
                        old(self)@.task_states[t]
                    },
            decreases launched.len() - i,
        {
            let task = launched[i];
            proof {
                assert(launched@[i as int] == task);
                assert(old(self)@.kernel.sched.tasks[task as int].st == TaskSt::PendingActivation);
                assert(!(old(self)@.task_states[task as int].tsm is Running));
            }
            let ghost before = self@;
            self.initialize_task_state(task);
            proof {
                assert forall|t: int| 0 <= t < self@.task_states.len() implies (
                #[trigger] self@.task_states[t]) == if (exists|j: int|
                    0 <= j < i + 1 && launched@[j] == t) {
                    old(self)@.initialized()[t]
                } else {
                    old(self)@.task_states[t]
                } by {
                    if t == task {
                        assert(launched@[i as int] == t);
                    } else {
                        if exists|j: int| 0 <= j < i + 1 && launched@[j] == t {
                            let j = choose|j: int| 0 <= j < i + 1 && launched@[j] == t;
                            assert(j < i);
                        }
                    }
                }
            }
            i += 1;
        }
        proof {
            assert(self@.task_states =~= old(self)@.initialized()) by {
                assert forall|t: int| 0 <= t < self@.task_states.len() implies self@.task_states[t]
                    == old(self)@.initialized()[t] by {
                    if old(self)@.kernel.sched.tasks[t].st == TaskSt::PendingActivation {
                        lemma_pending_contains(
                            old(self)@.kernel,
                            old(self)@.kernel.sched.tasks.len() as int,
                            t,
                        );
                        let j = choose|j: int| 0 <= j < launched@.len() && launched@[j] == t;
                        assert(0 <= j < i && launched@[j] == t);
                    } else {
                        if exists|j: int| 0 <= j < i && launched@[j] == t {
                            let j = choose|j: int| 0 <= j < i && launched@[j] == t;
                            assert(old(self)@.kernel.sched.tasks[launched@[j] as int].st
                                == TaskSt::PendingActivation);
                        }
                    }
                }
            }
        }
        match self.kernel.sched.running_task {
            Some(task) => match self.task_states[task].tsm {
                Tsm::Running(thread) => DispatchAction::Resume { thread },
                _ => DispatchAction::Spawn {
                    task,
                    entry_point: self.kernel.sched.tasks[task].attr.entry_point,
                    entry_param: self.kernel.sched.tasks[task].attr.entry_param,
                },
            },
            None => DispatchAction::Idle,
        }
    }

    /// Notes that the task `task` now runs on the thread `thread`, which the
    /// host has started for it.
    pub fn task_spawned(&mut self, task: usize, thread: ThreadId)
        requires
            task < old(self)@.task_states.len(),
        ensures
            final(self)@ == (StateView {
                task_states: old(self)@.task_states.update(
                    task as int,
                    TaskState { tsm: Tsm::Running(thread) },
                ),
                ..old(self)@
            }),
    {
        self.task_states[task].tsm = Tsm::Running(thread);
        proof {
            assert(self@.task_states =~= old(self)@.task_states.update(
                task as int,
                TaskState { tsm: Tsm::Running(thread) },
            ));
        }
    }

    /// Asks for a context switch: pends the dispatch line and enters the
    /// most urgent handler. Returns the line whose handler was entered, if
    /// one was. The CPU Lock is not held.
    pub fn yield_cpu(&mut self) -> (r: Option<InterruptNum>)
        requires
            old(self)@.wf(),
            !old(self)@.kernel.cpu_lock,
        ensures
            final(self)@ == old(self)@.with_lines(
                old(self)@.kernel.interrupts.lines.update(
                    old(self)@.kernel.dispatch_line as int,
                    IntLine {
                        pended: true,
                        ..old(self)@.kernel.interrupts.lines[old(self)@.kernel.dispatch_line as int]
                    },
                ),
            ).enter_next(),
            r == old(self)@.with_lines(
                old(self)@.kernel.interrupts.lines.update(
                    old(self)@.kernel.dispatch_line as int,
                    IntLine {
                        pended: true,
                        ..old(self)@.kernel.interrupts.lines[old(self)@.kernel.dispatch_line as int]
                    },
                ),
            ).next_interrupt(),
            final(self)@.wf(),
    {
        let line = self.kernel.dispatch_line;
        self.kernel.interrupts.lines[line].pended = true;
        proof {
            assert(self@.kernel.semaphores =~= old(self)@.kernel.semaphores);
            assert(self@.kernel.event_groups =~= old(self)@.kernel.event_groups);
        }
        self.check_preemption_by_interrupt()
    }

    /// Leaves the thread of the task `task`, which has ended. It is entered
    /// with the CPU Lock held, as `exit_task` leaves it. The task's context
    /// is no longer initialised; the lock is given up; the dispatch line is
    /// pended, and the most urgent handler is entered. Returns the thread
    /// that is to run to its end, and the line whose handler was entered, if
    /// one was.
    pub fn exit_and_dispatch(&mut self, task: usize) -> (r: (ThreadId, Option<InterruptNum>))
        requires
            old(self)@.wf(),
            old(self)@.kernel.booted,
            old(self)@.kernel.cpu_lock,
            task < old(self)@.task_states.len(),
            old(self)@.task_states[task as int].tsm is Running,
        ensures
            r.0 == old(self)@.task_states[task as int].tsm->Running_0,
            r.1 == old(self)@.left(task).next_interrupt(),
            final(self)@ == old(self)@.left(task).enter_next(),
            !final(self)@.kernel.cpu_lock,
            final(self)@.task_states[task as int].tsm == Tsm::Uninit,
            final(self)@.wf(),
    {
        let thread = match self.task_states[task].tsm {
            Tsm::Running(thread) => thread,
            _ => 0,
        };
        self.task_states[task].tsm = Tsm::Uninit;
        self.kernel.cpu_lock = false;
        proof {
            assert(self@.task_states =~= old(self)@.task_states.update(
                task as int,
                TaskState { tsm: Tsm::Uninit },
            ));
            assert(self@.kernel.semaphores =~= old(self)@.kernel.semaphores);
            assert(self@.kernel.event_groups =~= old(self)@.kernel.event_groups);
        }
        let entered = self.yield_cpu();
        (thread, entered)
    }

    /// Takes the CPU Lock, which is not held.
    pub fn enter_cpu_lock(&mut self)
        requires
            old(self)@.wf(),
            !old(self)@.kernel.cpu_lock,
        ensures
            final(self)@ == (StateView {
                kernel: KernelView { cpu_lock: true, ..old(self)@.kernel },
                ..old(self)@
            }),
            final(self)@.wf(),
    {
        self.kernel.cpu_lock = true;
        proof {
            assert(self@.kernel.semaphores =~= old(self)@.kernel.semaphores);
            assert(self@.kernel.event_groups =~= old(self)@.kernel.event_groups);
        }
    }

    /// Gives up the CPU Lock, which is held, and enters the most urgent
    /// handler that was waiting for it. Returns the line whose handler was
    /// entered, if one was.
    pub fn leave_cpu_lock(&mut self) -> (r: Option<InterruptNum>)
        requires
            old(self)@.wf(),
            old(self)@.kernel.cpu_lock,
            old(self)@.kernel.booted,
        ensures
            final(self)@ == (StateView {
                kernel: KernelView { cpu_lock: false, ..old(self)@.kernel },
                ..old(self)@
            }).enter_next(),
            r == (StateView {
                kernel: KernelView { cpu_lock: false, ..old(self)@.kernel },
                ..old(self)@
            }).next_interrupt(),
            final(self)@.wf(),
    {
        self.kernel.cpu_lock = false;
        proof {
            assert(self@.kernel.semaphores =~= old(self)@.kernel.semaphores);
            assert(self@.kernel.event_groups =~= old(self)@.kernel.event_groups);
        }
        self.check_preemption_by_interrupt()
    }

    pub fn is_cpu_lock_active(&self) -> (r: bool)
        ensures
            r == self@.kernel.cpu_lock,
    {
        self.kernel.cpu_lock
    }

    /// Whether a thread of the role `role` stands for an interrupt handler.
    /// The role of the thread is known.
    pub fn is_interrupt_context(&self, role: ThreadRole) -> (r: bool)
        requires
            role != ThreadRole::Unknown,
        ensures
            r == (role == ThreadRole::Interrupt),
    {
        match role {
            ThreadRole::Interrupt => true,
            _ => false,
        }
    }

    /// Sets the priority of an interrupt line, then enters the most urgent
    /// handler, if the change has made one due. `BadParam` for a line that
    /// does not exist and for a priority that is not managed.
    pub fn set_interrupt_line_priority(&mut self, num: InterruptNum, priority: InterruptPriority) -> (r:
        Result<Option<InterruptNum>, SetInterruptLinePriorityError>)
        requires
            old(self)@.wf(),
        ensures
            final(self)@.wf(),
            r is Ok <==> num < old(self)@.kernel.interrupts.lines.len()
                && spec_is_managed(priority),
            r is Err ==> r == Err::<Option<InterruptNum>, _>(
                SetInterruptLinePriorityError::BadParam,
            ) && final(self)@ == old(self)@,
            r is Ok ==> final(self)@ == old(self)@.with_lines(
                old(self)@.kernel.interrupts.lines.update(
                    num as int,
                    IntLine { priority, ..old(self)@.kernel.interrupts.lines[num as int] },
                ),
            ).enter_next() && r->Ok_0 == old(self)@.with_lines(
                old(self)@.kernel.interrupts.lines.update(
                    num as int,
                    IntLine { priority, ..old(self)@.kernel.interrupts.lines[num as int] },
                ),
            ).next_interrupt(),
    {
        match self.kernel.interrupts.set_interrupt_line_priority(num, priority) {
            Ok(()) => {},
            Err(e) => {
                proof {
                    assert(self@.kernel.semaphores =~= old(self)@.kernel.semaphores);
                    assert(self@.kernel.event_groups =~= old(self)@.kernel.event_groups);
                }
                return Err(e);
            },
        }
        proof {
            assert(self@.kernel.semaphores =~= old(self)@.kernel.semaphores);
            assert(self@.kernel.event_groups =~= old(self)@.kernel.event_groups);
        }
        Ok(self.check_preemption_by_interrupt())
    }

    /// Enables an interrupt line, then enters the most urgent handler, if
    /// the change has made one due. `BadParam` for a line that does not
    /// exist.
    pub fn enable_interrupt_line(&mut self, num: InterruptNum) -> (r: Result<
        Option<InterruptNum>,
        EnableInterruptLineError,
    >)
        requires
            old(self)@.wf(),
        ensures
            final(self)@.wf(),
            r is Ok <==> num < old(self)@.kernel.interrupts.lines.len(),
            r is Err ==> r == Err::<Option<InterruptNum>, _>(EnableInterruptLineError::BadParam)
                && final(self)@ == old(self)@,
            r is Ok ==> final(self)@ == old(self)@.with_lines(
                old(self)@.kernel.interrupts.lines.update(
                    num as int,
                    IntLine { enable: true, ..old(self)@.kernel.interrupts.lines[num as int] },
                ),
            ).enter_next() && r->Ok_0 == old(self)@.with_lines(
                old(self)@.kernel.interrupts.lines.update(
                    num as int,
                    IntLine { enable: true, ..old(self)@.kernel.interrupts.lines[num as int] },
                ),
            ).next_interrupt(),
    {
        match self.kernel.interrupts.enable_interrupt_line(num) {
            Ok(()) => {},
            Err(e) => {
                proof {
                    assert(self@.kernel.semaphores =~= old(self)@.kernel.semaphores);
                    assert(self@.kernel.event_groups =~= old(self)@.kernel.event_groups);
                }
                return Err(e);
            },
        }
        proof {
            assert(self@.kernel.semaphores =~= old(self)@.kernel.semaphores);
            assert(self@.kernel.event_groups =~= old(self)@.kernel.event_groups);
        }
        Ok(self.check_preemption_by_interrupt())
    }

    /// Disables an interrupt line. `BadParam` for a line that does not
    /// exist.
    pub fn disable_interrupt_line(&mut self, num: InterruptNum) -> (r: Result<
        (),
        EnableInterruptLineError,
    >)
        requires
            old(self)@.wf(),
        ensures
            final(self)@.wf(),
            r is Ok <==> num < old(self)@.kernel.interrupts.lines.len(),
            r is Err ==> r == Err::<(), _>(EnableInterruptLineError::BadParam) && final(self)@
                == old(self)@,
            r is Ok ==> final(self)@ == old(self)@.with_lines(
                old(self)@.kernel.interrupts.lines.update(
                    num as int,
                    IntLine { enable: false, ..old(self)@.kernel.interrupts.lines[num as int] },
                ),
            ),
    {
        let r = self.kernel.interrupts.disable_interrupt_line(num);
        proof {
            assert(self@.kernel.semaphores =~= old(self)@.kernel.semaphores);
            assert(self@.kernel.event_groups =~= old(self)@.kernel.event_groups);
        }
        r
    }

    /// Pends an interrupt line, then enters the most urgent handler, if the
    /// change has made one due. `BadParam` for a line that does not exist.
    pub fn pend_interrupt_line(&mut self, num: InterruptNum) -> (r: Result<
        Option<InterruptNum>,
        PendInterruptLineError,
    >)
        requires
            old(self)@.wf(),
        ensures
            final(self)@.wf(),
            r is Ok <==> num < old(self)@.kernel.interrupts.lines.len(),
            r is Err ==> r == Err::<Option<InterruptNum>, _>(PendInterruptLineError::BadParam)
                && final(self)@ == old(self)@,
            r is Ok ==> final(self)@ == old(self)@.with_lines(
                old(self)@.kernel.interrupts.lines.update(
                    num as int,
                    IntLine { pended: true, ..old(self)@.kernel.interrupts.lines[num as int] },
                ),
            ).enter_next() && r->Ok_0 == old(self)@.with_lines(
                old(self)@.kernel.interrupts.lines.update(
                    num as int,
                    IntLine { pended: true, ..old(self)@.kernel.interrupts.lines[num as int] },
                ),
            ).next_interrupt(),
    {
        match self.kernel.interrupts.pend_interrupt_line(num) {
            Ok(()) => {},
            Err(e) => {
                proof {
                    assert(self@.kernel.semaphores =~= old(self)@.kernel.semaphores);
                    assert(self@.kernel.event_groups =~= old(self)@.kernel.event_groups);
                }
                return Err(e);
            },
        }
        proof {
            assert(self@.kernel.semaphores =~= old(self)@.kernel.semaphores);
            assert(self@.kernel.event_groups =~= old(self)@.kernel.event_groups);
        }
        Ok(self.check_preemption_by_interrupt())
    }

    /// Clears the pended flag of an interrupt line. `BadParam` for a line
    /// that does not exist.
    pub fn clear_interrupt_line(&mut self, num: InterruptNum) -> (r: Result<
        (),
        ClearInterruptLineError,
    >)
        requires
            old(self)@.wf(),
        ensures
            final(self)@.wf(),
            r is Ok <==> num < old(self)@.kernel.interrupts.lines.len(),
            r is Err ==> r == Err::<(), _>(ClearInterruptLineError::BadParam) && final(self)@
                == old(self)@,
            r is Ok ==> final(self)@ == old(self)@.with_lines(
                old(self)@.kernel.interrupts.lines.update(
                    num as int,
                    IntLine { pended: false, ..old(self)@.kernel.interrupts.lines[num as int] },
                ),
            ),
    {
        let r = self.kernel.interrupts.clear_interrupt_line(num);
        proof {
            assert(self@.kernel.semaphores =~= old(self)@.kernel.semaphores);
            assert(self@.kernel.event_groups =~= old(self)@.kernel.event_groups);
        }
        r
    }

    /// Whether an interrupt line is pended. `BadParam` for a line that does
    /// not exist.
    pub fn is_interrupt_line_pending(&self, num: InterruptNum) -> (r: Result<
        bool,
        QueryInterruptLineError,
    >)
        ensures
            r == if num < self@.kernel.interrupts.lines.len() {
                Ok::<bool, QueryInterruptLineError>(self@.kernel.interrupts.lines[num as int].pended)
            } else {
                Err(QueryInterruptLineError::BadParam)
            },
    {
        self.kernel.interrupts.is_interrupt_line_pending(num)
    }

    /// The tick count `micros` microseconds after the origin of the host's
    /// clock.
    pub fn tick_count(&self, micros: u128) -> (r: Time32)
        ensures
            r == spec_tick_count_from_micros(micros),
    {
        tick_count_from_micros(micros)
    }
}

/// The tasks that `pending` lists are those whose activation is pending.
pub proof fn lemma_pending(k: KernelView, n: int)
    requires
        0 <= n <= k.sched.tasks.len(),
        k.sched.tasks.len() <= usize::MAX,
    ensures
        forall|j: int|
            0 <= j < k.sched.pending(n).len() ==> (#[trigger] k.sched.pending(n)[j]) < n
                && k.sched.tasks[k.sched.pending(n)[j] as int].st == TaskSt::PendingActivation,
    decreases n,
{
    if n > 0 {
        lemma_pending(k, n - 1);
    }
}

/// Every task among the first `n` whose activation is pending is listed by
/// `pending`.
pub proof fn lemma_pending_contains(k: KernelView, n: int, t: int)
    requires
        0 <= t < n <= k.sched.tasks.len(),
        k.sched.tasks.len() <= usize::MAX,
        k.sched.tasks[t].st == TaskSt::PendingActivation,
    ensures
        exists|j: int| 0 <= j < k.sched.pending(n).len() && k.sched.pending(n)[j] == t,
    decreases n,
{
    if t == n - 1 {
        let p = k.sched.pending(n);
        assert(p[p.len() - 1] == t);
    } else {
        lemma_pending_contains(k, n - 1, t);
        let p = k.sched.pending(n - 1);
        let j = choose|j: int| 0 <= j < p.len() && p[j] == t;
        assert(k.sched.pending(n)[j] == t);
    }
}

} // verus!

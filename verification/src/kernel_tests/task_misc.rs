//! Checks the error codes that the operations on tasks return, and a few
//! other properties of task handles.
use vstd::prelude::*;
use crate::cfg::{
    lemma_round_up, CfgBuilder, CfgTaskBuilder, CfgView, StartupHook, StartupHookAttr, STACK_ALIGN,
    STACK_DEFAULT_SIZE,
};
use crate::error::{
    ActivateTaskError, CpuLockError, GetCurrentTaskError, InterruptTaskError, ParkError,
    UnparkError,
};
use crate::kernel::{Kernel, KernelView};
use crate::task::{Task, TaskSt};
use crate::wait::Blocking;

verus! {

/// The places of the startup hook and of the bodies of the three tasks in
/// the application's table of entry functions.
pub const ENTRY_STARTUP_HOOK: usize = 0;

pub const ENTRY_TASK1: usize = 1;

pub const ENTRY_TASK2: usize = 2;

pub const ENTRY_TASK3: usize = 3;

pub struct App {
    pub task1: Task,
    pub task2: Task,
    pub task3: Task,
}

/// The builder for task 1: priority 2, active from the start, parameter 42.
pub open spec fn task1_builder() -> CfgTaskBuilder {
    CfgTaskBuilder {
        start: Some(ENTRY_TASK1),
        param: 42,
        stack: None,
        priority: Some(2),
        active: true,
    }
}

/// The builder for task 2: priority 1.
pub open spec fn task2_builder() -> CfgTaskBuilder {
    CfgTaskBuilder {
        start: Some(ENTRY_TASK2),
        param: 0,
        stack: None,
        priority: Some(1),
        active: false,
    }
}

/// The builder for task 3: priority 1.
pub open spec fn task3_builder() -> CfgTaskBuilder {
    CfgTaskBuilder {
        start: Some(ENTRY_TASK3),
        param: 0,
        stack: None,
        priority: Some(1),
        active: false,
    }
}

/// The configuration after the test case has been added to `c`.
pub open spec fn configured(c: CfgView) -> CfgView {
    task3_builder().finished(
        task2_builder().finished(
            task1_builder().finished(
                CfgView {
                    startup_hooks: c.startup_hooks.push(
                        StartupHookAttr { start: ENTRY_STARTUP_HOOK, param: 0 },
                    ),
                    ..c
                },
            ),
        ),
    )
}

impl App {
    /// Configures the test case: a startup hook and three tasks, of which
    /// the first is active from the start.
    pub fn new(b: &mut CfgBuilder) -> (r: App)
        requires
            old(b)@.startup_hooks.len() < usize::MAX,
            old(b)@.tasks.len() + 3 < usize::MAX,
            old(b)@.hunk_pool_len + 3 * (STACK_ALIGN + STACK_DEFAULT_SIZE) <= usize::MAX,
        ensures
            final(b)@ == configured(old(b)@),
            r.task1.id == old(b)@.tasks.len() + 1,
            r.task2.id == old(b)@.tasks.len() + 2,
            r.task3.id == old(b)@.tasks.len() + 3,
    {
        let _ = StartupHook::build().start(ENTRY_STARTUP_HOOK).finish(b);
        proof {
            lemma_round_up(b@.hunk_pool_len as int, STACK_ALIGN as int);
        }
        let task1 = Task::build().start(ENTRY_TASK1).priority(2).active(true).param(42).finish_in(
            b,
        );
        proof {
            lemma_round_up(b@.hunk_pool_len as int, STACK_ALIGN as int);
        }
        let task2 = Task::build().start(ENTRY_TASK2).priority(1).finish_in(b);
        proof {
            lemma_round_up(b@.hunk_pool_len as int, STACK_ALIGN as int);
        }
        let task3 = Task::build().start(ENTRY_TASK3).priority(1).finish_in(b);
        App { task1, task2, task3 }
    }
}

/// The startup hook: it asks the kernel for the current task, and returns
/// whether the kernel refused with `BadContext`. The kernel does so exactly
/// where the CPU Lock is held or no task's code runs; in the boot phase,
/// where the hook runs, both are so.
pub fn startup_hook(k: &Kernel) -> (ok: bool)
    requires
        k@.wf(),
    ensures
        ok == (k@.current_task() == Err::<Option<Task>, GetCurrentTaskError>(
            GetCurrentTaskError::BadContext,
        )),
        ok == (k@.cpu_lock || !k@.is_task_context()),
        !k@.booted ==> ok,
{
    matches!(Task::current(k), Err(GetCurrentTaskError::BadContext))
}

/// The kernel is in the state in which the body of task 1 starts: the three
/// tasks of the case are the kernel's, task 1 runs, tasks 2 and 3 are
/// Dormant, and no handle with the identifier 42 exists.
pub open spec fn task1_running(k: KernelView, app: App) -> bool {
    &&& k.wf()
    &&& k.is_waitable()
    &&& 1 <= app.task1.id
    &&& app.task2.id == app.task1.id + 1
    &&& app.task3.id == app.task1.id + 2
    &&& app.task3.id <= k.sched.tasks.len() < 42
    &&& k.sched.running == Some((app.task1.id - 1) as usize)
    &&& k.sched.tasks[app.task2.id - 1].st == TaskSt::Dormant
    &&& k.sched.tasks[app.task3.id - 1].st == TaskSt::Dormant
}

/// The state in which the body of task 1 takes the CPU Lock: after its
/// calls for a handle that names no task and for tasks in the wrong state.
pub open spec fn before_lock(k: KernelView, app: App) -> KernelView {
    k.activate_task(42).0.activate_task(app.task1.id).0.interrupt_task(
        app.task2.id,
    ).0.interrupt_task(app.task1.id).0
}

/// The state in which the body of task 1 gives the CPU Lock up: after it
/// has taken the lock and has called `activate`, `interrupt`, `unpark` and
/// `park` with the lock held.
pub open spec fn before_unlock(k: KernelView, app: App) -> KernelView {
    before_lock(k, app).acquire_cpu_lock().0.activate_task(app.task1.id).0.interrupt_task(
        app.task1.id,
    ).0.unpark_task(app.task1.id).0.park().0
}

/// The state that the body of task 1 leaves: after it has given the lock up
/// and has activated task 3.
pub open spec fn after_task1(k: KernelView, app: App) -> KernelView {
    before_unlock(k, app).release_cpu_lock().0.activate_task(app.task3.id).0
}

/// Whether the calls that the body of task 1 makes without the CPU Lock
/// return what they should: `BadId` for a handle that names no task,
/// `QueueOverflow` for the activation of a task that is active,
/// `BadObjectState` for the interruption of a task that is Dormant and of
/// one that is Running, and task 1 as the current task.
pub open spec fn unlocked_checks_pass(k: KernelView, app: App) -> bool {
    let a = k.activate_task(42);
    let b = a.0.activate_task(app.task1.id);
    let c = b.0.interrupt_task(app.task2.id);
    let d = c.0.interrupt_task(app.task1.id);
    &&& a.1 == Err::<(), ActivateTaskError>(ActivateTaskError::BadId)
    &&& b.1 == Err::<(), ActivateTaskError>(ActivateTaskError::QueueOverflow)
    &&& c.1 == Err::<(), InterruptTaskError>(InterruptTaskError::BadObjectState)
    &&& d.1 == Err::<(), InterruptTaskError>(InterruptTaskError::BadObjectState)
    &&& d.0.current_task() == Ok::<Option<Task>, GetCurrentTaskError>(Some(app.task1))
}

/// Whether the calls that the body of task 1 makes around and under the
/// CPU Lock return what they should: the lock is taken; with it held,
/// `activate`, `interrupt`, `unpark` and `park` each return `BadContext`;
/// and the lock is given up.
pub open spec fn locked_checks_pass(k: KernelView, app: App) -> bool {
    let e = before_lock(k, app).acquire_cpu_lock();
    let f = e.0.activate_task(app.task1.id);
    let g = f.0.interrupt_task(app.task1.id);
    let h = g.0.unpark_task(app.task1.id);
    let i = h.0.park();
    let j = i.0.release_cpu_lock();
    &&& e.1 == Ok::<(), CpuLockError>(())
    &&& f.1 == Err::<(), ActivateTaskError>(ActivateTaskError::BadContext)
    &&& g.1 == Err::<(), InterruptTaskError>(InterruptTaskError::BadContext)
    &&& h.1 == Err::<(), UnparkError>(UnparkError::BadContext)
    &&& i.1 == Err::<Blocking<()>, ParkError>(ParkError::BadContext)
    &&& j.1 == Ok::<(), CpuLockError>(())
}

/// Whether every check of the body of task 1 passes: its parameter is 42,
/// the handles to tasks 1 and 2 differ, every call returns what it should,
/// and the activation of task 3 succeeds.
pub open spec fn checks_pass(k: KernelView, app: App, param: usize) -> bool {
    &&& param == 42
    &&& app.task1 != app.task2
    &&& unlocked_checks_pass(k, app)
    &&& locked_checks_pass(k, app)
    &&& before_unlock(k, app).release_cpu_lock().0.activate_task(app.task3.id).1 == Ok::<
        (),
        ActivateTaskError,
    >(())
}

/// The body of task 1. It compares handles and their hashes, then calls the
/// operations on tasks where they have to fail: for a handle that names no
/// task, for tasks in the wrong state, and, between taking the CPU Lock and
/// giving it up, with the lock held. Last it activates task 3. It makes
/// every call, whatever the calls before it returned, and returns whether
/// every check passed. The kernel is left as the calls leave it.
///
/// In the state in which the body of task 1 starts, with the parameter 42,
/// every check passes; the kernel is then as it was, but for the preemption
/// check that giving up the CPU Lock brings, and for task 3, whose
/// activation is pending.
pub fn task1_body(k: &mut Kernel, app: &App, param: usize) -> (ok: bool)
    requires
        old(k)@.wf(),
    ensures
        ok == checks_pass(old(k)@, *app, param),
        final(k)@ == after_task1(old(k)@, *app),
        final(k)@.wf(),
        task1_running(old(k)@, *app) && param == 42 ==> {
            &&& ok
            &&& final(k)@ == old(k)@.check_preemption().activate_task(app.task3.id).0
            &&& final(k)@.sched.tasks[app.task3.id - 1].st == TaskSt::PendingActivation
            &&& final(k)@.sched.running == old(k)@.sched.running
        },
{
    // Handles compare by the task they name.
    let differ = app.task1 != app.task2;
    let same = app.task1 == app.task1 && app.task2 == app.task2;

    // Handles to the same task have the same hash.
    let same_hash = app.task1.hash_with_seed(42) == app.task1.hash_with_seed(42)
        && app.task2.hash_with_seed(42) == app.task2.hash_with_seed(42);

    // A handle that names no task.
    let bad_task = Task::from_id(42);
    let no_task = bad_task.activate(k);

    // The task is active already.
    let active = app.task1.activate(k);

    // The task is Dormant.
    let dormant = app.task2.interrupt(k);

    // The task is Running.
    let running = app.task1.interrupt(k);

    // The current task.
    let current = Task::current(k);

    // With the CPU Lock held.
    let acquired = k.acquire_cpu_lock();
    let locked_activate = app.task1.activate(k);
    let locked_interrupt = app.task1.interrupt(k);
    let locked_unpark = app.task1.unpark(k);
    let locked_park = k.park();
    let released = k.release_cpu_lock();

    // On to the body of task 3.
    let next = app.task3.activate(k);

    param == 42 && differ && same && same_hash
        && matches!(no_task, Err(ActivateTaskError::BadId))
        && matches!(active, Err(ActivateTaskError::QueueOverflow))
        && matches!(dormant, Err(InterruptTaskError::BadObjectState))
        && matches!(running, Err(InterruptTaskError::BadObjectState))
        && matches!(current, Ok(Some(t)) if t == app.task1)
        && matches!(acquired, Ok(()))
        && matches!(locked_activate, Err(ActivateTaskError::BadContext))
        && matches!(locked_interrupt, Err(InterruptTaskError::BadContext))
        && matches!(locked_unpark, Err(UnparkError::BadContext))
        && matches!(locked_park, Err(ParkError::BadContext))
        && matches!(released, Ok(()))
        && matches!(next, Ok(()))
}

/// The kernel is in the state in which the body of task 3 runs: in a
/// task, without the CPU Lock, and the task that `running` names is the one
/// that the handle `task3` names.
pub open spec fn task3_running(k: KernelView, app: App) -> bool {
    &&& !k.cpu_lock
    &&& k.is_task_context()
    &&& k.sched.running matches Some(t) && t + 1 == app.task3.id
}

/// The body of task 3: it asks the kernel for the current task, and returns
/// whether the kernel named task 3. The kernel does so exactly in the state
/// in which the body of task 3 runs.
pub fn task3_body(k: &Kernel, app: &App) -> (ok: bool)
    requires
        k@.wf(),
    ensures
        ok == (k@.current_task() == Ok::<Option<Task>, GetCurrentTaskError>(Some(app.task3))),
        ok == task3_running(k@, *app),
{
    matches!(Task::current(k), Ok(Some(t)) if t == app.task3)
}

} // verus!

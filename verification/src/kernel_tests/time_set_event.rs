//! Checks that setting the system time leaves the arrival of timeouts
//! where it was, relative to the moment of the call.
use vstd::prelude::*;
use crate::cfg::{
    cfg_new_hunk, lemma_round_up, CfgBuilder, CfgTaskBuilder, CfgView, Hunk, HunkInitAttr,
    STACK_ALIGN, STACK_DEFAULT_SIZE,
};
use crate::error::{SleepError, TimeError};
use crate::kernel::{Kernel, KernelView};
use crate::task::{Task, TaskSt, WaitOutcome};
use crate::time::{tick_after, Duration, Time64};
use crate::timeout::{Timeout, TimeoutOwner};
use crate::wait::{Blocking, Wait, WaitPayload};

verus! {

/// The places of the bodies of the three tasks in the application's table
/// of entry functions.
pub const ENTRY_TASK1: usize = 1;

pub const ENTRY_TASK2: usize = 2;

pub const ENTRY_TASK3: usize = 3;

/// The size and the alignment of the sequence tracker: one counter of the
/// machine's word size.
pub const SEQ_TRACKER_SIZE: usize = 8;

/// Tells how far a test has come: each step of the test expects the value
/// that the step before it left.
pub struct SeqTracker {
    pub counter: usize,
}

impl SeqTracker {
    pub fn new() -> (r: SeqTracker)
        ensures
            r.counter == 0,
    {
        SeqTracker { counter: 0 }
    }

    pub fn get(&self) -> (r: usize)
        ensures
            r == self.counter,
    {
        self.counter
    }

    /// Moves on from `expected` to `new`, and tells whether the tracker was
    /// at `expected`. Where it was not, it stays where it is.
    pub fn expect_and_replace(&mut self, expected: usize, new: usize) -> (r: bool)
        ensures
            r == (old(self).counter == expected),
            final(self).counter == if r {
                new
            } else {
                old(self).counter
            },
    {
        if self.counter == expected {
            self.counter = new;
            true
        } else {
            false
        }
    }
}

pub struct App {
    pub task2: Task,
    pub task3: Task,
    pub seq: Hunk,
}

/// The builder for a task of the case: its entry point, its priority, and
/// whether it is active from the start.
pub open spec fn task_builder(start: usize, priority: usize, active: bool) -> CfgTaskBuilder {
    CfgTaskBuilder { start: Some(start), param: 0, stack: None, priority: Some(priority), active }
}

/// The configuration after the three tasks of the test case have been added
/// to `c`.
pub open spec fn with_tasks(c: CfgView) -> CfgView {
    task_builder(ENTRY_TASK3, 2, false).finished(
        task_builder(ENTRY_TASK2, 1, false).finished(
            task_builder(ENTRY_TASK1, 3, true).finished(c),
        ),
    )
}

/// The configuration after the test case has been added to `c`.
pub open spec fn configured(c: CfgView) -> CfgView {
    let t = with_tasks(c);
    CfgView {
        hunks: t.hunks.push(
            HunkInitAttr {
                offset: t.next_hunk(SEQ_TRACKER_SIZE, SEQ_TRACKER_SIZE).start,
                len: SEQ_TRACKER_SIZE,
            },
        ),
        ..t.with_hunk(SEQ_TRACKER_SIZE, SEQ_TRACKER_SIZE)
    }
}

impl App {
    /// Configures the test case: three tasks, of which the first is active
    /// from the start and the least urgent, and a hunk for the sequence
    /// tracker.
    pub fn new(b: &mut CfgBuilder) -> (r: App)
        requires
            old(b)@.tasks.len() + 3 < usize::MAX,
            old(b)@.hunk_pool_len + 3 * (STACK_ALIGN + STACK_DEFAULT_SIZE) + 2 * SEQ_TRACKER_SIZE
                <= usize::MAX,
        ensures
            final(b)@ == configured(old(b)@),
            r.task2.id == old(b)@.tasks.len() + 2,
            r.task3.id == old(b)@.tasks.len() + 3,
            r.seq == with_tasks(old(b)@).next_hunk(SEQ_TRACKER_SIZE, SEQ_TRACKER_SIZE),
    {
        proof {
            lemma_round_up(b@.hunk_pool_len as int, STACK_ALIGN as int);
        }
        let _ = Task::build().start(ENTRY_TASK1).priority(3).active(true).finish_in(b);
        proof {
            lemma_round_up(b@.hunk_pool_len as int, STACK_ALIGN as int);
        }
        let task2 = Task::build().start(ENTRY_TASK2).priority(1).finish_in(b);
        proof {
            lemma_round_up(b@.hunk_pool_len as int, STACK_ALIGN as int);
        }
        let task3 = Task::build().start(ENTRY_TASK3).priority(2).finish_in(b);
        proof {
            lemma_round_up(b@.hunk_pool_len as int, STACK_ALIGN as int);
        }
        let mut cfg = CfgBuilder::new();
        core::mem::swap(b, &mut cfg);
        let out = cfg_new_hunk(cfg, SEQ_TRACKER_SIZE, SEQ_TRACKER_SIZE);
        let mut cfg = out.cfg;
        core::mem::swap(b, &mut cfg);
        App { task2, task3, seq: out.id_map }
    }
}

/// For how long task 2 sleeps, in microseconds: 300 ms.
pub const SLEEP_TASK2: i32 = 300_000;

/// For how long task 3 sleeps, in microseconds: 100 ms.
pub const SLEEP_TASK3: i32 = 100_000;

/// The system time that task 1 sets while the two others sleep, in
/// microseconds: 300 ms.
pub const NEW_TIME: Time64 = 300_000;

/// Where the tracker stands after a step that expects `expected` and
/// leaves `new`, where it stood at `counter` before.
pub open spec fn stepped(counter: usize, expected: usize, new: usize) -> usize {
    if counter == expected {
        new
    } else {
        counter
    }
}

/// Whether the system time `time` lies within the milliseconds from `from`
/// up to, but not including, `to`.
pub open spec fn spec_in_ms_range(time: Result<Time64, TimeError>, from: u64, to: u64) -> bool {
    time matches Ok(t) && from * 1000 <= t < to * 1000
}

/// Whether the system time `time`, in whole milliseconds, lies within the
/// range from `from` up to, but not including, `to`.
pub fn in_ms_range(time: Result<Time64, TimeError>, from: u64, to: u64) -> (r: bool)
    requires
        to * 1000 <= u64::MAX,
    ensures
        r == spec_in_ms_range(time, from, to),
{
    match time {
        Ok(t) => {
            let ms = t / 1000;
            from <= ms && ms < to
        },
        Err(_) => false,
    }
}

/// The first step of the body of task 1, up to where task 2 takes over:
/// the tracker goes from 0 to 1, the system time is set to zero, and task 2
/// is activated. Returns whether the tracker stood at 0 and both calls
/// succeeded. The kernel is left as the two calls leave it.
pub fn task1_body_start(k: &mut Kernel, app: &App, seq: &mut SeqTracker) -> (ok: bool)
    requires
        old(k)@.wf(),
    ensures
        ok == (old(seq).counter == 0 && old(k)@.set_time(0).1 is Ok && old(k)@.set_time(
            0,
        ).0.activate_task(app.task2.id).1 is Ok),
        final(k)@ == old(k)@.set_time(0).0.activate_task(app.task2.id).0,
        final(seq).counter == stepped(old(seq).counter, 0, 1),
        final(k)@.wf(),
{
    let moved = seq.expect_and_replace(0, 1);
    let set = k.set_time(0);
    let activated = app.task2.activate(k);
    moved && matches!(set, Ok(())) && matches!(activated, Ok(()))
}

/// The second step of the body of task 1, which it takes when task 2
/// sleeps: task 3 is activated. Returns whether the call succeeded.
pub fn task1_body_activate_task3(k: &mut Kernel, app: &App) -> (ok: bool)
    requires
        old(k)@.wf(),
    ensures
        ok == (old(k)@.activate_task(app.task3.id).1 is Ok),
        final(k)@ == old(k)@.activate_task(app.task3.id).0,
        final(k)@.wf(),
{
    let activated = app.task3.activate(k);
    matches!(activated, Ok(()))
}

/// The last step of the body of task 1, which it takes when tasks 2 and 3
/// both sleep: the tracker goes from 3 to 4, the system time is set to
/// `NEW_TIME`, and the tracker goes from 4 to 5. Returns whether the
/// tracker stood at 3 and the call succeeded.
///
/// The call changes the system time and nothing else. Every timeout is
/// linked as before, with the same expiration and in the same order, and
/// the kernel's tick is as before: what was due is due, what was not is
/// not, and what is left of each delay is left of it still.
pub fn task1_body_set_time(k: &mut Kernel, seq: &mut SeqTracker) -> (ok: bool)
    requires
        old(k)@.wf(),
    ensures
        ok == (old(seq).counter == 3 && old(k)@.set_time(NEW_TIME).1 is Ok),
        final(k)@ == old(k)@.set_time(NEW_TIME).0,
        final(seq).counter == stepped(stepped(old(seq).counter, 3, 4), 4, 5),
        final(k)@ == (KernelView { sys_time: final(k)@.sys_time, ..old(k)@ }),
        final(k)@.sched.timeouts == old(k)@.sched.timeouts,
        final(k)@.sched.now == old(k)@.sched.now,
        ok ==> final(k)@.sys_time == NEW_TIME && final(seq).counter == 5,
        final(k)@.wf(),
{
    let before = seq.expect_and_replace(3, 4);
    let set = k.set_time(NEW_TIME);
    let after = seq.expect_and_replace(4, 5);
    before && matches!(set, Ok(())) && after
}

/// What the running task waits for while it sleeps.
pub open spec fn sleeping() -> Wait {
    Wait { queue: None, payload: WaitPayload::Sleep }
}

/// The first step of the body of a task that sleeps: the tracker goes from
/// `expected` to `new`, and the task goes to sleep for `micros`
/// microseconds. Returns whether the tracker stood at `expected` and the
/// task now sleeps. The kernel is left as `sleep` leaves it.
///
/// Where blocking is allowed and `micros` is above zero, the task does
/// sleep: it is Waiting, in no wait queue, and its timeout is linked last,
/// to expire `micros` ticks from now.
fn sleeper_start(k: &mut Kernel, seq: &mut SeqTracker, expected: usize, new: usize, micros: i32) -> (ok:
    bool)
    requires
        old(k)@.wf(),
    ensures
        ok == (old(seq).counter == expected && old(k)@.sleep(Duration { micros }).1 == Ok::<
            Blocking<()>,
            SleepError,
        >(Blocking::Blocked)),
        final(k)@ == old(k)@.sleep(Duration { micros }).0,
        final(seq).counter == stepped(old(seq).counter, expected, new),
        final(k)@.wf(),
        old(k)@.is_waitable() && micros > 0 ==> {
            let r = old(k)@.sched.running->Some_0;
            &&& ok == (old(seq).counter == expected)
            &&& final(k)@.sched.tasks[r as int].st == TaskSt::Waiting
            &&& final(k)@.sched.tasks[r as int].wait == Some(sleeping())
            &&& final(k)@.sched.timeouts == old(k)@.sched.timeouts.push(
                Timeout {
                    at: tick_after(old(k)@.sched.now, micros as u32),
                    owner: TimeoutOwner::Task(r),
                },
            )
        },
{
    let moved = seq.expect_and_replace(expected, new);
    let slept = k.sleep(Duration::from_micros(micros));
    moved && matches!(slept, Ok(Blocking::Blocked))
}

/// Whether a sleep that ended with `outcome` ended as it should: by the
/// passing of its time.
pub open spec fn slept_well(outcome: Option<WaitOutcome>) -> bool {
    outcome matches Some(Ok(_))
}

/// The second step of the body of a task that sleeps, which it takes when
/// it runs again: it takes note of how its sleep ended, the tracker goes
/// from `expected` to `new`, and the system time is read. Returns whether
/// the tracker stood at `expected`, the sleep ended by the passing of its
/// time, and the system time lies within the milliseconds from `from` up
/// to, but not including, `to`. The kernel is left as `take_wait_result`
/// leaves it.
fn sleeper_woken(
    k: &mut Kernel,
    seq: &mut SeqTracker,
    expected: usize,
    new: usize,
    from: u64,
    to: u64,
) -> (ok: bool)
    requires
        old(k)@.wf(),
        to * 1000 <= u64::MAX,
    ensures
        ok == (old(seq).counter == expected && slept_well(old(k)@.take_wait_result().1)
            && spec_in_ms_range(old(k)@.time(), from, to)),
        final(k)@ == old(k)@.take_wait_result().0,
        final(seq).counter == stepped(old(seq).counter, expected, new),
        final(k)@.wf(),
{
    let outcome = k.take_wait_result();
    let moved = seq.expect_and_replace(expected, new);
    let time = k.time();
    moved && matches!(outcome, Some(Ok(_))) && in_ms_range(time, from, to)
}

/// The body of task 2 up to its sleep: the tracker goes from 1 to 2, and
/// the task goes to sleep for 300 ms. Returns whether the tracker stood at
/// 1 and the task now sleeps.
pub fn task2_body_sleep(k: &mut Kernel, seq: &mut SeqTracker) -> (ok: bool)
    requires
        old(k)@.wf(),
    ensures
        ok == (old(seq).counter == 1 && old(k)@.sleep(Duration { micros: SLEEP_TASK2 }).1 == Ok::<
            Blocking<()>,
            SleepError,
        >(Blocking::Blocked)),
        final(k)@ == old(k)@.sleep(Duration { micros: SLEEP_TASK2 }).0,
        final(seq).counter == stepped(old(seq).counter, 1, 2),
        final(k)@.wf(),
        old(k)@.is_waitable() ==> {
            let r = old(k)@.sched.running->Some_0;
            &&& ok == (old(seq).counter == 1)
            &&& final(k)@.sched.tasks[r as int].st == TaskSt::Waiting
            &&& final(k)@.sched.timeouts == old(k)@.sched.timeouts.push(
                Timeout {
                    at: tick_after(old(k)@.sched.now, SLEEP_TASK2 as u32),
                    owner: TimeoutOwner::Task(r),
                },
            )
        },
{
    sleeper_start(k, seq, 1, 2, SLEEP_TASK2)
}

/// The body of task 2 from its wake-up on: the tracker goes from 6 to 7,
/// and the sleep, which began at the system time 0 ms, has ended near
/// 600 ms. Returns whether the tracker stood at 6, the sleep ended by the
/// passing of its time, and the system time is at least 550 ms and less
/// than 700 ms.
pub fn task2_body_woken(k: &mut Kernel, seq: &mut SeqTracker) -> (ok: bool)
    requires
        old(k)@.wf(),
    ensures
        ok == (old(seq).counter == 6 && slept_well(old(k)@.take_wait_result().1)
            && spec_in_ms_range(old(k)@.time(), 550, 700)),
        final(k)@ == old(k)@.take_wait_result().0,
        final(seq).counter == stepped(old(seq).counter, 6, 7),
        final(k)@.wf(),
{
    sleeper_woken(k, seq, 6, 7, 550, 700)
}

/// The body of task 3 up to its sleep: the tracker goes from 2 to 3, and
/// the task goes to sleep for 100 ms. Returns whether the tracker stood at
/// 2 and the task now sleeps.
pub fn task3_body_sleep(k: &mut Kernel, seq: &mut SeqTracker) -> (ok: bool)
    requires
        old(k)@.wf(),
    ensures
        ok == (old(seq).counter == 2 && old(k)@.sleep(Duration { micros: SLEEP_TASK3 }).1 == Ok::<
            Blocking<()>,
            SleepError,
        >(Blocking::Blocked)),
        final(k)@ == old(k)@.sleep(Duration { micros: SLEEP_TASK3 }).0,
        final(seq).counter == stepped(old(seq).counter, 2, 3),
        final(k)@.wf(),
        old(k)@.is_waitable() ==> {
            let r = old(k)@.sched.running->Some_0;
            &&& ok == (old(seq).counter == 2)
            &&& final(k)@.sched.tasks[r as int].st == TaskSt::Waiting
            &&& final(k)@.sched.timeouts == old(k)@.sched.timeouts.push(
                Timeout {
                    at: tick_after(old(k)@.sched.now, SLEEP_TASK3 as u32),
                    owner: TimeoutOwner::Task(r),
                },
            )
        },
{
    sleeper_start(k, seq, 2, 3, SLEEP_TASK3)
}

/// The body of task 3 from its wake-up on: the tracker goes from 5 to 6,
/// and the sleep, which began at the system time 0 ms, has ended near
/// 400 ms. Returns whether the tracker stood at 5, the sleep ended by the
/// passing of its time, and the system time is at least 350 ms and less
/// than 500 ms.
pub fn task3_body_woken(k: &mut Kernel, seq: &mut SeqTracker) -> (ok: bool)
    requires
        old(k)@.wf(),
    ensures
        ok == (old(seq).counter == 5 && slept_well(old(k)@.take_wait_result().1)
            && spec_in_ms_range(old(k)@.time(), 350, 500)),
        final(k)@ == old(k)@.take_wait_result().0,
        final(seq).counter == stepped(old(seq).counter, 5, 6),
        final(k)@.wf(),
{
    sleeper_woken(k, seq, 5, 6, 350, 500)
}

} // verus!

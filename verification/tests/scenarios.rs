//! End-to-end runs of the kernel state machine.
use constance::cfg::{CfgBuilder, CfgTaskBuilder, EventGroupDescriptor, SemaphoreDescriptor};
use constance::error::{ActivateTaskError, ParkError, PollSemaphoreError, SignalSemaphoreError};
use constance::event_group::EventGroup;
use constance::kernel::Kernel;
use constance::semaphore::Semaphore;
use constance::task::{Task, TaskSt};
use constance::wait::{Blocking, EventGroupWaitFlags, QueueOrder, WaitPayload};

/// Enters the dispatcher if the dispatch line is pending, and returns the
/// task that runs afterwards.
fn dispatch(k: &mut Kernel) -> Option<usize> {
    let cpu_lock = k.cpu_lock;
    if let Some(line) = k.interrupts.check_preemption_by_interrupt(cpu_lock) {
        assert_eq!(line, k.dispatch_line);
        k.choose_running_task();
        k.interrupts.return_from_interrupt();
    }
    k.running_task()
}

/// Ends the running task, and gives up the CPU Lock as the port does when
/// it leaves the task's stack.
fn exit_task(k: &mut Kernel) {
    assert_eq!(k.exit_task(), Ok(()));
    assert!(k.has_cpu_lock());
    assert_eq!(k.running_task(), None);
    assert_eq!(k.release_cpu_lock(), Ok(()));
}

fn three_tasks(first: usize, second: usize, third: usize) -> (CfgBuilder, Task, Task, Task) {
    let mut b = CfgBuilder::new();
    let t1 = CfgTaskBuilder::new().start(1).priority(first).active(true).finish_in(&mut b);
    let t2 = CfgTaskBuilder::new().start(2).priority(second).finish_in(&mut b);
    let t3 = CfgTaskBuilder::new().start(3).priority(third).finish_in(&mut b);
    (b, t1, t2, t3)
}

fn booted(b: &CfgBuilder) -> Kernel {
    assert!(b.validate());
    let mut k = b.build(4, 0);
    k.boot();
    k.dispatch_first_task();
    k
}

#[test]
fn priority_preemption() {
    let (b, _t1, t2, _t3) = three_tasks(3, 1, 2);
    let mut k = booted(&b);
    assert_eq!(dispatch(&mut k), Some(0));
    assert_eq!(k.sched.tasks[0].st, TaskSt::Running);

    // Task 1 activates task 2, which is more urgent and runs at once.
    assert_eq!(t2.activate(&mut k), Ok(()));
    assert_eq!(dispatch(&mut k), Some(1));
    assert_eq!(k.sched.tasks[1].st, TaskSt::Running);
    assert_eq!(k.sched.tasks[0].st, TaskSt::Ready);

    // Task 1 resumes only after task 2 has returned.
    assert_eq!(dispatch(&mut k), Some(1));
    exit_task(&mut k);
    assert_eq!(dispatch(&mut k), Some(0));
    assert_eq!(k.sched.tasks[0].st, TaskSt::Running);
    assert_eq!(k.sched.tasks[1].st, TaskSt::Dormant);
}

#[test]
fn semaphore_handoff() {
    let mut b = CfgBuilder::new();
    let _hi = CfgTaskBuilder::new().start(1).priority(1).active(true).finish_in(&mut b);
    let _lo = CfgTaskBuilder::new().start(2).priority(2).active(true).finish_in(&mut b);
    b.semaphores.push(SemaphoreDescriptor {
        initial: 0,
        maximum: 1,
        queue_order: QueueOrder::TaskPriority,
    });
    let s = Semaphore::from_id(1);
    let mut k = booted(&b);

    assert_eq!(dispatch(&mut k), Some(0));
    assert_eq!(s.wait_one(&mut k), Ok(Blocking::Blocked));
    assert_eq!(k.sched.tasks[0].st, TaskSt::Waiting);
    assert_eq!(dispatch(&mut k), Some(1));

    assert_eq!(s.signal_one(&mut k), Ok(()));
    assert_eq!(k.sched.tasks[0].st, TaskSt::Ready);
    assert_eq!(dispatch(&mut k), Some(0));
    assert_eq!(k.take_wait_result(), Some(Ok(WaitPayload::SemaphorePermit)));
    assert_eq!(s.get(&k), Ok(0));
    assert_eq!(k.sched.tasks[1].st, TaskSt::Ready);
}

#[test]
fn event_group_any_bits_with_auto_clear() {
    let mut b = CfgBuilder::new();
    let _w = CfgTaskBuilder::new().start(1).priority(1).active(true).finish_in(&mut b);
    let _s = CfgTaskBuilder::new().start(2).priority(2).active(true).finish_in(&mut b);
    b.event_groups.push(EventGroupDescriptor { initial: 0, queue_order: QueueOrder::Fifo });
    let g = EventGroup::from_id(1);
    let mut k = booted(&b);

    assert_eq!(dispatch(&mut k), Some(0));
    let flags = EventGroupWaitFlags { all: false, clear: true };
    assert_eq!(g.wait(&mut k, 0b0110, flags), Ok(Blocking::Blocked));
    assert_eq!(dispatch(&mut k), Some(1));

    assert_eq!(g.set(&mut k, 0b0100), Ok(()));
    assert_eq!(g.get(&k), Ok(0b0000));
    assert_eq!(dispatch(&mut k), Some(0));
    let outcome = k.take_wait_result().unwrap();
    assert_eq!(EventGroup::wait_result(outcome), Ok(0b0100));
}

#[test]
fn cpu_lock_illegality() {
    let (b, t1, t2, _t3) = three_tasks(2, 1, 1);
    let mut k = booted(&b);
    assert_eq!(dispatch(&mut k), Some(0));

    assert_eq!(k.acquire_cpu_lock(), Ok(()));
    assert_eq!(k.park(), Err(ParkError::BadContext));
    assert_eq!(t1.activate(&mut k), Err(ActivateTaskError::BadContext));
    assert_eq!(t2.activate(&mut k), Err(ActivateTaskError::BadContext));
    assert_eq!(k.release_cpu_lock(), Ok(()));
    assert_eq!(k.park(), Ok(Blocking::Blocked));
    assert_eq!(k.sched.tasks[0].st, TaskSt::Waiting);
}

#[test]
fn semaphore_at_its_bounds() {
    let mut b = CfgBuilder::new();
    let _t = CfgTaskBuilder::new().start(1).priority(1).active(true).finish_in(&mut b);
    b.semaphores.push(SemaphoreDescriptor {
        initial: 2,
        maximum: 2,
        queue_order: QueueOrder::Fifo,
    });
    let s = Semaphore::from_id(1);
    let mut k = booted(&b);
    assert_eq!(dispatch(&mut k), Some(0));

    assert_eq!(s.signal(&mut k, 1), Err(SignalSemaphoreError::QueueOverflow));
    assert_eq!(s.get(&k), Ok(2));
    assert_eq!(s.drain(&mut k), Ok(()));
    assert_eq!(s.get(&k), Ok(0));
    assert_eq!(s.drain(&mut k), Ok(()));
    assert_eq!(s.get(&k), Ok(0));
    assert_eq!(s.poll_one(&mut k), Err(PollSemaphoreError::Timeout));
    assert_eq!(s.wait_one(&mut k), Ok(Blocking::Blocked));
}

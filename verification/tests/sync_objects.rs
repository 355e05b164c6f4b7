//! Semaphores, event groups and the operations on tasks.
use constance::cfg::{CfgBuilder, CfgTaskBuilder};
use constance::error::{
    ActivateTaskError, DrainSemaphoreError, ExitTaskError, GetCurrentTaskError,
    GetEventGroupError, GetSemaphoreError, InterruptTaskError, ParkError, PollEventGroupError,
    PollSemaphoreError, SignalSemaphoreError, SleepError, TimeError, UnparkError,
    UpdateEventGroupError, WaitEventGroupError, WaitEventGroupTimeoutError, WaitSemaphoreError,
    WaitSemaphoreTimeoutError, WaitTimeoutError, CpuLockError,
};
use constance::event_group::{bits_after, cleared_bits, is_satisfied, EventGroup};
use constance::kernel::{Expired, Kernel};
use constance::sched::SchedState;
use constance::semaphore::Semaphore;
use constance::task::{Task, TaskAttr, TaskCb, TaskSt, StackHunk};
use constance::time::Duration;
use constance::wait::{
    Blocking, EventGroupWaitFlags, QueueOrder, Wait, WaitPayload, WaitQueue, WaitQueueId,
};

const ANY: EventGroupWaitFlags = EventGroupWaitFlags { all: false, clear: false };
const ALL: EventGroupWaitFlags = EventGroupWaitFlags { all: true, clear: false };
const ANY_CLEAR: EventGroupWaitFlags = EventGroupWaitFlags { all: false, clear: true };
const ALL_CLEAR: EventGroupWaitFlags = EventGroupWaitFlags { all: true, clear: true };

fn dispatch(k: &mut Kernel) -> Option<usize> {
    let cpu_lock = k.cpu_lock;
    if let Some(line) = k.interrupts.check_preemption_by_interrupt(cpu_lock) {
        assert_eq!(line, k.dispatch_line);
        k.choose_running_task();
        k.interrupts.return_from_interrupt();
    }
    k.running_task()
}

/// Ends the running task, and gives up the CPU Lock as the port does when
/// it leaves the task's stack.
fn exit_task(k: &mut Kernel) {
    assert_eq!(k.exit_task(), Ok(()));
    assert!(k.has_cpu_lock());
    assert_eq!(k.running_task(), None);
    assert_eq!(k.release_cpu_lock(), Ok(()));
}

/// A kernel with tasks of the given priorities, all active from the start,
/// one semaphore that holds `initial` permits of at most `maximum`, and one
/// event group, both with the queue order `order`.
fn kernel(priorities: &[usize], initial: usize, maximum: usize, order: QueueOrder) -> Kernel {
    let mut b = CfgBuilder::new();
    for (i, p) in priorities.iter().enumerate() {
        CfgTaskBuilder::new().start(i).priority(*p).active(true).finish_in(&mut b);
    }
    Semaphore::define().initial(initial).maximum(maximum).queue_order(order).finish(&mut b);
    EventGroup::build().queue_order(order).finish(&mut b);
    assert!(b.validate());
    let mut k = b.build(4, 0);
    k.boot();
    k.dispatch_first_task();
    k
}

/// Lets each task in turn call `wait_one` and block, most urgent first. The
/// tasks are listed by index in `order`.
fn block_all_on_semaphore(k: &mut Kernel, s: Semaphore, order: &[usize]) {
    for t in order {
        assert_eq!(dispatch(k), Some(*t));
        assert_eq!(s.wait_one(k), Ok(Blocking::Blocked));
    }
}

#[test]
fn semaphore_serves_waiters_by_task_priority() {
    // The tasks run, and block, in the order of their priorities: 1, 3, 0, 2.
    let mut k = kernel(&[2, 0, 3, 1], 0, 4, QueueOrder::TaskPriority);
    let s = Semaphore::from_id(1);
    block_all_on_semaphore(&mut k, s, &[1, 3, 0, 2]);
    assert_eq!(k.semaphores[0].wait_queue.waits, vec![1, 3, 0, 2]);
    assert_eq!(dispatch(&mut k), None);
}

#[test]
fn priority_queue_keeps_arrival_order_among_equals() {
    let mut k = kernel(&[1, 1, 0, 1], 0, 4, QueueOrder::TaskPriority);
    let s = Semaphore::from_id(1);
    // Task 2 is the most urgent. It waits for its park token, so that the
    // others can run; they join the queue in the order 0, 1, 3.
    assert_eq!(dispatch(&mut k), Some(2));
    assert_eq!(k.park(), Ok(Blocking::Blocked));
    block_all_on_semaphore(&mut k, s, &[0, 1, 3]);
    assert_eq!(k.semaphores[0].wait_queue.waits, vec![0, 1, 3]);

    // Task 2 joins before them, being more urgent than all of them.
    assert_eq!(Task::from_id(3).unpark(&mut k), Ok(()));
    assert_eq!(dispatch(&mut k), Some(2));
    assert_eq!(k.take_wait_result(), Some(Ok(WaitPayload::Park)));
    assert_eq!(s.wait_one(&mut k), Ok(Blocking::Blocked));
    assert_eq!(k.semaphores[0].wait_queue.waits, vec![2, 0, 1, 3]);
}

#[test]
fn fifo_queue_serves_waiters_in_arrival_order() {
    let mut k = kernel(&[2, 0, 3, 1], 0, 4, QueueOrder::Fifo);
    let s = Semaphore::from_id(1);
    block_all_on_semaphore(&mut k, s, &[1, 3, 0]);
    assert_eq!(k.semaphores[0].wait_queue.waits, vec![1, 3, 0]);

    // Task 1 is woken, runs and waits again: it joins at the tail.
    assert_eq!(dispatch(&mut k), Some(2));
    assert_eq!(s.signal_one(&mut k), Ok(()));
    assert_eq!(k.semaphores[0].wait_queue.waits, vec![3, 0]);
    assert_eq!(dispatch(&mut k), Some(1));
    assert_eq!(s.wait_one(&mut k), Ok(Blocking::Blocked));
    assert_eq!(k.semaphores[0].wait_queue.waits, vec![3, 0, 1]);
}

#[test]
fn signal_gives_permits_to_waiters_before_the_value() {
    let mut k = kernel(&[0, 1, 2, 3], 0, 4, QueueOrder::Fifo);
    let s = Semaphore::from_id(1);
    block_all_on_semaphore(&mut k, s, &[0, 1]);
    assert_eq!(dispatch(&mut k), Some(2));

    // Two permits go to the two waiters, three are left for the value.
    assert_eq!(s.signal(&mut k, 5), Ok(()));
    assert_eq!(s.get(&k), Ok(3));
    assert_eq!(k.semaphores[0].wait_queue.waits, vec![]);
    assert_eq!(k.sched.tasks[0].st, TaskSt::Ready);
    assert_eq!(k.sched.tasks[1].st, TaskSt::Ready);
    assert_eq!(k.sched.tasks[0].wait_result, Some(Ok(WaitPayload::SemaphorePermit)));

    // The dispatcher is asked for, since task 0 is more urgent.
    assert_eq!(k.interrupts.is_interrupt_line_pending(k.dispatch_line), Ok(true));
    assert_eq!(dispatch(&mut k), Some(0));
}

#[test]
fn signal_of_fewer_permits_than_waiters_wakes_the_head() {
    let mut k = kernel(&[0, 1, 2, 3], 0, 4, QueueOrder::Fifo);
    let s = Semaphore::from_id(1);
    block_all_on_semaphore(&mut k, s, &[0, 1, 2]);
    assert_eq!(dispatch(&mut k), Some(3));
    assert_eq!(s.signal(&mut k, 2), Ok(()));
    assert_eq!(s.get(&k), Ok(0));
    assert_eq!(k.semaphores[0].wait_queue.waits, vec![2]);
    assert_eq!(s.signal(&mut k, 0), Ok(()));
    assert_eq!(k.semaphores[0].wait_queue.waits, vec![2]);
}

#[test]
fn signal_beyond_the_maximum_stops_at_the_maximum() {
    let mut k = kernel(&[0, 1], 1, 3, QueueOrder::Fifo);
    let s = Semaphore::from_id(1);
    assert_eq!(dispatch(&mut k), Some(0));
    assert_eq!(s.signal(&mut k, 2), Ok(()));
    assert_eq!(s.get(&k), Ok(3));
    assert_eq!(s.signal_one(&mut k), Err(SignalSemaphoreError::QueueOverflow));
    assert_eq!(s.get(&k), Ok(3));
    assert_eq!(s.drain(&mut k), Ok(()));
    assert_eq!(s.signal(&mut k, 7), Err(SignalSemaphoreError::QueueOverflow));
    assert_eq!(s.get(&k), Ok(3));
}

#[test]
fn signal_then_as_many_waits_restores_the_value() {
    for (initial, n) in [(0usize, 3usize), (2, 1), (1, 0), (2, 2)] {
        let mut k = kernel(&[0], initial, 4, QueueOrder::Fifo);
        let s = Semaphore::from_id(1);
        assert_eq!(dispatch(&mut k), Some(0));
        assert_eq!(s.signal(&mut k, n), Ok(()));
        assert_eq!(s.get(&k), Ok(initial + n));
        for _ in 0..n {
            assert_eq!(s.wait_one(&mut k), Ok(Blocking::Done(())));
        }
        assert_eq!(s.get(&k), Ok(initial));
    }
}

#[test]
fn drain_is_idempotent() {
    let mut k = kernel(&[0], 3, 4, QueueOrder::Fifo);
    let s = Semaphore::from_id(1);
    assert_eq!(s.drain(&mut k), Ok(()));
    let value = s.get(&k);
    let queue = k.semaphores[0].wait_queue.waits.clone();
    assert_eq!(s.drain(&mut k), Ok(()));
    assert_eq!(s.get(&k), value);
    assert_eq!(value, Ok(0));
    assert_eq!(k.semaphores[0].wait_queue.waits, queue);
}

#[test]
fn a_wait_with_a_timeout_of_zero_is_a_poll() {
    let mut k = kernel(&[0], 1, 1, QueueOrder::Fifo);
    let s = Semaphore::from_id(1);
    let g = EventGroup::from_id(1);
    assert_eq!(dispatch(&mut k), Some(0));
    let zero = Duration::from_micros(0);
    assert_eq!(s.wait_one_timeout(&mut k, zero), Ok(Blocking::Done(())));
    assert_eq!(s.get(&k), Ok(0));
    assert_eq!(s.wait_one_timeout(&mut k, zero), Err(WaitSemaphoreTimeoutError::Timeout));
    assert_eq!(s.poll_one(&mut k), Err(PollSemaphoreError::Timeout));
    assert_eq!(k.sched.tasks[0].st, TaskSt::Running);
    assert_eq!(k.sched.timeouts.entries, vec![]);
    assert_eq!(k.semaphores[0].wait_queue.waits, vec![]);

    assert_eq!(g.wait_timeout(&mut k, 1, ANY, zero), Err(WaitEventGroupTimeoutError::Timeout));
    assert_eq!(g.poll(&mut k, 1, ANY), Err(PollEventGroupError::Timeout));
    assert_eq!(k.sched.tasks[0].st, TaskSt::Running);
    assert_eq!(k.sleep(zero), Ok(Blocking::Done(())));
    assert_eq!(k.sched.tasks[0].st, TaskSt::Running);
}

#[test]
fn semaphore_errors() {
    let mut k = kernel(&[0], 1, 1, QueueOrder::Fifo);
    let s = Semaphore::from_id(1);
    let nobody = Semaphore::from_id(2);
    let negative = Duration::from_micros(-5);
    assert_eq!(s.id(), 1);

    // In the boot phase the CPU Lock is held, and nothing may block.
    let mut boot = {
        let mut b = CfgBuilder::new();
        Semaphore::define().initial(0).maximum(1).finish(&mut b);
        b.build(1, 0)
    };
    assert_eq!(s.wait_one(&mut boot), Err(WaitSemaphoreError::BadContext));
    assert_eq!(s.poll_one(&mut boot), Err(PollSemaphoreError::BadContext));
    assert_eq!(s.signal_one(&mut boot), Err(SignalSemaphoreError::BadContext));
    assert_eq!(s.get(&boot), Err(GetSemaphoreError::BadContext));
    assert_eq!(s.drain(&mut boot), Err(DrainSemaphoreError::BadContext));

    // Before the dispatcher has run, no task runs, so nothing may block.
    assert_eq!(s.wait_one(&mut k), Err(WaitSemaphoreError::BadContext));
    assert_eq!(
        s.wait_one_timeout(&mut k, Duration::from_micros(1)),
        Err(WaitSemaphoreTimeoutError::BadContext)
    );
    assert_eq!(dispatch(&mut k), Some(0));

    assert_eq!(nobody.wait_one(&mut k), Err(WaitSemaphoreError::BadId));
    assert_eq!(nobody.wait_one_timeout(&mut k, negative), Err(WaitSemaphoreTimeoutError::BadParam));
    assert_eq!(s.wait_one_timeout(&mut k, negative), Err(WaitSemaphoreTimeoutError::BadParam));
    assert_eq!(
        nobody.wait_one_timeout(&mut k, Duration::from_micros(1)),
        Err(WaitSemaphoreTimeoutError::BadId)
    );
    assert_eq!(nobody.poll_one(&mut k), Err(PollSemaphoreError::BadId));
    assert_eq!(nobody.signal(&mut k, 1), Err(SignalSemaphoreError::BadId));
    assert_eq!(nobody.get(&k), Err(GetSemaphoreError::BadId));
    assert_eq!(nobody.drain(&mut k), Err(DrainSemaphoreError::BadId));
    assert_eq!(Semaphore::from_id(0).get(&k), Err(GetSemaphoreError::BadId));

    // A task that is interrupted while it waits is told so.
    assert_eq!(s.drain(&mut k), Ok(()));
    assert_eq!(s.wait_one(&mut k), Ok(Blocking::Blocked));
    assert_eq!(Task::from_id(1).interrupt(&mut k), Ok(()));
    assert_eq!(k.semaphores[0].wait_queue.waits, vec![]);
    assert_eq!(dispatch(&mut k), Some(0));
    let outcome = k.take_wait_result().unwrap();
    assert_eq!(outcome, Err(WaitTimeoutError::Interrupted));
    assert_eq!(Semaphore::wait_one_result(outcome), Err(WaitSemaphoreTimeoutError::Interrupted));
}

#[test]
fn event_group_masks() {
    assert!(is_satisfied(0b0100, 0b0110, ANY));
    assert!(!is_satisfied(0b0100, 0b0110, ALL));
    assert!(is_satisfied(0b0111, 0b0110, ALL));
    assert!(!is_satisfied(0b1001, 0b0110, ANY));
    assert!(!is_satisfied(0b1001, 0, ANY));
    assert!(is_satisfied(0b1001, 0, ALL));
    assert_eq!(cleared_bits(0b0101, 0b0110, ANY_CLEAR), 0b0100);
    assert_eq!(cleared_bits(0b0101, 0b0110, ANY), 0);
    assert_eq!(bits_after(0b0101, 0b0110, ANY_CLEAR), 0b0001);
    assert_eq!(bits_after(0b0101, 0b0110, ALL), 0b0101);
}

#[test]
fn event_group_set_wakes_the_waiters_that_are_satisfied() {
    let mut k = kernel(&[0, 1, 2, 3], 0, 1, QueueOrder::Fifo);
    let g = EventGroup::from_id(1);
    assert_eq!(dispatch(&mut k), Some(0));
    assert_eq!(g.wait(&mut k, 0b0011, ALL), Ok(Blocking::Blocked));
    assert_eq!(dispatch(&mut k), Some(1));
    assert_eq!(g.wait(&mut k, 0b0001, ANY_CLEAR), Ok(Blocking::Blocked));
    assert_eq!(dispatch(&mut k), Some(2));
    assert_eq!(g.wait(&mut k, 0b0101, ANY), Ok(Blocking::Blocked));
    assert_eq!(dispatch(&mut k), Some(3));
    assert_eq!(k.event_groups[0].wait_queue.waits, vec![0, 1, 2]);

    // Bit 0 alone satisfies task 1, which clears it, so that task 2, which
    // comes after it in the queue, finds nothing.
    assert_eq!(g.set(&mut k, 0b0001), Ok(()));
    assert_eq!(g.get(&k), Ok(0));
    assert_eq!(k.event_groups[0].wait_queue.waits, vec![0, 2]);
    assert_eq!(
        k.sched.tasks[1].wait_result,
        Some(Ok(WaitPayload::EventGroupBits { bits: 0b0001, flags: ANY_CLEAR, orig_bits: 0b0001 }))
    );

    // Bits 0 and 1 satisfy task 0, which clears nothing, and then task 2.
    assert_eq!(g.set(&mut k, 0b0011), Ok(()));
    assert_eq!(g.get(&k), Ok(0b0011));
    assert_eq!(k.event_groups[0].wait_queue.waits, vec![]);
    assert_eq!(k.sched.tasks[0].st, TaskSt::Ready);
    assert_eq!(k.sched.tasks[2].st, TaskSt::Ready);

    assert_eq!(g.clear(&mut k, 0b0110), Ok(()));
    assert_eq!(g.get(&k), Ok(0b0001));
    assert_eq!(g.poll(&mut k, 0b0001, ALL_CLEAR), Ok(0b0001));
    assert_eq!(g.get(&k), Ok(0));
    assert_eq!(g.set(&mut k, 0b1000), Ok(()));
    assert_eq!(g.wait(&mut k, 0b1100, ANY), Ok(Blocking::Done(0)));
    assert_eq!(g.wait(&mut k, 0b1100, ANY_CLEAR), Ok(Blocking::Done(0b1000)));
    assert_eq!(g.get(&k), Ok(0));
}

#[test]
fn event_group_wait_with_timeout() {
    let mut k = kernel(&[0, 1], 0, 1, QueueOrder::TaskPriority);
    let g = EventGroup::from_id(1);
    assert_eq!(dispatch(&mut k), Some(0));
    assert_eq!(
        g.wait_timeout(&mut k, 0b1, ANY, Duration::from_micros(10)),
        Ok(Blocking::Blocked)
    );
    assert_eq!(dispatch(&mut k), Some(1));
    k.timer_tick(10);
    assert_eq!(k.expire_next(), Some(Expired::Wait { task: 0 }));
    assert_eq!(k.event_groups[0].wait_queue.waits, vec![]);
    assert_eq!(dispatch(&mut k), Some(0));
    let outcome = k.take_wait_result().unwrap();
    assert_eq!(EventGroup::wait_result(outcome), Err(WaitEventGroupTimeoutError::Timeout));

    // A waiter that is satisfied in time has its timeout unlinked.
    assert_eq!(
        g.wait_timeout(&mut k, 0b10, ALL_CLEAR, Duration::from_micros(10)),
        Ok(Blocking::Blocked)
    );
    assert_eq!(dispatch(&mut k), Some(1));
    assert_eq!(g.set(&mut k, 0b110), Ok(()));
    assert_eq!(k.sched.timeouts.entries, vec![]);
    assert_eq!(dispatch(&mut k), Some(0));
    let outcome = k.take_wait_result().unwrap();
    assert_eq!(EventGroup::wait_result(outcome), Ok(0b10));
    assert_eq!(g.get(&k), Ok(0b100));
    assert_eq!(EventGroup::wait_result(Err(WaitTimeoutError::Interrupted)),
        Err(WaitEventGroupTimeoutError::Interrupted));
}

#[test]
fn event_group_errors() {
    let mut k = kernel(&[0], 0, 1, QueueOrder::Fifo);
    let g = EventGroup::from_id(1);
    let nobody = EventGroup::from_id(5);
    assert_eq!(g.id(), 1);
    assert_eq!(g.wait(&mut k, 1, ANY), Err(WaitEventGroupError::BadContext));
    assert_eq!(dispatch(&mut k), Some(0));
    assert_eq!(nobody.set(&mut k, 1), Err(UpdateEventGroupError::BadId));
    assert_eq!(nobody.clear(&mut k, 1), Err(UpdateEventGroupError::BadId));
    assert_eq!(nobody.get(&k), Err(GetEventGroupError::BadId));
    assert_eq!(nobody.poll(&mut k, 1, ANY), Err(PollEventGroupError::BadId));
    assert_eq!(nobody.wait(&mut k, 1, ANY), Err(WaitEventGroupError::BadId));
    let d = Duration::from_micros(1);
    assert_eq!(nobody.wait_timeout(&mut k, 1, ANY, d), Err(WaitEventGroupTimeoutError::BadId));
    assert_eq!(
        g.wait_timeout(&mut k, 1, ANY, Duration::from_micros(-1)),
        Err(WaitEventGroupTimeoutError::BadParam)
    );
    assert_eq!(k.acquire_cpu_lock(), Ok(()));
    assert_eq!(g.set(&mut k, 1), Err(UpdateEventGroupError::BadContext));
    assert_eq!(g.clear(&mut k, 1), Err(UpdateEventGroupError::BadContext));
    assert_eq!(g.get(&k), Err(GetEventGroupError::BadContext));
    assert_eq!(g.poll(&mut k, 1, ANY), Err(PollEventGroupError::BadContext));
    assert_eq!(g.wait(&mut k, 1, ANY), Err(WaitEventGroupError::BadContext));
    assert_eq!(g.wait_timeout(&mut k, 1, ANY, d), Err(WaitEventGroupTimeoutError::BadContext));
}

#[test]
fn task_operations() {
    let mut b = CfgBuilder::new();
    let t1 = CfgTaskBuilder::new().start(1).priority(1).active(true).finish_in(&mut b);
    let t2 = CfgTaskBuilder::new().start(2).priority(0).finish_in(&mut b);
    let nobody = Task::from_id(3);
    let mut k = b.build(4, 0);
    assert_eq!(Task::current(&k), Err(GetCurrentTaskError::BadContext));
    assert_eq!(k.set_time(5), Err(TimeError::BadContext));
    assert_eq!(k.time(), Err(TimeError::BadContext));
    assert_eq!(k.acquire_cpu_lock(), Err(CpuLockError::BadContext));
    assert_eq!(k.release_cpu_lock(), Err(CpuLockError::BadContext));
    assert!(k.has_cpu_lock());
    k.boot();
    k.dispatch_first_task();
    assert!(!k.has_cpu_lock());
    assert_eq!(k.release_cpu_lock(), Err(CpuLockError::BadContext));
    assert_eq!(k.exit_task(), Err(ExitTaskError::BadContext));
    assert_eq!(k.sleep(Duration::from_micros(1)), Err(SleepError::BadContext));
    assert_eq!(k.sleep(Duration::from_micros(-1)), Err(SleepError::BadParam));
    assert_eq!(Task::current(&k), Ok(None));
    assert_eq!(dispatch(&mut k), Some(0));
    assert_eq!(Task::current(&k), Ok(Some(t1)));

    assert_eq!(nobody.activate(&mut k), Err(ActivateTaskError::BadId));
    assert_eq!(nobody.interrupt(&mut k), Err(InterruptTaskError::BadId));
    assert_eq!(nobody.unpark(&mut k), Err(UnparkError::BadId));
    assert_eq!(t1.activate(&mut k), Err(ActivateTaskError::QueueOverflow));
    assert_eq!(t2.unpark(&mut k), Err(UnparkError::BadObjectState));
    assert_eq!(t2.interrupt(&mut k), Err(InterruptTaskError::BadObjectState));

    // The park token is a binary permit.
    assert_eq!(t1.unpark(&mut k), Ok(()));
    assert_eq!(t1.unpark(&mut k), Ok(()));
    assert!(k.sched.tasks[0].park_token);
    assert_eq!(k.park(), Ok(Blocking::Done(())));
    assert!(!k.sched.tasks[0].park_token);
    assert_eq!(k.park(), Ok(Blocking::Blocked));
    assert_eq!(k.park(), Err(ParkError::BadContext));
    assert_eq!(t1.interrupt(&mut k), Ok(()));
    assert_eq!(dispatch(&mut k), Some(0));
    assert_eq!(k.take_wait_result(), Some(Err(WaitTimeoutError::Interrupted)));
    assert_eq!(Kernel::park_result(Err(WaitTimeoutError::Interrupted)), Err(ParkError::Interrupted));
    assert_eq!(Kernel::park_result(Ok(WaitPayload::Park)), Ok(()));
    assert_eq!(Kernel::sleep_result(Err(WaitTimeoutError::Interrupted)), Err(SleepError::Interrupted));
    assert_eq!(Kernel::sleep_result(Ok(WaitPayload::Sleep)), Ok(()));

    // An activation that is pending cannot be asked for again.
    assert_eq!(t2.activate(&mut k), Ok(()));
    assert_eq!(k.sched.tasks[1].st, TaskSt::PendingActivation);
    assert_eq!(t2.activate(&mut k), Err(ActivateTaskError::QueueOverflow));
    let chosen = k.choose_running_task();
    assert_eq!((chosen.launched, chosen.switched), (vec![1], true));
    assert_eq!(k.running_task(), Some(1));
    assert_eq!(k.sched.tasks[0].st, TaskSt::Ready);
    exit_task(&mut k);
    assert_eq!(k.running_task(), None);
    assert_eq!(t2.activate(&mut k), Ok(()));
}

#[test]
fn tasks_of_one_priority_run_in_the_order_in_which_they_became_ready() {
    let mut k = kernel(&[1, 1, 1], 0, 1, QueueOrder::Fifo);
    assert_eq!(dispatch(&mut k), Some(0));
    assert_eq!(k.sched.ready_queue.levels[1], vec![1, 2]);
    // A task of the same priority does not preempt.
    let chosen = k.choose_running_task();
    assert_eq!((chosen.launched, chosen.switched), (vec![], false));
    assert_eq!(k.running_task(), Some(0));
    assert_eq!(k.park(), Ok(Blocking::Blocked));
    assert_eq!(dispatch(&mut k), Some(1));
    assert_eq!(Task::from_id(1).unpark(&mut k), Ok(()));
    assert_eq!(k.sched.ready_queue.levels[1], vec![2, 0]);
    exit_task(&mut k);
    assert_eq!(dispatch(&mut k), Some(2));
    exit_task(&mut k);
    assert_eq!(dispatch(&mut k), Some(0));
    exit_task(&mut k);
    assert_eq!(dispatch(&mut k), None);
    assert_eq!(k.sched.ready_queue.bitmap.find_set(), None);
}

#[test]
fn wait_queue_wakes_from_the_head() {
    let attr = TaskAttr { entry_point: 0, entry_param: 0, stack: StackHunk { start: 0, len: 0 } };
    let id = WaitQueueId::Semaphore(0);
    let waiting = |priority: usize| TaskCb {
        st: TaskSt::Waiting,
        wait: Some(Wait { queue: Some(id), payload: WaitPayload::SemaphorePermit }),
        ..TaskCb::new(attr, priority, false)
    };
    let mut sched = SchedState::new(vec![waiting(2), waiting(1), waiting(2)], 4, 0);
    let mut queue = WaitQueue::new(id, QueueOrder::TaskPriority);
    assert!(queue.is_empty());
    assert!(!queue.wake_up_one(&mut sched));
    queue.waits = vec![1, 0, 2];
    assert_eq!(queue.insert_position(&sched, 0), 0);
    assert_eq!(queue.insert_position(&sched, 1), 1);
    assert_eq!(queue.insert_position(&sched, 2), 3);
    queue.order = QueueOrder::Fifo;
    assert_eq!(queue.insert_position(&sched, 0), 3);

    assert!(queue.wake_up_one(&mut sched));
    assert_eq!(queue.waits, vec![0, 2]);
    assert_eq!(sched.tasks[1].st, TaskSt::Ready);
    assert_eq!(sched.tasks[1].wait, None);
    assert_eq!(sched.tasks[1].wait_result, Some(Ok(WaitPayload::SemaphorePermit)));
    assert_eq!(sched.ready_queue.levels[1], vec![1]);
    assert!(queue.wake_up_all(&mut sched));
    assert!(queue.is_empty());
    assert_eq!(sched.ready_queue.levels[2], vec![0, 2]);
    assert!(!queue.wake_up_all(&mut sched));
    queue.waits = vec![4, 5, 6];
    queue.remove(5);
    queue.remove(9);
    assert_eq!(queue.waits, vec![4, 6]);
}

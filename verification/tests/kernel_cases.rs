//! The kernel's test cases, run against the kernel state machine.
use constance::cfg::CfgBuilder;
use constance::kernel::{Expired, Kernel};
use constance::kernel_tests::{startup_hook_disallowed_services, task_misc, time_set_event};
use constance::task::{Task, TaskSt};
use constance::timeout::{Timeout, TimeoutOwner};
use std::hash::{Hash, Hasher};
use wyhash::WyHash;

fn dispatch(k: &mut Kernel) -> Option<usize> {
    let cpu_lock = k.cpu_lock;
    if let Some(line) = k.interrupts.check_preemption_by_interrupt(cpu_lock) {
        assert_eq!(line, k.dispatch_line);
        k.choose_running_task();
        k.interrupts.return_from_interrupt();
    }
    k.running_task()
}

/// Ends the running task, and gives up the CPU Lock as the port does when
/// it leaves the task's stack.
fn exit_task(k: &mut Kernel) {
    assert_eq!(k.exit_task(), Ok(()));
    assert!(k.has_cpu_lock());
    assert_eq!(k.running_task(), None);
    assert_eq!(k.release_cpu_lock(), Ok(()));
}

#[test]
fn startup_hook_disallowed_services_case() {
    let mut b = CfgBuilder::new();
    let _app = startup_hook_disallowed_services::App::new(&mut b);
    assert_eq!(b.startup_hooks.len(), 1);
    assert_eq!(b.startup_hooks[0].start, startup_hook_disallowed_services::ENTRY_HOOK);
    assert!(b.validate());
    let mut k = b.build(4, 0);
    k.boot();
    assert!(startup_hook_disallowed_services::hook(&mut k));
    assert!(!k.booted && k.cpu_lock);
}

#[test]
fn startup_hook_reports_calls_that_are_not_refused() {
    let mut b = CfgBuilder::new();
    Task::build().start(1).priority(1).active(true).finish_in(&mut b);
    let mut k = b.build(4, 0);
    k.boot();
    k.dispatch_first_task();
    // With no task running both calls are refused.
    assert!(startup_hook_disallowed_services::hook(&mut k));
    assert_eq!(dispatch(&mut k), Some(0));
    // In a task the first call ends the task.
    assert!(!startup_hook_disallowed_services::hook(&mut k));
    assert_eq!(k.sched.tasks[0].st, TaskSt::Dormant);
    assert_eq!(k.running_task(), None);
}

#[test]
fn task_misc_case() {
    let mut b = CfgBuilder::new();
    let app = task_misc::App::new(&mut b);
    assert_eq!((app.task1.id(), app.task2.id(), app.task3.id()), (1, 2, 3));
    assert_eq!(b.tasks.len(), 3);
    assert_eq!(b.tasks[0].param, 42);
    assert!(b.validate());
    let mut k = b.build(4, 0);
    k.boot();
    assert!(task_misc::startup_hook(&k));
    k.dispatch_first_task();

    assert_eq!(dispatch(&mut k), Some(0));
    // In a task the kernel names the current task, which is task 1.
    assert!(!task_misc::startup_hook(&k));
    assert!(!task_misc::task3_body(&k, &app));
    let param = k.sched.tasks[0].attr.entry_param;
    assert!(task_misc::task1_body(&mut k, &app, param));

    // Task 3 is more urgent than task 1 and runs next.
    assert_eq!(dispatch(&mut k), Some(2));
    assert!(task_misc::task3_body(&k, &app));
    assert_eq!(k.sched.tasks[1].st, TaskSt::Dormant);
}

#[test]
fn task_handles_hash_by_the_task_they_name() {
    let hash = |x: Task| {
        let mut hasher = WyHash::with_seed(42);
        x.hash(&mut hasher);
        hasher.finish()
    };
    let task1 = Task::from_id(1);
    let task2 = Task::from_id(2);
    assert_ne!(task1, task2);
    assert_eq!(task1, task1);
    assert_eq!(hash(task1), hash(task1));
    assert_eq!(hash(task2), hash(task2));
    assert_eq!(task1.hash_with_seed(42), Task::from_id(1).hash_with_seed(42));
    assert_eq!(task1.hash_with_seed(42), wyhash::wyhash(&1u64.to_le_bytes(), 42));
    assert_ne!(task1.hash_with_seed(42), task2.hash_with_seed(42));
}

#[test]
fn hash_of_bytes_is_that_of_wyhash() {
    assert_eq!(constance::hash::hash_bytes(&vec![0, 1, 2], 3), 0xb0f941520b1ad95d);
    assert_eq!(constance::hash::id_bytes(0x0102), vec![2, 1, 0, 0, 0, 0, 0, 0]);
}

fn expire_all(k: &mut Kernel) -> Vec<Expired> {
    let mut all = Vec::new();
    while let Some(e) = k.expire_next() {
        all.push(e);
    }
    all
}

/// Task 1 activates tasks 2 and 3, which sleep for 300 ms and 100 ms; then
/// task 1 sets the system time to 300 ms. Task 3 wakes at the system time
/// 400 ms, task 2 at 600 ms.
#[test]
fn time_set_event_case() {
    let ms = |n: u64| n * 1000;
    let mut b = CfgBuilder::new();
    let app = time_set_event::App::new(&mut b);
    assert_eq!((app.task2.id(), app.task3.id()), (2, 3));
    assert_eq!(app.seq.len, time_set_event::SEQ_TRACKER_SIZE);
    assert_eq!(app.seq.start % time_set_event::SEQ_TRACKER_SIZE, 0);
    assert!(b.validate());
    let origin: u32 = 0x00c0_ffee;
    let mut k = b.build(4, origin);
    k.boot();
    k.dispatch_first_task();
    let mut seq = time_set_event::SeqTracker::new();

    // Task 1.
    assert_eq!(dispatch(&mut k), Some(0));
    assert!(time_set_event::task1_body_start(&mut k, &app, &mut seq));
    assert_eq!(k.time(), Ok(0));

    // Task 2 preempts and starts to sleep at the system time 0 ms.
    assert_eq!(dispatch(&mut k), Some(1));
    assert!(time_set_event::task2_body_sleep(&mut k, &mut seq));
    assert_eq!(k.sched.tasks[1].st, TaskSt::Waiting);

    // Task 1 goes on.
    assert_eq!(dispatch(&mut k), Some(0));
    assert!(time_set_event::task1_body_activate_task3(&mut k, &app));

    // Task 3 preempts and starts to sleep at the system time 0 ms.
    assert_eq!(dispatch(&mut k), Some(2));
    assert!(time_set_event::task3_body_sleep(&mut k, &mut seq));

    // Task 1 changes the system time while the two sleep, and ends. The
    // timeouts stay as they are.
    assert_eq!(dispatch(&mut k), Some(0));
    let timeouts = k.sched.timeouts.entries.clone();
    assert_eq!(
        timeouts,
        vec![
            Timeout { at: origin.wrapping_add(300_000), owner: TimeoutOwner::Task(1) },
            Timeout { at: origin.wrapping_add(100_000), owner: TimeoutOwner::Task(2) },
        ]
    );
    assert!(time_set_event::task1_body_set_time(&mut k, &mut seq));
    assert_eq!(seq.get(), 5);
    assert_eq!(k.time(), Ok(ms(300)));
    assert_eq!(k.sched.timeouts.entries, timeouts);
    assert_eq!(expire_all(&mut k), vec![]);
    exit_task(&mut k);
    assert_eq!(dispatch(&mut k), None);

    // Nothing is due before 100 ms have passed.
    k.timer_tick(origin.wrapping_add(99_999));
    assert_eq!(expire_all(&mut k), vec![]);
    k.timer_tick(origin.wrapping_add(100_000));
    assert_eq!(expire_all(&mut k), vec![Expired::Wait { task: 2 }]);
    assert_eq!(dispatch(&mut k), Some(2));
    assert_eq!(k.time(), Ok(ms(400)));
    assert!(time_set_event::task3_body_woken(&mut k, &mut seq));
    exit_task(&mut k);
    assert_eq!(dispatch(&mut k), None);

    k.timer_tick(origin.wrapping_add(299_999));
    assert_eq!(expire_all(&mut k), vec![]);
    k.timer_tick(origin.wrapping_add(300_000));
    assert_eq!(expire_all(&mut k), vec![Expired::Wait { task: 1 }]);
    assert_eq!(dispatch(&mut k), Some(1));
    assert_eq!(k.time(), Ok(ms(600)));
    assert!(time_set_event::task2_body_woken(&mut k, &mut seq));
    assert_eq!(seq.get(), 7);
}

/// The steps of the bodies report what does not go as it should.
#[test]
fn time_set_event_steps_out_of_turn() {
    let mut b = CfgBuilder::new();
    let app = time_set_event::App::new(&mut b);
    let mut k = b.build(4, 0);
    k.boot();
    k.dispatch_first_task();
    let mut seq = time_set_event::SeqTracker::new();

    // No task runs yet: nothing can sleep.
    assert!(time_set_event::task1_body_start(&mut k, &app, &mut seq));
    assert_eq!(seq.get(), 1);
    assert!(!time_set_event::task1_body_start(&mut k, &app, &mut seq));
    assert_eq!(seq.get(), 1);
    assert!(!time_set_event::task2_body_sleep(&mut k, &mut seq));
    assert_eq!(seq.get(), 2);
    assert_eq!(k.sched.timeouts.entries, vec![]);

    assert_eq!(dispatch(&mut k), Some(1));
    // The tracker is not where the step expects it, and stays.
    assert!(!time_set_event::task1_body_set_time(&mut k, &mut seq));
    assert_eq!(seq.get(), 2);
    assert_eq!(k.time(), Ok(time_set_event::NEW_TIME));
    // Task 3 has not slept: there is no outcome of a sleep to take note of.
    seq.counter = 5;
    assert!(!time_set_event::task3_body_woken(&mut k, &mut seq));
    assert_eq!(seq.get(), 6);
    // Task 3 is activated once.
    assert!(time_set_event::task1_body_activate_task3(&mut k, &app));
    assert!(!time_set_event::task1_body_activate_task3(&mut k, &app));
    assert!(time_set_event::in_ms_range(Ok(349_999), 349, 350));
    assert!(!time_set_event::in_ms_range(Ok(350_000), 349, 350));
    assert!(!time_set_event::in_ms_range(Err(constance::error::TimeError::BadContext), 0, 1));
}

//! The kernel's data structures, the configuration and the hosted port.
use constance::cfg::{
    cfg_new_hunk, cfg_new_hunk_zero_array, is_power_of_two, CfgBuilder, CfgBuilderTask,
    CfgTaskBuilder, Hunk, HunkInitAttr, TaskStack, STACK_ALIGN, STACK_DEFAULT_SIZE,
};
use constance::error::{
    BadIdError, BadParamError, ClearInterruptLineError, EnableInterruptLineError,
    PendInterruptLineError, QueryInterruptLineError, SetInterruptLinePriorityError,
};
use constance::interrupt::{
    is_managed, ActiveHandler, IntLine, InterruptController, INTERRUPT_LINE_DISPATCH,
    INTERRUPT_PRIORITY_DISPATCH, NUM_INTERRUPT_LINES,
};
use constance::port_std::{DispatchAction, State, TaskState, ThreadRole, Tsm};
use constance::prio_bitmap::{FixedPrioBitmap, FIXED_PRIO_BITMAP_MAX_LEN};
use constance::ready_queue::ReadyQueue;
use constance::task::{StackHunk, Task, TaskAttr, TaskSt};
use constance::timer::Timer;
use constance::semaphore::Semaphore;
use constance::time::BAD_DURATION32;
use constance::timer::{TimerAttr};
use constance::cfg::TimerDescriptor;

#[test]
fn priority_bitmap() {
    let mut bitmap = FixedPrioBitmap::new();
    assert_eq!(bitmap.find_set(), None);
    bitmap.set(63);
    assert_eq!(bitmap.find_set(), Some(63));
    bitmap.set(5);
    bitmap.set(40);
    assert!(bitmap.get(5) && bitmap.get(40) && bitmap.get(63));
    assert!(!bitmap.get(0) && !bitmap.get(6));
    assert_eq!(bitmap.find_set(), Some(5));
    bitmap.clear(5);
    assert_eq!(bitmap.find_set(), Some(40));
    bitmap.clear(41);
    assert_eq!(bitmap.find_set(), Some(40));
    bitmap.set(0);
    assert_eq!(bitmap.find_set(), Some(0));
    assert_eq!(FIXED_PRIO_BITMAP_MAX_LEN, 64);
}

#[test]
fn ready_queue_is_first_in_first_out_within_a_level() {
    let mut queue = ReadyQueue::new(4);
    assert_eq!(queue.num_levels(), 4);
    assert_eq!(queue.top_level(), None);
    assert_eq!(queue.pop_front(), None);
    queue.push_back(2, 7);
    queue.push_back(3, 1);
    queue.push_back(2, 4);
    queue.push_back(0, 9);
    queue.push_back(2, 5);
    assert_eq!(queue.top_level(), Some(0));
    let mut order = Vec::new();
    while let Some(t) = queue.pop_front() {
        // The bitmap tells which levels hold a task.
        for p in 0..4 {
            assert_eq!(queue.bitmap.get(p), !queue.levels[p].is_empty());
        }
        order.push(t);
    }
    assert_eq!(order, vec![9, 7, 4, 5, 1]);
}

#[test]
fn interrupt_lines() {
    let mut c = InterruptController::new(8);
    assert_eq!(c.num_lines(), 8);
    assert_eq!(c.lines[3], IntLine { priority: 0, enable: false, pended: false, start: None });
    assert_eq!(c.set_interrupt_line_priority(8, 1), Err(SetInterruptLinePriorityError::BadParam));
    assert_eq!(c.set_interrupt_line_priority(0, -1), Err(SetInterruptLinePriorityError::BadParam));
    assert_eq!(
        c.set_interrupt_line_priority(0, INTERRUPT_PRIORITY_DISPATCH + 1),
        Err(SetInterruptLinePriorityError::BadParam)
    );
    assert_eq!(c.enable_interrupt_line(8), Err(EnableInterruptLineError::BadParam));
    assert_eq!(c.disable_interrupt_line(9), Err(EnableInterruptLineError::BadParam));
    assert_eq!(c.pend_interrupt_line(8), Err(PendInterruptLineError::BadParam));
    assert_eq!(c.clear_interrupt_line(8), Err(ClearInterruptLineError::BadParam));
    assert_eq!(c.is_interrupt_line_pending(8), Err(QueryInterruptLineError::BadParam));
    assert_eq!(c.set_handler(8, Some(1)), Err(BadParamError::BadParam));
    assert!(is_managed(0) && is_managed(INTERRUPT_PRIORITY_DISPATCH));
    assert!(!is_managed(-1) && !is_managed(INTERRUPT_PRIORITY_DISPATCH + 1));
    assert_eq!((NUM_INTERRUPT_LINES, INTERRUPT_LINE_DISPATCH), (1024, 1023));

    for (line, priority) in [(1, 5), (2, 3), (4, 3), (6, 9)] {
        assert_eq!(c.set_interrupt_line_priority(line, priority), Ok(()));
        assert_eq!(c.set_handler(line, Some(100 + line)), Ok(()));
        assert_eq!(c.enable_interrupt_line(line), Ok(()));
    }
    assert_eq!(c.highest_pending(), None);
    assert_eq!(c.pend_interrupt_line(6), Ok(()));
    assert_eq!(c.pend_interrupt_line(1), Ok(()));
    assert_eq!(c.is_interrupt_line_pending(1), Ok(true));
    assert_eq!(c.is_interrupt_line_pending(2), Ok(false));
    assert_eq!(c.highest_pending(), Some(1));

    // The CPU Lock masks every managed line.
    assert_eq!(c.check_preemption_by_interrupt(true), None);
    assert!(!c.is_interrupt_context());
    assert_eq!(c.check_preemption_by_interrupt(false), Some(1));
    assert!(c.is_interrupt_context());
    assert_eq!(c.is_interrupt_line_pending(1), Ok(false));
    assert_eq!(c.lines[1].start, Some(101));

    // A line that is less urgent than the handler that runs has to wait.
    assert_eq!(c.check_preemption_by_interrupt(false), None);
    // Of two lines of one priority the one with the lower number goes first.
    assert_eq!(c.pend_interrupt_line(4), Ok(()));
    assert_eq!(c.pend_interrupt_line(2), Ok(()));
    assert_eq!(c.check_preemption_by_interrupt(false), Some(2));
    assert_eq!(c.check_preemption_by_interrupt(false), None);
    assert_eq!(
        c.active,
        vec![ActiveHandler { num: 1, priority: 5 }, ActiveHandler { num: 2, priority: 3 }]
    );
    assert_eq!(c.return_from_interrupt(), Some(ActiveHandler { num: 2, priority: 3 }));
    assert_eq!(c.check_preemption_by_interrupt(false), Some(4));
    assert_eq!(c.return_from_interrupt(), Some(ActiveHandler { num: 4, priority: 3 }));
    assert_eq!(c.return_from_interrupt(), Some(ActiveHandler { num: 1, priority: 5 }));
    assert_eq!(c.return_from_interrupt(), None);

    // A line that is disabled, or cleared, is not served.
    assert_eq!(c.disable_interrupt_line(6), Ok(()));
    assert_eq!(c.check_preemption_by_interrupt(false), None);
    assert_eq!(c.enable_interrupt_line(6), Ok(()));
    assert_eq!(c.clear_interrupt_line(6), Ok(()));
    assert_eq!(c.check_preemption_by_interrupt(false), None);
}

#[test]
fn hunks_are_laid_out_by_size_and_alignment() {
    let cfg = CfgBuilder::new();
    assert_eq!((cfg.hunk_pool_len, cfg.hunk_pool_align, cfg.num_task_priority_levels), (0, 1, 16));
    let out = cfg_new_hunk(cfg, 3, 1);
    assert_eq!(out.id_map, Hunk { start: 0, len: 3 });
    let out = cfg_new_hunk(out.cfg, 8, 8);
    assert_eq!(out.id_map, Hunk { start: 8, len: 8 });
    assert_eq!((out.cfg.hunk_pool_len, out.cfg.hunk_pool_align), (16, 8));
    let out = cfg_new_hunk(out.cfg, 1, 4);
    assert_eq!(out.id_map, Hunk { start: 16, len: 1 });
    assert_eq!((out.cfg.hunk_pool_len, out.cfg.hunk_pool_align), (17, 8));
    assert_eq!(
        out.cfg.hunks,
        vec![
            HunkInitAttr { offset: 0, len: 3 },
            HunkInitAttr { offset: 8, len: 8 },
            HunkInitAttr { offset: 16, len: 1 }
        ]
    );

    // An array is aligned to the greater of what is asked for and what its
    // elements need, and is not initialised beyond the pool's zeroes.
    assert!(is_power_of_two(1) && is_power_of_two(64));
    assert!(!is_power_of_two(0) && !is_power_of_two(12));
    let out = cfg_new_hunk_zero_array(out.cfg, 5, 2, 4, 16);
    assert_eq!(out.id_map, Hunk { start: 32, len: 20 });
    assert_eq!((out.cfg.hunk_pool_len, out.cfg.hunk_pool_align), (52, 16));
    assert_eq!(out.cfg.hunks.len(), 3);
    let out = cfg_new_hunk_zero_array(out.cfg, 0, 64, 4, 1);
    assert_eq!(out.id_map, Hunk { start: 64, len: 0 });
    assert_eq!((out.cfg.hunk_pool_len, out.cfg.hunk_pool_align), (64, 64));
    assert_eq!(Hunk::from_range(3, 4), Hunk { start: 3, len: 4 });
}

#[test]
fn tasks_are_defined_property_by_property() {
    let builder = CfgTaskBuilder::new();
    assert_eq!(
        (builder.start, builder.param, builder.stack, builder.priority, builder.active),
        (None, 0, None, None, false)
    );
    let builder = Task::build().start(5).param(6).priority(7).active(true);
    assert_eq!((builder.start, builder.param, builder.priority), (Some(5), 6, Some(7)));
    assert_eq!(builder.stack_size(100).stack, Some(TaskStack::Auto(100)));
    let own = StackHunk { start: 4096, len: 256 };
    assert_eq!(builder.stack_hunk(own).stack, Some(TaskStack::Hunk(own)));

    let cfg = CfgBuilder::new().num_task_priority_levels(8);
    let out = builder.finish(cfg);
    assert_eq!(out.id_map.id(), 1);
    let mut cfg = out.cfg;
    assert_eq!((cfg.hunk_pool_len, cfg.hunk_pool_align), (STACK_DEFAULT_SIZE, STACK_ALIGN));
    let second = Task::build().start(1).priority(2).stack_size(10).finish_in(&mut cfg);
    let third = Task::build().start(1).priority(9).stack_hunk(own).finish_in(&mut cfg);
    assert_eq!((second.id(), third.id()), (2, 3));
    assert_eq!(cfg.hunk_pool_len, STACK_DEFAULT_SIZE + 10);
    assert_eq!(
        cfg.tasks[0],
        CfgBuilderTask {
            start: 5,
            param: 6,
            stack: StackHunk { start: 0, len: STACK_DEFAULT_SIZE },
            priority: 7,
            active: true
        }
    );
    assert_eq!(cfg.tasks[1].stack, StackHunk { start: STACK_DEFAULT_SIZE, len: 10 });
    assert_eq!(cfg.tasks[2].stack, own);

    let attr = cfg.tasks[0].to_attr();
    assert_eq!(attr, TaskAttr { entry_point: 5, entry_param: 6, stack: cfg.tasks[0].stack });
    let state = cfg.tasks[0].to_state(&attr, 8);
    assert_eq!((state.st, state.priority, state.attr), (TaskSt::PendingActivation, 7, attr));
    assert_eq!((state.wait, state.wait_result, state.park_token), (None, None, false));
    assert_eq!(cfg.tasks[1].to_state(&attr, 8).st, TaskSt::Dormant);

    // The third task's priority names no level.
    assert!(!cfg.validate());
    cfg.tasks[2].priority = 7;
    assert!(cfg.validate());
}

#[test]
fn configurations_that_cannot_be_built() {
    let mut cfg = CfgBuilder::new();
    assert!(cfg.validate());
    cfg.num_task_priority_levels = 0;
    assert!(!cfg.validate());
    cfg.num_task_priority_levels = 65;
    assert!(!cfg.validate());
    let mut cfg = CfgBuilder::new().num_task_priority_levels(64);
    assert!(cfg.validate());
    Semaphore::define().initial(3).maximum(2).finish(&mut cfg);
    assert!(!cfg.validate());
    cfg.semaphores[0].maximum = 3;
    assert!(cfg.validate());
    let attr = TimerAttr { entry_point: 0, entry_param: 0, init_active: false };
    cfg.timers.push(TimerDescriptor { attr, delay: 0x8000_0000, period: BAD_DURATION32 });
    assert!(!cfg.validate());
    cfg.timers[0].delay = 0x7fff_ffff;
    assert!(cfg.validate());
    cfg.timers[0].period = 0xffff_fffe;
    assert!(!cfg.validate());
}

#[test]
fn timers_that_are_active_from_the_start_are_started_at_boot() {
    let mut cfg = CfgBuilder::new();
    let d = |micros| constance::time::Duration::from_micros(micros);
    let a = Timer::build().start(1).delay(d(50)).active(true).finish(&mut cfg);
    let b = Timer::build().start(2).delay(d(60)).finish(&mut cfg);
    let c = Timer::build().start(3).active(true).finish(&mut cfg);
    assert_eq!((a.id(), b.id(), c.id()), (1, 2, 3));
    assert_eq!(a.timer_cb(&cfg.build(1, 0)), Ok(0));
    assert_eq!(Timer::from_id(4).timer_cb(&cfg.build(1, 0)), Err(BadIdError::BadId));
    let mut k = cfg.build(1, 1000);
    assert!(k.timers.iter().all(|t| !t.active));
    k.boot();
    assert_eq!(k.timers.iter().map(|t| t.active).collect::<Vec<_>>(), vec![true, false, true]);
    assert_eq!(k.sched.timeouts.entries.len(), 1);
    assert_eq!(k.sched.timeouts.entries[0].at, 1050);
    assert_eq!(k.timers[2].delay, BAD_DURATION32);
}

#[test]
fn hosted_port_dispatches_tasks_to_threads() {
    let mut cfg = CfgBuilder::new();
    Task::build().start(10).param(11).priority(2).active(true).finish_in(&mut cfg);
    let second = Task::build().start(20).param(21).priority(1).finish_in(&mut cfg);
    let mut state = State::new(cfg.build(NUM_INTERRUPT_LINES, 0));
    assert_eq!(state.task_states, vec![TaskState::new(), TaskState::new()]);
    assert!(state.is_cpu_lock_active());
    assert!(!state.can_dispatch());
    state.kernel.boot();
    assert_eq!(state.dispatch_first_task(), INTERRUPT_LINE_DISPATCH);
    assert!(!state.is_cpu_lock_active());
    assert!(state.is_interrupt_context(ThreadRole::Interrupt));
    assert!(!state.is_interrupt_context(ThreadRole::Task));

    assert!(state.can_dispatch());
    assert_eq!(
        state.dispatch(),
        DispatchAction::Spawn { task: 0, entry_point: 10, entry_param: 11 }
    );
    assert_eq!(state.task_states[0].tsm, Tsm::Dormant);
    state.task_spawned(0, 77);
    state.kernel.interrupts.return_from_interrupt();
    assert_eq!(state.dispatch(), DispatchAction::Resume { thread: 77 });

    // The first task activates the second, which is more urgent.
    assert_eq!(second.activate(&mut state.kernel), Ok(()));
    assert_eq!(state.check_preemption_by_interrupt(), Some(INTERRUPT_LINE_DISPATCH));
    assert_eq!(
        state.dispatch(),
        DispatchAction::Spawn { task: 1, entry_point: 20, entry_param: 21 }
    );
    state.task_spawned(1, 78);
    state.kernel.interrupts.return_from_interrupt();

    // The second task ends, and its thread is left.
    assert_eq!(state.kernel.exit_task(), Ok(()));
    assert!(state.is_cpu_lock_active());
    assert_eq!(state.exit_and_dispatch(1), (78, Some(INTERRUPT_LINE_DISPATCH)));
    assert!(!state.is_cpu_lock_active());
    assert_eq!(state.task_states[1].tsm, Tsm::Uninit);
    assert_eq!(state.dispatch(), DispatchAction::Resume { thread: 77 });
    state.kernel.interrupts.return_from_interrupt();
    assert_eq!(state.kernel.exit_task(), Ok(()));
    assert_eq!(state.exit_and_dispatch(0), (77, Some(INTERRUPT_LINE_DISPATCH)));
    assert_eq!(state.dispatch(), DispatchAction::Idle);
    state.kernel.interrupts.return_from_interrupt();

    // The CPU Lock holds interrupts back until it is given up.
    state.enter_cpu_lock();
    assert_eq!(state.pend_interrupt_line(3), Ok(None));
    assert_eq!(state.enable_interrupt_line(3), Ok(None));
    assert_eq!(state.is_interrupt_line_pending(3), Ok(true));
    assert_eq!(state.leave_cpu_lock(), Some(3));
    state.kernel.interrupts.return_from_interrupt();
    assert_eq!(state.yield_cpu(), Some(INTERRUPT_LINE_DISPATCH));
    state.kernel.interrupts.return_from_interrupt();
    assert_eq!(state.set_interrupt_line_priority(3, 7), Ok(None));
    assert_eq!(state.disable_interrupt_line(3), Ok(()));
    assert_eq!(state.pend_interrupt_line(3), Ok(None));
    assert_eq!(state.clear_interrupt_line(3), Ok(()));
    assert_eq!(state.enable_interrupt_line(3), Ok(None));
    assert_eq!(state.pend_interrupt_line(3), Ok(Some(3)));
    assert_eq!(state.pend_interrupt_line(5000), Err(PendInterruptLineError::BadParam));
    assert_eq!(state.enable_interrupt_line(5000), Err(EnableInterruptLineError::BadParam));
    assert_eq!(state.disable_interrupt_line(5000), Err(EnableInterruptLineError::BadParam));
    assert_eq!(state.clear_interrupt_line(5000), Err(ClearInterruptLineError::BadParam));
    assert_eq!(state.is_interrupt_line_pending(5000), Err(QueryInterruptLineError::BadParam));
    assert_eq!(
        state.set_interrupt_line_priority(3, -7),
        Err(SetInterruptLinePriorityError::BadParam)
    );
    assert_eq!(state.tick_count(5), 0x00c0_fff3);
    state.initialize_task_state(0);
    assert_eq!(state.task_states[0].tsm, Tsm::Dormant);
}

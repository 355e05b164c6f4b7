//! What holds of every state: checked on the states that a long run of
//! operations, chosen by a pseudo-random sequence, passes through.
use constance::cfg::CfgBuilder;
use constance::event_group::EventGroup;
use constance::kernel::Kernel;
use constance::semaphore::Semaphore;
use constance::task::{Task, TaskSt};
use constance::time::{is_due, Duration, BAD_DURATION32, TIME_USER_HEADROOM};
use constance::timeout::TimeoutOwner;
use constance::timer::Timer;
use constance::wait::{EventGroupWaitFlags, QueueOrder, WaitQueue, WaitQueueId};

fn check_queue(k: &Kernel, queue: &WaitQueue, id: WaitQueueId) {
    assert_eq!(queue.id, id);
    for (place, t) in queue.waits.iter().enumerate() {
        // A waiter is Waiting, names this queue, and stands in it once.
        let task = &k.sched.tasks[*t];
        assert_eq!(task.st, TaskSt::Waiting);
        assert_eq!(task.wait.unwrap().queue, Some(id));
        assert_eq!(queue.waits.iter().filter(|u| *u == t).count(), 1);
        if queue.order == QueueOrder::TaskPriority && place > 0 {
            let before = &k.sched.tasks[queue.waits[place - 1]];
            assert!(before.priority <= task.priority);
        }
    }
}

fn check_invariants(k: &Kernel) {
    let tasks = &k.sched.tasks;
    let levels = &k.sched.ready_queue.levels;

    // A task is Ready exactly while it stands in the ready queue at the
    // level of its priority.
    for (t, task) in tasks.iter().enumerate() {
        for (p, level) in levels.iter().enumerate() {
            let count = level.iter().filter(|u| **u == t).count();
            let expected = usize::from(task.st == TaskSt::Ready && task.priority == p);
            assert_eq!(count, expected);
        }
    }

    // A task is Waiting exactly while it has a wait record, and a record
    // that names a queue is linked in that queue and in no other.
    for (t, task) in tasks.iter().enumerate() {
        assert_eq!(task.st == TaskSt::Waiting, task.wait.is_some());
        let named = task.wait.and_then(|w| w.queue);
        for (i, s) in k.semaphores.iter().enumerate() {
            let linked = s.wait_queue.waits.contains(&t);
            assert_eq!(linked, named == Some(WaitQueueId::Semaphore(i)));
        }
        for (i, g) in k.event_groups.iter().enumerate() {
            let linked = g.wait_queue.waits.contains(&t);
            assert_eq!(linked, named == Some(WaitQueueId::EventGroup(i)));
        }
    }
    for (i, s) in k.semaphores.iter().enumerate() {
        check_queue(k, &s.wait_queue, WaitQueueId::Semaphore(i));
        // The value is within the maximum, and nobody waits while it is
        // above zero.
        assert!(s.value <= s.max_value);
        assert!(s.value == 0 || s.wait_queue.waits.is_empty());
    }
    for (i, g) in k.event_groups.iter().enumerate() {
        check_queue(k, &g.wait_queue, WaitQueueId::EventGroup(i));
    }

    // A bit of the bitmap is set exactly where the level holds a task.
    for p in 0..64 {
        let occupied = p < levels.len() && !levels[p].is_empty();
        assert_eq!(k.sched.ready_queue.bitmap.get(p), occupied);
    }

    // At most one task is Running, and it is the one that is named.
    let running: Vec<usize> =
        (0..tasks.len()).filter(|t| tasks[*t].st == TaskSt::Running).collect();
    assert!(running.len() <= 1);
    if let Some(t) = running.first() {
        assert_eq!(k.sched.running_task, Some(*t));
    }

    // The owner of a linked timeout expects it, and has no second one.
    let entries = &k.sched.timeouts.entries;
    for (n, e) in entries.iter().enumerate() {
        assert!(entries[..n].iter().all(|other| other.owner != e.owner));
        match e.owner {
            TimeoutOwner::Timer(i) => assert!(k.timers[i].active),
            TimeoutOwner::Task(t) => assert_eq!(tasks[t].st, TaskSt::Waiting),
        }
    }
    for (i, timer) in k.timers.iter().enumerate() {
        let linked = k.sched.timeouts.is_linked(TimeoutOwner::Timer(i));
        assert!(timer.delay == BAD_DURATION32 || timer.delay <= TIME_USER_HEADROOM);
        assert!(linked || !timer.active || timer.delay == BAD_DURATION32);
    }
}

/// A step of a linear congruential generator.
fn next(seed: &mut u64) -> usize {
    *seed = seed.wrapping_mul(6364136223846793005).wrapping_add(1442695040888963407);
    (*seed >> 33) as usize
}

fn run(seed: u64, order: QueueOrder, steps: usize) {
    let mut b = CfgBuilder::new().num_task_priority_levels(4);
    let priorities = [3, 1, 2, 1, 0, 3];
    for (i, p) in priorities.iter().enumerate() {
        Task::build().start(i).priority(*p).active(i % 2 == 0).finish_in(&mut b);
    }
    for (initial, maximum) in [(0, 1), (2, 3)] {
        Semaphore::define().initial(initial).maximum(maximum).queue_order(order).finish(&mut b);
    }
    EventGroup::build().queue_order(order).finish(&mut b);
    EventGroup::build().initial(0b101).queue_order(order).finish(&mut b);
    let d = Duration::from_micros;
    Timer::build().start(0).delay(d(40)).period(d(25)).active(true).finish(&mut b);
    Timer::build().start(1).delay(d(10)).finish(&mut b);
    assert!(b.validate());

    let mut seed = seed;
    let mut now: u32 = 0xffff_f000;
    let mut k = b.build(8, now);
    check_invariants(&k);
    k.boot();
    check_invariants(&k);
    k.dispatch_first_task();
    check_invariants(&k);

    for _ in 0..steps {
        let task = Task::from_id(next(&mut seed) % (priorities.len() + 2));
        let semaphore = Semaphore::from_id(next(&mut seed) % 4);
        let group = EventGroup::from_id(next(&mut seed) % 4);
        let timer = Timer::from_id(next(&mut seed) % 4);
        let amount = next(&mut seed) % 5;
        let mask = (next(&mut seed) % 16) as u32;
        let some_time = d((next(&mut seed) % 60) as i32 - 5);
        let flags = EventGroupWaitFlags { all: amount % 2 == 0, clear: amount < 3 };
        let delay = if amount == 0 { None } else { Some(some_time) };
        let sys_time_before = k.sys_time;
        let timeouts_before = k.sched.timeouts.entries.clone();
        match next(&mut seed) % 28 {
            0..=3 => {
                let cpu_lock = k.cpu_lock;
                if k.interrupts.check_preemption_by_interrupt(cpu_lock).is_some() {
                    let before = k.running_task();
                    let chosen = k.choose_running_task();
                    assert_eq!(chosen.switched, before != k.running_task());
                    // No Ready task is more urgent than the one that runs.
                    if let Some(r) = k.running_task() {
                        let own = k.sched.tasks[r].priority;
                        assert!(k.sched.tasks.iter().all(|t| {
                            t.st != TaskSt::Ready || own <= t.priority
                        }));
                    } else {
                        assert!(k.sched.tasks.iter().all(|t| t.st != TaskSt::Ready));
                    }
                    k.interrupts.return_from_interrupt();
                }
            }
            4 => drop(task.activate(&mut k)),
            5 => drop(task.interrupt(&mut k)),
            6 => drop(task.unpark(&mut k)),
            7 => drop(k.park()),
            8 => drop(k.sleep(some_time)),
            9 => {
                if k.exit_task().is_ok() {
                    assert!(k.has_cpu_lock());
                    check_invariants(&k);
                    assert_eq!(k.release_cpu_lock(), Ok(()));
                }
            }
            10 => drop(k.take_wait_result()),
            11 => drop(semaphore.signal(&mut k, amount)),
            12 => drop(semaphore.wait_one(&mut k)),
            13 => drop(semaphore.wait_one_timeout(&mut k, some_time)),
            14 => drop(semaphore.poll_one(&mut k)),
            15 => drop(semaphore.drain(&mut k)),
            16 => drop(group.set(&mut k, mask)),
            17 => drop(group.clear(&mut k, mask)),
            18 => drop(group.wait(&mut k, mask, flags)),
            19 => drop(group.wait_timeout(&mut k, mask, flags, some_time)),
            20 => drop(group.poll(&mut k, mask, flags)),
            21 => drop(timer.start(&mut k)),
            22 => drop(timer.stop(&mut k)),
            23 => drop(timer.set_delay(&mut k, delay)),
            24 => {
                // A period of zero makes a timer fire without end.
                let period = if delay == Some(d(0)) { Some(d(1)) } else { delay };
                drop(timer.set_period(&mut k, period));
            }
            25 => {
                if k.set_time(next(&mut seed) as u64).is_ok() {
                    // Setting the system time leaves the timeouts alone.
                    assert_eq!(k.sched.timeouts.entries, timeouts_before);
                } else {
                    assert_eq!(k.sys_time, sys_time_before);
                }
            }
            26 => {
                if amount % 2 == 0 {
                    drop(k.acquire_cpu_lock());
                } else {
                    drop(k.release_cpu_lock());
                }
            }
            _ => {
                now = now.wrapping_add((next(&mut seed) % 50) as u32);
                k.timer_tick(now);
                check_invariants(&k);
                let mut fired = 0;
                while let Some(_) = k.expire_next() {
                    check_invariants(&k);
                    fired += 1;
                    assert!(fired < 1000);
                }
                // Once the tick has been handled, nothing that is linked is
                // due.
                assert!(k.sched.timeouts.entries.iter().all(|e| !is_due(e.at, now)));
            }
        }
        check_invariants(&k);
    }
}

#[test]
fn invariants_hold_in_every_state_of_a_long_run() {
    for seed in 0..40 {
        run(seed, QueueOrder::TaskPriority, 400);
        run(seed + 1000, QueueOrder::Fifo, 400);
    }
}

//! Timers, timeouts and the tick arithmetic.
use constance::cfg::{CfgBuilder, CfgTaskBuilder};
use constance::error::{
    BadParamError, SetTimerDelayError, SetTimerPeriodError, StartTimerError, StopTimerError,
};
use constance::kernel::{Expired, Kernel, TickRequest};
use constance::time::{
    expiration_after, is_before, is_due, saturating_duration_until, tick_count_from_micros,
    time32_from_delay, time32_from_duration, Duration, BAD_DURATION32, MAX_TICK_COUNT,
    MAX_TIMEOUT, TIME_HARD_HEADROOM, TIME_USER_HEADROOM,
};
use constance::timeout::{Timeout, TimeoutHeap, TimeoutOwner};
use constance::timer::Timer;
use constance::wait::{Blocking, WaitPayload};
use constance::error::WaitTimeoutError;
use constance::semaphore::Semaphore;
use constance::wait::QueueOrder;

fn dispatch(k: &mut Kernel) -> Option<usize> {
    let cpu_lock = k.cpu_lock;
    if let Some(line) = k.interrupts.check_preemption_by_interrupt(cpu_lock) {
        assert_eq!(line, k.dispatch_line);
        k.choose_running_task();
        k.interrupts.return_from_interrupt();
    }
    k.running_task()
}

fn timer_calls(k: &mut Kernel) -> usize {
    let mut calls = 0;
    while let Some(e) = k.expire_next() {
        match e {
            Expired::Timer { timer, entry_point, entry_param } => {
                assert_eq!((timer, entry_point, entry_param), (0, 7, 9));
                calls += 1;
            }
            Expired::Wait { .. } => panic!("no task waits"),
        }
    }
    calls
}

fn periodic_timer() -> (Kernel, Timer) {
    let mut b = CfgBuilder::new();
    let timer = Timer::build()
        .delay(Duration::from_millis(70).unwrap())
        .period(Duration::from_millis(40).unwrap())
        .active(true)
        .start(7)
        .param(9)
        .finish(&mut b);
    assert!(b.validate());
    let mut k = b.build(4, 0);
    k.boot();
    k.dispatch_first_task();
    (k, timer)
}

/// The callback is held up from 50 ms to 200 ms. The calls that were due
/// at 70, 110, 150 and 190 ms are then made back to back.
#[test]
fn periodic_timer_catch_up() {
    let (mut k, timer) = periodic_timer();
    assert_eq!(k.next_tick(), TickRequest::After(70_000));
    k.timer_tick(50_000);
    assert_eq!(k.next_tick(), TickRequest::After(20_000));
    assert_eq!(timer_calls(&mut k), 0);
    k.timer_tick(200_000);
    assert_eq!(k.next_tick(), TickRequest::Now);
    assert_eq!(timer_calls(&mut k), 4);
    assert_eq!(k.next_tick(), TickRequest::After(30_000));
    assert_eq!(timer.stop(&mut k), Ok(()));
    assert_eq!(k.next_tick(), TickRequest::After(MAX_TIMEOUT));
    assert_eq!(timer.start(&mut k), Ok(()));
    assert_eq!((MAX_TICK_COUNT, MAX_TIMEOUT), (u32::MAX, u32::MAX / 2));
    assert_eq!(
        k.sched.timeouts.entries,
        vec![Timeout { at: 230_000, owner: TimeoutOwner::Timer(0) }]
    );
    k.timer_tick(229_999);
    assert_eq!(timer_calls(&mut k), 0);
    k.timer_tick(230_000);
    assert_eq!(timer_calls(&mut k), 1);
}

#[test]
fn periodic_timer_at_a_steady_rate() {
    let (mut k, _timer) = periodic_timer();
    let mut calls = Vec::new();
    for t in [69_999u32, 70_000, 109_999, 110_000, 150_000, 190_000, 229_999] {
        k.timer_tick(t);
        calls.push(timer_calls(&mut k));
    }
    assert_eq!(calls, vec![0, 1, 0, 1, 1, 1, 0]);
}

#[test]
fn stop_then_start_keeps_the_delay_that_was_left() {
    let (mut k, timer) = periodic_timer();
    k.timer_tick(30_000);
    assert_eq!(timer.stop(&mut k), Ok(()));
    assert!(!k.timers[0].active);
    assert_eq!(k.timers[0].delay, 40_000);
    assert_eq!(k.sched.timeouts.entries, vec![]);

    // The clock moves on while the timer is stopped.
    k.timer_tick(1_000_000);
    assert_eq!(timer_calls(&mut k), 0);
    assert_eq!(timer.start(&mut k), Ok(()));
    assert_eq!(
        k.sched.timeouts.entries,
        vec![Timeout { at: 1_040_000, owner: TimeoutOwner::Timer(0) }]
    );
    // Starting a timer that is Active changes nothing.
    assert_eq!(timer.start(&mut k), Ok(()));
    assert_eq!(k.sched.timeouts.entries.len(), 1);
    k.timer_tick(1_039_999);
    assert_eq!(timer_calls(&mut k), 0);
    k.timer_tick(1_040_000);
    assert_eq!(timer_calls(&mut k), 1);
}

#[test]
fn stopping_an_overdue_timer_drops_the_calls_that_were_due() {
    let (mut k, timer) = periodic_timer();
    k.timer_tick(200_000);
    assert_eq!(timer.stop(&mut k), Ok(()));
    assert_eq!(k.timers[0].delay, 0);
    assert_eq!(timer_calls(&mut k), 0);
    assert_eq!(timer.start(&mut k), Ok(()));
    assert_eq!(timer_calls(&mut k), 1);
}

#[test]
fn set_delay_and_set_period() {
    let (mut k, timer) = periodic_timer();
    k.timer_tick(10_000);

    // An infinite delay unlinks the timeout; the timer stays Active.
    assert_eq!(timer.set_delay(&mut k, None), Ok(()));
    assert!(k.timers[0].active);
    assert_eq!(k.timers[0].delay, BAD_DURATION32);
    assert_eq!(k.sched.timeouts.entries, vec![]);
    k.timer_tick(500_000);
    assert_eq!(timer_calls(&mut k), 0);

    // A finite delay counts from now.
    assert_eq!(timer.set_delay(&mut k, Some(Duration::from_millis(3).unwrap())), Ok(()));
    assert_eq!(
        k.sched.timeouts.entries,
        vec![Timeout { at: 503_000, owner: TimeoutOwner::Timer(0) }]
    );

    // An infinite period: the timer fires once more and then no more.
    assert_eq!(timer.set_period(&mut k, None), Ok(()));
    k.timer_tick(503_000);
    assert_eq!(timer_calls(&mut k), 1);
    assert!(k.timers[0].active);
    assert_eq!(k.sched.timeouts.entries, vec![]);
    k.timer_tick(900_000);
    assert_eq!(timer_calls(&mut k), 0);

    // A Dormant timer keeps the delay until it is started.
    assert_eq!(timer.stop(&mut k), Ok(()));
    assert_eq!(timer.set_delay(&mut k, Some(Duration::from_micros(5))), Ok(()));
    assert_eq!(k.timers[0].delay, 5);
    assert_eq!(k.sched.timeouts.entries, vec![]);
    assert_eq!(timer.start(&mut k), Ok(()));
    assert_eq!(
        k.sched.timeouts.entries,
        vec![Timeout { at: 900_005, owner: TimeoutOwner::Timer(0) }]
    );
}

#[test]
fn timer_errors() {
    let (mut k, timer) = periodic_timer();
    let nobody = Timer::from_id(2);
    let nothing = Timer::from_id(0);
    assert_eq!(timer.id(), 1);
    assert_eq!(nobody.start(&mut k), Err(StartTimerError::BadId));
    assert_eq!(nothing.start(&mut k), Err(StartTimerError::BadId));
    assert_eq!(nobody.stop(&mut k), Err(StopTimerError::BadId));
    assert_eq!(nobody.set_delay(&mut k, None), Err(SetTimerDelayError::BadId));
    assert_eq!(nobody.set_period(&mut k, None), Err(SetTimerPeriodError::BadId));
    let negative = Some(Duration::from_micros(-1));
    assert_eq!(timer.set_delay(&mut k, negative), Err(SetTimerDelayError::BadParam));
    assert_eq!(timer.set_period(&mut k, negative), Err(SetTimerPeriodError::BadParam));
    assert_eq!(nobody.set_delay(&mut k, negative), Err(SetTimerDelayError::BadParam));

    assert_eq!(k.acquire_cpu_lock(), Ok(()));
    assert_eq!(timer.start(&mut k), Err(StartTimerError::BadContext));
    assert_eq!(timer.stop(&mut k), Err(StopTimerError::BadContext));
    assert_eq!(timer.set_delay(&mut k, None), Err(SetTimerDelayError::BadContext));
    assert_eq!(timer.set_period(&mut k, None), Err(SetTimerPeriodError::BadContext));
    assert_eq!(timer.set_delay(&mut k, negative), Err(SetTimerDelayError::BadParam));
}

#[test]
fn tick_arithmetic() {
    assert!(is_before(5, 6));
    assert!(!is_before(5, 5));
    assert!(!is_before(6, 5));
    assert!(is_before(0xffff_fff0, 3));
    assert!(!is_before(3, 0xffff_fff0));
    assert!(is_before(0, TIME_USER_HEADROOM));
    assert!(!is_before(0, TIME_USER_HEADROOM + 1));
    assert!(is_due(5, 5));
    assert!(is_due(5, 5 + TIME_HARD_HEADROOM));
    assert!(!is_due(6, 5));
    assert_eq!(saturating_duration_until(10, 4), 6);
    assert_eq!(saturating_duration_until(4, 10), 0);
    assert_eq!(saturating_duration_until(2, 0xffff_ffff), 3);
    assert_eq!(expiration_after(0xffff_fffe, 5), 3);
    assert_eq!(time32_from_duration(Duration::from_micros(0)), Ok(0));
    assert_eq!(time32_from_duration(Duration::from_micros(i32::MAX)), Ok(0x7fff_ffff));
    assert_eq!(time32_from_duration(Duration::from_micros(-1)), Err(BadParamError::BadParam));
    assert_eq!(time32_from_delay(None), Ok(BAD_DURATION32));
    assert_eq!(time32_from_delay(Some(Duration::from_micros(7))), Ok(7));
    assert_eq!(Duration::from_millis(2).map(|d| d.as_micros()), Some(2000));
    assert_eq!(Duration::from_millis(i32::MAX), None);
    assert!(Duration::from_micros(-3).is_negative());
    assert_eq!(tick_count_from_micros(0), 0x00c0_ffee);
    assert_eq!(tick_count_from_micros(1), 0x00c0_ffef);
    assert_eq!(tick_count_from_micros(0xffff_ffff), 0x00c0_ffed);
    assert_eq!(tick_count_from_micros(0x1_0000_0005), 0x00c0_fff3);
}

/// A timeout whose expiration lies beyond the wrap of the tick counter
/// fires when the counter reaches it, and not before.
#[test]
fn timeout_across_the_wrap_of_the_tick_counter() {
    let mut b = CfgBuilder::new();
    let _t = CfgTaskBuilder::new().start(1).priority(1).active(true).finish_in(&mut b);
    Semaphore::define().initial(0).maximum(1).queue_order(QueueOrder::Fifo).finish(&mut b);
    let s = Semaphore::from_id(1);
    let now: u32 = 0xffff_ff00;
    let mut k = b.build(4, now);
    k.boot();
    k.dispatch_first_task();
    assert_eq!(dispatch(&mut k), Some(0));

    assert_eq!(s.wait_one_timeout(&mut k, Duration::from_micros(1000)), Ok(Blocking::Blocked));
    assert_eq!(
        k.sched.timeouts.entries,
        vec![Timeout { at: 1000 - 0x100, owner: TimeoutOwner::Task(0) }]
    );
    assert_eq!(dispatch(&mut k), None);
    k.timer_tick(0xffff_ffff);
    assert_eq!(k.expire_next(), None);
    k.timer_tick(1000 - 0x100 - 1);
    assert_eq!(k.expire_next(), None);
    k.timer_tick(1000 - 0x100);
    assert_eq!(k.expire_next(), Some(Expired::Wait { task: 0 }));
    assert_eq!(k.expire_next(), None);
    assert_eq!(k.semaphores[0].wait_queue.waits, vec![]);
    assert_eq!(dispatch(&mut k), Some(0));
    let outcome = k.take_wait_result().unwrap();
    assert_eq!(outcome, Err(WaitTimeoutError::Timeout));
    assert_eq!(
        Semaphore::wait_one_result(outcome),
        Err(constance::error::WaitSemaphoreTimeoutError::Timeout)
    );
    assert_eq!(k.take_wait_result(), None);
    assert_eq!(Semaphore::wait_one_result(Ok(WaitPayload::SemaphorePermit)), Ok(()));
}

#[test]
fn timeouts_expire_in_the_order_of_their_ticks() {
    let mut heap = TimeoutHeap::new();
    let now: u32 = 0xffff_fff0;
    heap.insert(Timeout { at: 5, owner: TimeoutOwner::Timer(0) });
    heap.insert(Timeout { at: 0xffff_fff8, owner: TimeoutOwner::Timer(1) });
    heap.insert(Timeout { at: 5, owner: TimeoutOwner::Timer(2) });
    heap.insert(Timeout { at: 0xffff_ffe0, owner: TimeoutOwner::Timer(3) });
    assert_eq!(heap.len(), 4);
    assert_eq!(heap.peek_earliest(now), Some(3));
    assert_eq!(heap.ticks_until_next(now), Some(0));
    assert!(heap.is_linked(TimeoutOwner::Timer(2)));
    assert!(!heap.is_linked(TimeoutOwner::Task(2)));
    assert_eq!(heap.expiration_of(TimeoutOwner::Timer(1)), Some(0xffff_fff8));
    assert_eq!(heap.find(TimeoutOwner::Timer(1)), Some(1));

    assert_eq!(heap.pop_due(now), Some(Timeout { at: 0xffff_ffe0, owner: TimeoutOwner::Timer(3) }));
    assert_eq!(heap.pop_due(now), None);
    assert_eq!(heap.ticks_until_next(now), Some(8));
    // Of two timeouts that expire at the same tick the one linked first
    // fires first.
    let later: u32 = 5;
    assert_eq!(heap.pop_due(later), Some(Timeout { at: 0xffff_fff8, owner: TimeoutOwner::Timer(1) }));
    assert_eq!(heap.pop_due(later), Some(Timeout { at: 5, owner: TimeoutOwner::Timer(0) }));
    assert_eq!(heap.remove(TimeoutOwner::Timer(7)), None);
    assert_eq!(heap.remove(TimeoutOwner::Timer(2)), Some(5));
    assert_eq!(heap.pop_due(later), None);
    assert_eq!(heap.ticks_until_next(later), None);

    // All that are due are taken at once, in the order of their ticks.
    let t = |at: u32, owner: usize| Timeout { at, owner: TimeoutOwner::Timer(owner) };
    for entry in [t(30, 0), t(10, 1), t(50, 2), t(10, 3), t(0xffff_ff00, 4)] {
        heap.insert(entry);
    }
    assert_eq!(heap.expire_due(30), vec![t(0xffff_ff00, 4), t(10, 1), t(10, 3), t(30, 0)]);
    assert_eq!(heap.entries, vec![t(50, 2)]);
    assert_eq!(heap.expire_due(30), vec![]);
}

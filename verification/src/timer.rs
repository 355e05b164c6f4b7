//! Application timers: one-shot or periodic, with a delay and a period that
//! can be changed while the timer runs.
use vstd::prelude::*;
use crate::cfg::{CfgBuilder, CfgView, TimerDescriptor};
use crate::error::{
    BadIdError, SetTimerDelayError, SetTimerPeriodError, StartTimerError, StopTimerError,
};
use crate::kernel::{Kernel, KernelView};
use crate::sched::SchedView;
use crate::task::{index_of_id, spec_index_of_id, Id, TaskSt};
use crate::time::{
    expiration_after, saturating_duration_until, spec_remaining, spec_time32_from_delay,
    tick_after, time32_from_delay, Duration, Time32, BAD_DURATION32, TIME_USER_HEADROOM,
};
use crate::timeout::{
    expiration_of, is_linked, lemma_linked, lemma_unlinked, owners_distinct, unlinked, Timeout,
    TimeoutOwner, Timeouts,
};
use crate::wait::WaitQueueId;

verus! {

/// What is fixed about a timer at configuration time. `entry_point` names
/// the callback in the application's table of entry functions.
#[derive(Clone, Copy, PartialEq, Eq, Structural, Debug)]
pub struct TimerAttr {
    pub entry_point: usize,
    pub entry_param: usize,
    /// Whether the timer is Active from boot on.
    pub init_active: bool,
}

/// The state of a timer.
///
/// While the timer is Active and its delay is finite, its timeout is linked
/// and holds the absolute expiration. Otherwise the timeout is not linked,
/// and `delay` holds the delay that is left: what was captured when the
/// timer was stopped, or `BAD_DURATION32` for infinity.
#[derive(Clone, Copy, PartialEq, Eq, Structural, Debug)]
pub struct TimerCb {
    pub attr: TimerAttr,
    /// `true` in the Active state, `false` in the Dormant state.
    pub active: bool,
    pub delay: Time32,
    /// What is added to the expiration at every tick; `BAD_DURATION32` for
    /// infinity.
    pub period: Time32,
}

/// A delay or period is either infinite or within the user headroom.
pub open spec fn valid_time32(t: Time32) -> bool {
    t == BAD_DURATION32 || t <= TIME_USER_HEADROOM
}

impl TimerCb {
    pub open spec fn wf(self) -> bool {
        valid_time32(self.delay) && valid_time32(self.period)
    }

    /// The control block of a timer before boot: Dormant, with its initial
    /// delay and period.
    pub fn new(attr: TimerAttr, delay: Time32, period: Time32) -> (r: TimerCb)
        ensures
            r == (TimerCb { attr, active: false, delay, period }),
    {
        TimerCb { attr, active: false, delay, period }
    }
}


/// A handle to a timer.
#[derive(Clone, Copy, PartialEq, Eq, Structural, Debug, Hash)]
pub struct Timer {
    pub id: Id,
}

impl KernelView {
    /// The timeout of timer `i` is linked.
    pub open spec fn timer_linked(self, i: usize) -> bool {
        is_linked(self.sched.timeouts, TimeoutOwner::Timer(i))
    }

    /// The delay of timer `i`: while its timeout is linked, the time that is
    /// left until it expires, which is zero once it is due; else the delay
    /// that the timer holds.
    pub open spec fn timer_delay(self, i: usize) -> Time32 {
        match expiration_of(self.sched.timeouts, TimeoutOwner::Timer(i)) {
            Some(at) => spec_remaining(at, self.sched.now),
            None => self.timers[i as int].delay,
        }
    }

    /// The state in which timer `i` has the control block `cb` and the
    /// pending timeouts are `timeouts`.
    pub open spec fn with_timer(self, i: usize, cb: TimerCb, timeouts: Timeouts) -> KernelView {
        KernelView {
            sched: SchedView { timeouts, ..self.sched },
            timers: self.timers.update(i as int, cb),
            ..self
        }
    }

    /// The timeouts after that of timer `i` has been linked to expire at
    /// `at`.
    pub open spec fn timer_linked_at(self, i: usize, at: Time32) -> Timeouts {
        self.sched.timeouts.push(Timeout { at, owner: TimeoutOwner::Timer(i) })
    }

    /// The timeouts after that of timer `i` has been unlinked.
    pub open spec fn timer_unlinked(self, i: usize) -> Timeouts {
        unlinked(self.sched.timeouts, TimeoutOwner::Timer(i))
    }

    /// What starting timer `i` does. An Active timer stays as it is. A
    /// Dormant one becomes Active, and where its delay is finite, its
    /// timeout is linked to expire that delay from now.
    pub open spec fn start_timer(self, i: usize) -> KernelView {
        let cb = self.timers[i as int];
        if cb.active {
            self
        } else {
            self.with_timer(
                i,
                TimerCb { active: true, ..cb },
                if cb.delay != BAD_DURATION32 {
                    self.timer_linked_at(i, tick_after(self.sched.now, cb.delay))
                } else {
                    self.sched.timeouts
                },
            )
        }
    }

    /// What stopping timer `i` does. The timer becomes Dormant. Where its
    /// timeout was linked, it is unlinked, and the timer holds the delay
    /// that was left, which is zero where the timeout was due.
    pub open spec fn stop_timer(self, i: usize) -> KernelView {
        let cb = self.timers[i as int];
        self.with_timer(
            i,
            TimerCb { active: false, delay: self.timer_delay(i), ..cb },
            self.timer_unlinked(i),
        )
    }

    /// What setting the delay of timer `i` does. Its timeout is unlinked
    /// where it was linked. For an Active timer and a finite delay the
    /// timeout is linked anew, to expire that delay from now. Else the timer
    /// holds the delay.
    pub open spec fn set_timer_delay(self, i: usize, delay: Time32) -> KernelView {
        let cb = self.timers[i as int];
        let u = self.with_timer(i, cb, self.timer_unlinked(i));
        if cb.active && delay != BAD_DURATION32 {
            u.with_timer(i, cb, u.timer_linked_at(i, tick_after(self.sched.now, delay)))
        } else {
            u.with_timer(i, TimerCb { delay, ..cb }, u.sched.timeouts)
        }
    }

    /// What setting the period of timer `i` does: the timer holds it, and
    /// it takes effect at the next tick.
    pub open spec fn set_timer_period(self, i: usize, period: Time32) -> KernelView {
        self.with_timer(i, TimerCb { period, ..self.timers[i as int] }, self.sched.timeouts)
    }

    /// What the expiration of the timeout of timer `i` does, once the
    /// timeout, which was to expire at `at`, has been unlinked. With a
    /// finite period the timeout is linked anew, to expire one period after
    /// `at`, not after now: a timer that is behind fires again at once,
    /// until it has caught up, and one with a period of zero never does.
    /// With an infinite period the timer stays Active with an infinite
    /// delay.
    pub open spec fn timer_fired(self, i: usize, at: Time32) -> KernelView {
        let cb = self.timers[i as int];
        if cb.period == BAD_DURATION32 {
            self.with_timer(i, TimerCb { delay: BAD_DURATION32, ..cb }, self.sched.timeouts)
        } else {
            self.with_timer(i, cb, self.timer_linked_at(i, tick_after(at, cb.period)))
        }
    }

    /// What `Timer::start` does. With the CPU Lock held it fails with
    /// `BadContext`, for a timer that does not exist with `BadId`.
    pub open spec fn start_timer_by_id(self, id: Id) -> (KernelView, Result<(), StartTimerError>) {
        if self.cpu_lock {
            (self, Err(StartTimerError::BadContext))
        } else {
            match spec_index_of_id(id, self.timers.len()) {
                None => (self, Err(StartTimerError::BadId)),
                Some(i) => (self.start_timer(i), Ok(())),
            }
        }
    }

    /// What `Timer::stop` does. With the CPU Lock held it fails with
    /// `BadContext`, for a timer that does not exist with `BadId`.
    pub open spec fn stop_timer_by_id(self, id: Id) -> (KernelView, Result<(), StopTimerError>) {
        if self.cpu_lock {
            (self, Err(StopTimerError::BadContext))
        } else {
            match spec_index_of_id(id, self.timers.len()) {
                None => (self, Err(StopTimerError::BadId)),
                Some(i) => (self.stop_timer(i), Ok(())),
            }
        }
    }

    /// What `Timer::set_delay` does. For a negative delay it fails with
    /// `BadParam`, with the CPU Lock held with `BadContext`, for a timer
    /// that does not exist with `BadId`. `None` stands for infinity.
    pub open spec fn set_timer_delay_by_id(self, id: Id, delay: Option<Duration>) -> (
        KernelView,
        Result<(), SetTimerDelayError>,
    ) {
        match spec_time32_from_delay(delay) {
            Err(_) => (self, Err(SetTimerDelayError::BadParam)),
            Ok(d) => if self.cpu_lock {
                (self, Err(SetTimerDelayError::BadContext))
            } else {
                match spec_index_of_id(id, self.timers.len()) {
                    None => (self, Err(SetTimerDelayError::BadId)),
                    Some(i) => (self.set_timer_delay(i, d), Ok(())),
                }
            },
        }
    }

    /// What `Timer::set_period` does. For a negative period it fails with
    /// `BadParam`, with the CPU Lock held with `BadContext`, for a timer
    /// that does not exist with `BadId`. `None` stands for infinity.
    pub open spec fn set_timer_period_by_id(self, id: Id, period: Option<Duration>) -> (
        KernelView,
        Result<(), SetTimerPeriodError>,
    ) {
        match spec_time32_from_delay(period) {
            Err(_) => (self, Err(SetTimerPeriodError::BadParam)),
            Ok(p) => if self.cpu_lock {
                (self, Err(SetTimerPeriodError::BadContext))
            } else {
                match spec_index_of_id(id, self.timers.len()) {
                    None => (self, Err(SetTimerPeriodError::BadId)),
                    Some(i) => (self.set_timer_period(i, p), Ok(())),
                }
            },
        }
    }
}

/// A change of a timer and of its timeout keeps the kernel's invariant:
/// where the timeouts stay free of duplicate owners, every other owner is
/// linked as before, each timeout is the timer's or was there before, the
/// timer is Active if its timeout is linked, and its delay is infinite if it
/// is Active and its timeout is not linked.
pub proof fn lemma_timer_change_wf(k: KernelView, i: usize, cb: TimerCb, ts: Timeouts)
    requires
        k.wf(),
        i < k.timers.len(),
        cb.wf(),
        owners_distinct(ts),
        forall|o: TimeoutOwner|
            o != TimeoutOwner::Timer(i) ==> is_linked(ts, o) == is_linked(k.sched.timeouts, o),
        forall|j: int|
            0 <= j < ts.len() ==> (#[trigger] ts[j]).owner == TimeoutOwner::Timer(i)
                || k.sched.timeouts.contains(ts[j]),
        is_linked(ts, TimeoutOwner::Timer(i)) ==> cb.active,
        cb.active && !is_linked(ts, TimeoutOwner::Timer(i)) ==> cb.delay == BAD_DURATION32,
    ensures
        k.with_timer(i, cb, ts).wf(),
{
    let f = k.with_timer(i, cb, ts);
    assert(f.sched.wf()) by {
        assert forall|j: int| 0 <= j < ts.len() implies match (#[trigger] ts[j]).owner {
            TimeoutOwner::Task(u) => u < f.sched.tasks.len() && f.sched.tasks[u as int].st
                == TaskSt::Waiting,
            TimeoutOwner::Timer(_) => true,
        } by {
            if ts[j].owner != TimeoutOwner::Timer(i) {
                let m = choose|m: int|
                    0 <= m < k.sched.timeouts.len() && k.sched.timeouts[m] == ts[j];
                assert(k.sched.timeouts[m].owner == ts[j].owner);
            }
        }
    }
    assert forall|j: int| 0 <= j < f.semaphores.len() implies (#[trigger] f.semaphores[j]).wf()
        && f.semaphores[j].queue.id == WaitQueueId::Semaphore(j as usize)
        && f.semaphores[j].queue.wf(f.sched.tasks) by {
        assert(k.semaphores[j].wf());
        assert(k.semaphores[j].queue.wf(k.sched.tasks));
    }
    assert forall|j: int| 0 <= j < f.event_groups.len() implies (
    #[trigger] f.event_groups[j]).queue.id == WaitQueueId::EventGroup(j as usize)
        && f.event_groups[j].queue.wf(f.sched.tasks) by {
        assert(k.event_groups[j].queue.wf(k.sched.tasks));
    }
    assert forall|u: int|
        0 <= u < f.sched.tasks.len() && (#[trigger] f.sched.tasks[u]).wait is Some
            && f.sched.tasks[u].wait->Some_0.queue is Some implies f.queued(
        f.sched.tasks[u].wait->Some_0.queue->Some_0,
        u as usize,
    ) by {
        assert(k.queued(k.sched.tasks[u].wait->Some_0.queue->Some_0, u as usize));
    }
    assert forall|j: int| 0 <= j < f.sched.timeouts.len() implies match (
    #[trigger] f.sched.timeouts[j]).owner {
        TimeoutOwner::Timer(n) => n < f.timers.len() && f.timers[n as int].active,
        TimeoutOwner::Task(_) => true,
    } by {
        if ts[j].owner == TimeoutOwner::Timer(i) {
            assert(is_linked(ts, TimeoutOwner::Timer(i)));
        } else {
            let m = choose|m: int| 0 <= m < k.sched.timeouts.len() && k.sched.timeouts[m] == ts[j];
            assert(k.sched.timeouts[m].owner == ts[j].owner);
        }
    }
    assert forall|n: int| 0 <= n < f.timers.len() implies (#[trigger] f.timers[n]).wf() && (
    f.timers[n].active && !is_linked(f.sched.timeouts, TimeoutOwner::Timer(n as usize))
        ==> f.timers[n].delay == BAD_DURATION32) by {
        assert(k.timers[n].wf());
        if n != i {
            assert(is_linked(ts, TimeoutOwner::Timer(n as usize)) == is_linked(
                k.sched.timeouts,
                TimeoutOwner::Timer(n as usize),
            ));
        }
    }
}

/// Linking the timeout of a timer that has none linked meets the conditions
/// of `lemma_timer_change_wf`.
pub proof fn lemma_timer_link_wf(k: KernelView, i: usize, cb: TimerCb, at: Time32)
    requires
        k.wf(),
        i < k.timers.len(),
        cb.wf(),
        cb.active,
        !k.timer_linked(i),
    ensures
        k.with_timer(i, cb, k.timer_linked_at(i, at)).wf(),
        k.with_timer(i, cb, k.timer_linked_at(i, at)).timer_linked(i),
        expiration_of(k.timer_linked_at(i, at), TimeoutOwner::Timer(i)) == Some(at),
{
    let t = Timeout { at, owner: TimeoutOwner::Timer(i) };
    let ts = k.timer_linked_at(i, at);
    lemma_linked(k.sched.timeouts, t);
    assert forall|j: int| 0 <= j < ts.len() implies (#[trigger] ts[j]).owner
        == TimeoutOwner::Timer(i) || k.sched.timeouts.contains(ts[j]) by {
        if j < k.sched.timeouts.len() {
            assert(ts[j] == k.sched.timeouts[j]);
        }
    }
    lemma_timer_change_wf(k, i, cb, ts);
}

/// Unlinking the timeout of a timer meets the conditions of
/// `lemma_timer_change_wf`.
pub proof fn lemma_timer_unlink_wf(k: KernelView, i: usize, cb: TimerCb)
    requires
        k.wf(),
        i < k.timers.len(),
        cb.wf(),
        cb.active ==> cb.delay == BAD_DURATION32,
    ensures
        k.with_timer(i, cb, k.timer_unlinked(i)).wf(),
        !k.with_timer(i, cb, k.timer_unlinked(i)).timer_linked(i),
{
    lemma_unlinked(k.sched.timeouts, TimeoutOwner::Timer(i));
    lemma_timer_change_wf(k, i, cb, k.timer_unlinked(i));
}

/// A change of a timer that leaves the timeouts as they are meets the
/// conditions of `lemma_timer_change_wf`.
pub proof fn lemma_timer_keep_wf(k: KernelView, i: usize, cb: TimerCb)
    requires
        k.wf(),
        i < k.timers.len(),
        cb.wf(),
        k.timer_linked(i) ==> cb.active,
        cb.active && !k.timer_linked(i) ==> cb.delay == BAD_DURATION32,
    ensures
        k.with_timer(i, cb, k.sched.timeouts).wf(),
{
    assert forall|j: int| 0 <= j < k.sched.timeouts.len() implies (
    #[trigger] k.sched.timeouts[j]).owner == TimeoutOwner::Timer(i) || k.sched.timeouts.contains(
        k.sched.timeouts[j],
    ) by {}
    lemma_timer_change_wf(k, i, cb, k.sched.timeouts);
}

/// Gives timer `i` the control block `cb`, leaving its timeout as it is.
fn set_timer_cb(k: &mut Kernel, i: usize, cb: TimerCb)
    requires
        old(k)@.wf(),
        i < old(k)@.timers.len(),
        cb.wf(),
        old(k)@.timer_linked(i) ==> cb.active,
        cb.active && !old(k)@.timer_linked(i) ==> cb.delay == BAD_DURATION32,
    ensures
        final(k)@ == old(k)@.with_timer(i, cb, old(k)@.sched.timeouts),
        final(k)@.wf(),
{
    proof {
        lemma_timer_keep_wf(k@, i, cb);
    }
    k.timers[i] = cb;
    proof {
        assert(k@.semaphores =~= old(k)@.semaphores);
        assert(k@.event_groups =~= old(k)@.event_groups);
    }
}

/// Links the timeout of timer `i` to expire at `at`, and gives the timer
/// the control block `cb`.
fn link_timer(k: &mut Kernel, i: usize, cb: TimerCb, at: Time32)
    requires
        old(k)@.wf(),
        i < old(k)@.timers.len(),
        cb.wf(),
        cb.active,
        !old(k)@.timer_linked(i),
    ensures
        final(k)@ == old(k)@.with_timer(i, cb, old(k)@.timer_linked_at(i, at)),
        final(k)@.wf(),
{
    proof {
        lemma_timer_link_wf(k@, i, cb, at);
    }
    k.timers[i] = cb;
    k.sched.timeouts.insert(Timeout { at, owner: TimeoutOwner::Timer(i) });
    proof {
        assert(k@.semaphores =~= old(k)@.semaphores);
        assert(k@.event_groups =~= old(k)@.event_groups);
    }
}

/// Unlinks the timeout of timer `i`, gives the timer the control block
/// `cb`, and returns the expiration that the timeout had.
fn unlink_timer(k: &mut Kernel, i: usize, cb: TimerCb) -> (r: Option<Time32>)
    requires
        old(k)@.wf(),
        i < old(k)@.timers.len(),
        cb.wf(),
        cb.active ==> cb.delay == BAD_DURATION32,
    ensures
        r == expiration_of(old(k)@.sched.timeouts, TimeoutOwner::Timer(i)),
        final(k)@ == old(k)@.with_timer(i, cb, old(k)@.timer_unlinked(i)),
        !final(k)@.timer_linked(i),
        final(k)@.wf(),
{
    proof {
        lemma_timer_unlink_wf(k@, i, cb);
    }
    k.timers[i] = cb;
    let r = k.sched.timeouts.remove(TimeoutOwner::Timer(i));
    proof {
        assert(k@.semaphores =~= old(k)@.semaphores);
        assert(k@.event_groups =~= old(k)@.event_groups);
    }
    r
}

/// Brings timer `i` into its initial state at boot: a timer that is to be
/// active from the start is started.
pub fn init_timer(k: &mut Kernel, i: usize)
    requires
        old(k)@.wf(),
        i < old(k)@.timers.len(),
    ensures
        final(k)@ == if old(k)@.timers[i as int].attr.init_active {
            old(k)@.start_timer(i)
        } else {
            old(k)@
        },
        final(k)@.wf(),
{
    if k.timers[i].attr.init_active {
        start_timer(k, i);
    }
}

/// Starts timer `i`.
pub fn start_timer(k: &mut Kernel, i: usize)
    requires
        old(k)@.wf(),
        i < old(k)@.timers.len(),
    ensures
        final(k)@ == old(k)@.start_timer(i),
        final(k)@.wf(),
{
    let cb = k.timers[i];
    if cb.active {
        return ;
    }
    proof {
        assert(k@.timers[i as int].wf());
        if k@.timer_linked(i) {
            let j = choose|j: int|
                0 <= j < k@.sched.timeouts.len() && (#[trigger] k@.sched.timeouts[j]).owner
                    == TimeoutOwner::Timer(i);
            assert(k@.timers[i as int].active);
        }
    }
    let started = TimerCb { active: true, ..cb };
    if cb.delay != BAD_DURATION32 {
        let at = expiration_after(k.sched.now, cb.delay);
        link_timer(k, i, started, at);
    } else {
        set_timer_cb(k, i, started);
    }
}

/// Stops timer `i`.
pub fn stop_timer(k: &mut Kernel, i: usize)
    requires
        old(k)@.wf(),
        i < old(k)@.timers.len(),
    ensures
        final(k)@ == old(k)@.stop_timer(i),
        final(k)@.wf(),
{
    let cb = k.timers[i];
    proof {
        assert(k@.timers[i as int].wf());
    }
    let delay = match k.sched.timeouts.expiration_of(TimeoutOwner::Timer(i)) {
        Some(at) => saturating_duration_until(at, k.sched.now),
        None => cb.delay,
    };
    let _ = unlink_timer(k, i, TimerCb { active: false, delay, ..cb });
}

/// Sets the delay of timer `i`.
pub fn set_timer_delay(k: &mut Kernel, i: usize, delay: Time32)
    requires
        old(k)@.wf(),
        i < old(k)@.timers.len(),
        valid_time32(delay),
    ensures
        final(k)@ == old(k)@.set_timer_delay(i, delay),
        final(k)@.wf(),
{
    let cb = k.timers[i];
    proof {
        assert(k@.timers[i as int].wf());
    }
    if cb.active && delay != BAD_DURATION32 {
        // The timer stays linked; its control block is kept valid in between
        // by an infinite delay.
        let _ = unlink_timer(k, i, TimerCb { delay: BAD_DURATION32, ..cb });
        let at = expiration_after(k.sched.now, delay);
        link_timer(k, i, cb, at);
        proof {
            assert(k@.timers =~= old(k)@.set_timer_delay(i, delay).timers);
        }
    } else {
        let _ = unlink_timer(k, i, TimerCb { delay, ..cb });
        proof {
            assert(k@.timers =~= old(k)@.set_timer_delay(i, delay).timers);
        }
    }
}

/// Sets the period of timer `i`.
pub fn set_timer_period(k: &mut Kernel, i: usize, period: Time32)
    requires
        old(k)@.wf(),
        i < old(k)@.timers.len(),
        valid_time32(period),
    ensures
        final(k)@ == old(k)@.set_timer_period(i, period),
        final(k)@.wf(),
{
    let cb = k.timers[i];
    proof {
        assert(k@.timers[i as int].wf());
        if k@.timer_linked(i) {
            let j = choose|j: int|
                0 <= j < k@.sched.timeouts.len() && (#[trigger] k@.sched.timeouts[j]).owner
                    == TimeoutOwner::Timer(i);
            assert(k@.timers[i as int].active);
        }
    }
    set_timer_cb(k, i, TimerCb { period, ..cb });
}

/// What is to be done when the timeout of timer `i` has expired and has
/// been unlinked: schedules the next tick, one period after the expiration
/// `at`, and returns the callback to call and its parameter. The caller
/// calls it with the CPU Lock released.
pub fn timer_timeout_handler(k: &mut Kernel, i: usize, at: Time32) -> (r: (usize, usize))
    requires
        old(k)@.wf(),
        i < old(k)@.timers.len(),
        old(k)@.timers[i as int].active,
        !old(k)@.timer_linked(i),
    ensures
        final(k)@ == old(k)@.timer_fired(i, at),
        r == (
            old(k)@.timers[i as int].attr.entry_point,
            old(k)@.timers[i as int].attr.entry_param,
        ),
        final(k)@.wf(),
{
    let cb = k.timers[i];
    proof {
        assert(k@.timers[i as int].wf());
    }
    if cb.period == BAD_DURATION32 {
        set_timer_cb(k, i, TimerCb { delay: BAD_DURATION32, ..cb });
    } else {
        let next = expiration_after(at, cb.period);
        link_timer(k, i, cb, next);
    }
    (cb.attr.entry_point, cb.attr.entry_param)
}

impl Timer {
    pub fn from_id(id: Id) -> (r: Timer)
        ensures
            r.id == id,
    {
        Timer { id }
    }

    /// The identifier behind this handle.
    pub fn id(self) -> (r: Id)
        ensures
            r == self.id,
    {
        self.id
    }

    /// The place of the timer's control block in the kernel's table, or
    /// `BadId` where the handle names no timer.
    pub fn timer_cb(self, k: &Kernel) -> (r: Result<usize, BadIdError>)
        ensures
            r == match spec_index_of_id(self.id, k@.timers.len()) {
                Some(i) => Ok::<usize, BadIdError>(i),
                None => Err(BadIdError::BadId),
            },
    {
        match index_of_id(self.id, k.timers.len()) {
            Some(i) => Ok(i),
            None => Err(BadIdError::BadId),
        }
    }

    /// Starts the timer: brings it into the Active state. No effect on a
    /// timer that is Active.
    pub fn start(self, k: &mut Kernel) -> (r: Result<(), StartTimerError>)
        requires
            old(k)@.wf(),
        ensures
            (final(k)@, r) == old(k)@.start_timer_by_id(self.id),
            final(k)@.wf(),
    {
        if k.cpu_lock {
            return Err(StartTimerError::BadContext);
        }
        let i = match self.timer_cb(k) {
            Ok(i) => i,
            Err(_) => {
                return Err(StartTimerError::BadId);
            },
        };
        start_timer(k, i);
        Ok(())
    }

    /// Stops the timer: brings it into the Dormant state. No effect on a
    /// timer that is Dormant.
    pub fn stop(self, k: &mut Kernel) -> (r: Result<(), StopTimerError>)
        requires
            old(k)@.wf(),
        ensures
            (final(k)@, r) == old(k)@.stop_timer_by_id(self.id),
            final(k)@.wf(),
    {
        if k.cpu_lock {
            return Err(StopTimerError::BadContext);
        }
        let i = match self.timer_cb(k) {
            Ok(i) => i,
            Err(_) => {
                return Err(StopTimerError::BadId);
            },
        };
        stop_timer(k, i);
        Ok(())
    }

    /// Sets the time before the next tick. For a Dormant timer this is the
    /// time between its next start and the first tick after it. `None`
    /// means infinity: the timer will not fire.
    pub fn set_delay(self, k: &mut Kernel, delay: Option<Duration>) -> (r: Result<
        (),
        SetTimerDelayError,
    >)
        requires
            old(k)@.wf(),
        ensures
            (final(k)@, r) == old(k)@.set_timer_delay_by_id(self.id, delay),
            final(k)@.wf(),
    {
        let time32 = match time32_from_delay(delay) {
            Ok(x) => x,
            Err(_) => {
                return Err(SetTimerDelayError::BadParam);
            },
        };
        if k.cpu_lock {
            return Err(SetTimerDelayError::BadContext);
        }
        let i = match self.timer_cb(k) {
            Ok(i) => i,
            Err(_) => {
                return Err(SetTimerDelayError::BadId);
            },
        };
        set_timer_delay(k, i, time32);
        Ok(())
    }

    /// Sets the period: what is added to the timer's absolute expiration at
    /// every tick. `None` means infinity.
    pub fn set_period(self, k: &mut Kernel, period: Option<Duration>) -> (r: Result<
        (),
        SetTimerPeriodError,
    >)
        requires
            old(k)@.wf(),
        ensures
            (final(k)@, r) == old(k)@.set_timer_period_by_id(self.id, period),
            final(k)@.wf(),
    {
        let time32 = match time32_from_delay(period) {
            Ok(x) => x,
            Err(_) => {
                return Err(SetTimerPeriodError::BadParam);
            },
        };
        if k.cpu_lock {
            return Err(SetTimerPeriodError::BadContext);
        }
        let i = match self.timer_cb(k) {
            Ok(i) => i,
            Err(_) => {
                return Err(SetTimerPeriodError::BadId);
            },
        };
        set_timer_period(k, i, time32);
        Ok(())
    }
}


/// Defines a timer, property by property.
#[derive(Clone, Copy, Debug)]
pub struct TimerDefiner {
    pub start: Option<usize>,
    pub param: usize,
    pub delay: Option<Duration>,
    pub period: Option<Duration>,
    pub active: bool,
}

impl Timer {
    /// Begins the definition of a timer: Dormant at boot, with an infinite
    /// delay and an infinite period.
    pub fn build() -> (r: TimerDefiner)
        ensures
            r == (TimerDefiner { start: None, param: 0, delay: None, period: None, active: false }),
    {
        TimerDefiner { start: None, param: 0, delay: None, period: None, active: false }
    }
}

impl TimerDefiner {
    /// Gives the callback. Required.
    pub fn start(self, start: usize) -> (r: TimerDefiner)
        ensures
            r == (TimerDefiner { start: Some(start), ..self }),
    {
        TimerDefiner { start: Some(start), ..self }
    }

    /// Gives the parameter that the callback is called with.
    pub fn param(self, param: usize) -> (r: TimerDefiner)
        ensures
            r == (TimerDefiner { param, ..self }),
    {
        TimerDefiner { param, ..self }
    }

    /// Gives the delay before the first tick.
    pub fn delay(self, delay: Duration) -> (r: TimerDefiner)
        ensures
            r == (TimerDefiner { delay: Some(delay), ..self }),
    {
        TimerDefiner { delay: Some(delay), ..self }
    }

    /// Gives the period.
    pub fn period(self, period: Duration) -> (r: TimerDefiner)
        ensures
            r == (TimerDefiner { period: Some(period), ..self }),
    {
        TimerDefiner { period: Some(period), ..self }
    }

    /// Says whether the timer is Active at boot.
    pub fn active(self, active: bool) -> (r: TimerDefiner)
        ensures
            r == (TimerDefiner { active, ..self }),
    {
        TimerDefiner { active, ..self }
    }

    /// The timer can be added to `c`: its callback is given, and neither its
    /// delay nor its period is negative.
    pub open spec fn can_finish(self, c: CfgView) -> bool {
        &&& self.start is Some
        &&& spec_time32_from_delay(self.delay) is Ok
        &&& spec_time32_from_delay(self.period) is Ok
        &&& c.timers.len() < usize::MAX
    }

    /// Adds the timer to the configuration and returns a handle to it.
    pub fn finish(self, c: &mut CfgBuilder) -> (r: Timer)
        requires
            self.can_finish(old(c)@),
        ensures
            final(c)@ == (CfgView {
                timers: old(c)@.timers.push(
                    TimerDescriptor {
                        attr: TimerAttr {
                            entry_point: self.start->Some_0,
                            entry_param: self.param,
                            init_active: self.active,
                        },
                        delay: spec_time32_from_delay(self.delay)->Ok_0,
                        period: spec_time32_from_delay(self.period)->Ok_0,
                    },
                ),
                ..old(c)@
            }),
            r.id == old(c)@.timers.len() + 1,
    {
        let delay = match time32_from_delay(self.delay) {
            Ok(d) => d,
            Err(_) => BAD_DURATION32,
        };
        let period = match time32_from_delay(self.period) {
            Ok(p) => p,
            Err(_) => BAD_DURATION32,
        };
        c.timers.push(
            TimerDescriptor {
                attr: TimerAttr {
                    entry_point: self.start.unwrap(),
                    entry_param: self.param,
                    init_active: self.active,
                },
                delay,
                period,
            },
        );
        Timer { id: c.timers.len() }
    }
}

} // verus!

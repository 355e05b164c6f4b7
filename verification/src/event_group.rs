//! Event groups.
use vstd::prelude::*;
use crate::cfg::{CfgBuilder, CfgView, EventGroupDescriptor};
use crate::error::{
    GetEventGroupError, PollEventGroupError, UpdateEventGroupError, WaitEventGroupError,
    WaitEventGroupTimeoutError, WaitTimeoutError,
};
use crate::kernel::{Kernel, KernelView};
use crate::task::{index_of_id, spec_index_of_id, Id, TaskSt, WaitOutcome};
use crate::time::{
    expiration_after, spec_time32_from_duration, tick_after, time32_from_duration, Duration,
};
use crate::wait::{
    lemma_without, Blocking, EventGroupBits, EventGroupWaitFlags, QueueOrder, WaitPayload,
    WaitQueue, WaitQueueId, WaitQueueView,
};

verus! {

/// The state of an event group as plain data.
pub struct EventGroupView {
    pub bits: EventGroupBits,
    pub queue: WaitQueueView,
}

/// The state of an event group.
pub struct EventGroupCb {
    pub bits: EventGroupBits,
    pub wait_queue: WaitQueue,
}

impl View for EventGroupCb {
    type V = EventGroupView;

    open spec fn view(&self) -> EventGroupView {
        EventGroupView { bits: self.bits, queue: self.wait_queue@ }
    }
}

impl EventGroupCb {
    /// The event group with index `index`, holding the bits `initial`, with
    /// nobody waiting.
    pub fn new(index: usize, initial: EventGroupBits, order: QueueOrder) -> (r: EventGroupCb)
        ensures
            r@ == (EventGroupView {
                bits: initial,
                queue: WaitQueueView {
                    id: WaitQueueId::EventGroup(index),
                    waits: Seq::empty(),
                    order,
                },
            }),
    {
        EventGroupCb { bits: initial, wait_queue: WaitQueue::new(WaitQueueId::EventGroup(index), order) }
    }
}


/// A handle to an event group.
#[derive(Clone, Copy, PartialEq, Eq, Structural, Debug, Hash)]
pub struct EventGroup {
    pub id: Id,
}

/// Whether the bits `bits` of a group satisfy a waiter: all bits of its
/// mask are set, or, where it does not ask for all, any of them.
pub open spec fn spec_is_satisfied(
    bits: EventGroupBits,
    mask: EventGroupBits,
    flags: EventGroupWaitFlags,
) -> bool {
    if flags.all {
        bits & mask == mask
    } else {
        bits & mask != 0
    }
}

#[verifier::when_used_as_spec(spec_is_satisfied)]
pub fn is_satisfied(bits: EventGroupBits, mask: EventGroupBits, flags: EventGroupWaitFlags) -> (r:
    bool)
    ensures
        r == spec_is_satisfied(bits, mask, flags),
{
    if flags.all {
        bits & mask == mask
    } else {
        bits & mask != 0
    }
}

/// The bits that a satisfied waiter clears in the group: those of its mask
/// that are set, where it asks for clearing, and none where not.
pub open spec fn spec_cleared_bits(
    bits: EventGroupBits,
    mask: EventGroupBits,
    flags: EventGroupWaitFlags,
) -> EventGroupBits {
    if flags.clear {
        bits & mask
    } else {
        0
    }
}

#[verifier::when_used_as_spec(spec_cleared_bits)]
pub fn cleared_bits(bits: EventGroupBits, mask: EventGroupBits, flags: EventGroupWaitFlags) -> (r:
    EventGroupBits)
    ensures
        r == spec_cleared_bits(bits, mask, flags),
{
    if flags.clear {
        bits & mask
    } else {
        0
    }
}

/// The bits of the group after a waiter has been satisfied: without those
/// of its mask, where it asks for clearing.
pub open spec fn spec_bits_after(
    bits: EventGroupBits,
    mask: EventGroupBits,
    flags: EventGroupWaitFlags,
) -> EventGroupBits {
    if flags.clear {
        bits & !mask
    } else {
        bits
    }
}

#[verifier::when_used_as_spec(spec_bits_after)]
pub fn bits_after(bits: EventGroupBits, mask: EventGroupBits, flags: EventGroupWaitFlags) -> (r:
    EventGroupBits)
    ensures
        r == spec_bits_after(bits, mask, flags),
{
    if flags.clear {
        bits & !mask
    } else {
        bits
    }
}

impl KernelView {
    /// The state in which event group `i` holds the bits `bits`.
    pub open spec fn with_bits(self, i: usize, bits: EventGroupBits) -> KernelView {
        KernelView {
            event_groups: self.event_groups.update(
                i as int,
                EventGroupView { bits, ..self.event_groups[i as int] },
            ),
            ..self
        }
    }

    /// What the polling of event group `i` does: where the group's bits
    /// satisfy the mask, the bits to be cleared leave the group and are
    /// returned.
    pub open spec fn take_bits(self, i: usize, mask: EventGroupBits, flags: EventGroupWaitFlags) -> (
        KernelView,
        Option<EventGroupBits>,
    ) {
        let bits = self.event_groups[i as int].bits;
        if spec_is_satisfied(bits, mask, flags) {
            (
                self.with_bits(i, spec_bits_after(bits, mask, flags)),
                Some(spec_cleared_bits(bits, mask, flags)),
            )
        } else {
            (self, None)
        }
    }

    /// The scan of the wait queue of event group `i` from place `pos` on,
    /// for at most `steps` steps. A waiter whose mask the group's bits
    /// satisfy leaves the queue and is woken, with the group's bits of that
    /// moment in its payload, and the bits that it clears leave the group
    /// before the scan goes on; any other waiter stays.
    pub open spec fn wake_satisfied(self, i: usize, pos: int, steps: nat) -> KernelView
        decreases steps,
    {
        let queue = self.event_groups[i as int].queue;
        if steps == 0 || pos < 0 || pos >= queue.waits.len() {
            self
        } else {
            let t = queue.waits[pos];
            let bits = self.event_groups[i as int].bits;
            match self.sched.tasks[t as int].wait {
                Some(w) => match w.payload {
                    WaitPayload::EventGroupBits { bits: mask, flags, orig_bits } => {
                        if spec_is_satisfied(bits, mask, flags) {
                            self.end_wait(
                                t,
                                Ok(WaitPayload::EventGroupBits { bits: mask, flags, orig_bits: bits }),
                            ).with_bits(i, spec_bits_after(bits, mask, flags)).wake_satisfied(
                                i,
                                pos,
                                (steps - 1) as nat,
                            )
                        } else {
                            self.wake_satisfied(i, pos + 1, (steps - 1) as nat)
                        }
                    },
                    _ => self.wake_satisfied(i, pos + 1, (steps - 1) as nat),
                },
                None => self.wake_satisfied(i, pos + 1, (steps - 1) as nat),
            }
        }
    }

    /// What `EventGroup::set` does. With the CPU Lock held it fails with
    /// `BadContext`, for a group that does not exist with `BadId`. Else the
    /// bits of `mask` are set in the group, the wait queue is scanned from
    /// its head to its tail, waking the waiters that are satisfied, and the
    /// preemption check runs.
    pub open spec fn set_event_group(self, id: Id, mask: EventGroupBits) -> (
        KernelView,
        Result<(), UpdateEventGroupError>,
    ) {
        if self.cpu_lock {
            (self, Err(UpdateEventGroupError::BadContext))
        } else {
            match spec_index_of_id(id, self.event_groups.len()) {
                None => (self, Err(UpdateEventGroupError::BadId)),
                Some(i) => (
                    self.with_bits(i, self.event_groups[i as int].bits | mask).wake_satisfied(
                        i,
                        0,
                        self.event_groups[i as int].queue.waits.len(),
                    ).check_preemption(),
                    Ok(()),
                ),
            }
        }
    }

    /// What `EventGroup::clear` does. With the CPU Lock held it fails with
    /// `BadContext`, for a group that does not exist with `BadId`. Else the
    /// bits of `mask` are cleared in the group.
    pub open spec fn clear_event_group(self, id: Id, mask: EventGroupBits) -> (
        KernelView,
        Result<(), UpdateEventGroupError>,
    ) {
        if self.cpu_lock {
            (self, Err(UpdateEventGroupError::BadContext))
        } else {
            match spec_index_of_id(id, self.event_groups.len()) {
                None => (self, Err(UpdateEventGroupError::BadId)),
                Some(i) => (
                    self.with_bits(i, self.event_groups[i as int].bits & !mask),
                    Ok(()),
                ),
            }
        }
    }

    /// What `EventGroup::get` returns: the bits, or `BadContext` with the
    /// CPU Lock held, or `BadId` for a group that does not exist.
    pub open spec fn get_event_group(self, id: Id) -> Result<EventGroupBits, GetEventGroupError> {
        if self.cpu_lock {
            Err(GetEventGroupError::BadContext)
        } else {
            match spec_index_of_id(id, self.event_groups.len()) {
                None => Err(GetEventGroupError::BadId),
                Some(i) => Ok(self.event_groups[i as int].bits),
            }
        }
    }

    /// What `EventGroup::poll` does. With the CPU Lock held it fails with
    /// `BadContext`, for a group that does not exist with `BadId`, where
    /// the group's bits do not satisfy the mask with `Timeout`. Else the
    /// bits to be cleared leave the group and are returned.
    pub open spec fn poll_event_group(self, id: Id, mask: EventGroupBits, flags: EventGroupWaitFlags) -> (
        KernelView,
        Result<EventGroupBits, PollEventGroupError>,
    ) {
        if self.cpu_lock {
            (self, Err(PollEventGroupError::BadContext))
        } else {
            match spec_index_of_id(id, self.event_groups.len()) {
                None => (self, Err(PollEventGroupError::BadId)),
                Some(i) => {
                    let (taken, cleared) = self.take_bits(i, mask, flags);
                    match cleared {
                        Some(c) => (taken, Ok(c)),
                        None => (self, Err(PollEventGroupError::Timeout)),
                    }
                },
            }
        }
    }

    /// What `EventGroup::wait` does. Where blocking is not allowed it fails
    /// with `BadContext`, for a group that does not exist with `BadId`.
    /// Else, where the group's bits satisfy the mask, the bits to be cleared
    /// leave the group and are returned; where not, the running task joins
    /// the group's queue and waits, and the preemption check runs.
    pub open spec fn wait_event_group(self, id: Id, mask: EventGroupBits, flags: EventGroupWaitFlags) -> (
        KernelView,
        Result<Blocking<EventGroupBits>, WaitEventGroupError>,
    ) {
        if !self.is_waitable() {
            (self, Err(WaitEventGroupError::BadContext))
        } else {
            match spec_index_of_id(id, self.event_groups.len()) {
                None => (self, Err(WaitEventGroupError::BadId)),
                Some(i) => {
                    let (taken, cleared) = self.take_bits(i, mask, flags);
                    match cleared {
                        Some(c) => (taken, Ok(Blocking::Done(c))),
                        None => (
                            self.block(
                                Some(WaitQueueId::EventGroup(i)),
                                WaitPayload::EventGroupBits { bits: mask, flags, orig_bits: 0 },
                                None,
                            ).check_preemption(),
                            Ok(Blocking::Blocked),
                        ),
                    }
                },
            }
        }
    }

    /// What `EventGroup::wait_timeout` does. For a negative timeout it
    /// fails with `BadParam`, where blocking is not allowed with
    /// `BadContext`, for a group that does not exist with `BadId`. Else,
    /// where the group's bits satisfy the mask, the bits to be cleared leave
    /// the group and are returned. Where not, a timeout of zero fails with
    /// `Timeout` at once; with any other, the running task joins the
    /// group's queue and waits, its timeout expiring `timeout` from now, and
    /// the preemption check runs.
    pub open spec fn wait_event_group_timeout(
        self,
        id: Id,
        mask: EventGroupBits,
        flags: EventGroupWaitFlags,
        timeout: Duration,
    ) -> (KernelView, Result<Blocking<EventGroupBits>, WaitEventGroupTimeoutError>) {
        match spec_time32_from_duration(timeout) {
            Err(_) => (self, Err(WaitEventGroupTimeoutError::BadParam)),
            Ok(d) => if !self.is_waitable() {
                (self, Err(WaitEventGroupTimeoutError::BadContext))
            } else {
                match spec_index_of_id(id, self.event_groups.len()) {
                    None => (self, Err(WaitEventGroupTimeoutError::BadId)),
                    Some(i) => {
                        let (taken, cleared) = self.take_bits(i, mask, flags);
                        match cleared {
                            Some(c) => (taken, Ok(Blocking::Done(c))),
                            None => if d == 0 {
                                (self, Err(WaitEventGroupTimeoutError::Timeout))
                            } else {
                                (
                                    self.block(
                                        Some(WaitQueueId::EventGroup(i)),
                                        WaitPayload::EventGroupBits {
                                            bits: mask,
                                            flags,
                                            orig_bits: 0,
                                        },
                                        Some(tick_after(self.sched.now, d)),
                                    ).check_preemption(),
                                    Ok(Blocking::Blocked),
                                )
                            },
                        }
                    },
                }
            },
        }
    }
}

/// New bits of an event group keep the kernel's invariant.
pub proof fn lemma_bits_wf(k: KernelView, i: usize, bits: EventGroupBits)
    requires
        k.wf(),
        i < k.event_groups.len(),
    ensures
        k.with_bits(i, bits).wf(),
{
    let f = k.with_bits(i, bits);
    assert forall|j: int| 0 <= j < f.event_groups.len() implies (
    #[trigger] f.event_groups[j]).queue.id == WaitQueueId::EventGroup(j as usize)
        && f.event_groups[j].queue.wf(f.sched.tasks) by {
        assert(k.event_groups[j].queue.wf(k.sched.tasks));
    }
    assert forall|u: int|
        0 <= u < f.sched.tasks.len() && (#[trigger] f.sched.tasks[u]).wait is Some
            && f.sched.tasks[u].wait->Some_0.queue is Some implies f.queued(
        f.sched.tasks[u].wait->Some_0.queue->Some_0,
        u as usize,
    ) by {
        assert(k.queued(k.sched.tasks[u].wait->Some_0.queue->Some_0, u as usize));
    }
}

impl EventGroup {
    pub fn from_id(id: Id) -> (r: EventGroup)
        ensures
            r.id == id,
    {
        EventGroup { id }
    }

    pub fn id(self) -> (r: Id)
        ensures
            r == self.id,
    {
        self.id
    }

    /// Sets the bits of `mask` and wakes the waiters that are satisfied.
    pub fn set(self, k: &mut Kernel, mask: EventGroupBits) -> (r: Result<
        (),
        UpdateEventGroupError,
    >)
        requires
            old(k)@.wf(),
        ensures
            (final(k)@, r) == old(k)@.set_event_group(self.id, mask),
            final(k)@.wf(),
    {
        if k.cpu_lock {
            return Err(UpdateEventGroupError::BadContext);
        }
        let i = match index_of_id(self.id, k.event_groups.len()) {
            Some(i) => i,
            None => {
                return Err(UpdateEventGroupError::BadId);
            },
        };
        set_bits(k, i, k.event_groups[i].bits | mask);
        wake_up_all_conditional(k, i);
        k.unlock_cpu_and_check_preemption();
        Ok(())
    }

    /// Clears the bits of `mask`.
    pub fn clear(self, k: &mut Kernel, mask: EventGroupBits) -> (r: Result<
        (),
        UpdateEventGroupError,
    >)
        requires
            old(k)@.wf(),
        ensures
            (final(k)@, r) == old(k)@.clear_event_group(self.id, mask),
            final(k)@.wf(),
    {
        if k.cpu_lock {
            return Err(UpdateEventGroupError::BadContext);
        }
        let i = match index_of_id(self.id, k.event_groups.len()) {
            Some(i) => i,
            None => {
                return Err(UpdateEventGroupError::BadId);
            },
        };
        set_bits(k, i, k.event_groups[i].bits & !mask);
        Ok(())
    }

    /// The bits that the group holds.
    pub fn get(self, k: &Kernel) -> (r: Result<EventGroupBits, GetEventGroupError>)
        ensures
            r == k@.get_event_group(self.id),
    {
        if k.cpu_lock {
            return Err(GetEventGroupError::BadContext);
        }
        match index_of_id(self.id, k.event_groups.len()) {
            Some(i) => Ok(k.event_groups[i].bits),
            None => Err(GetEventGroupError::BadId),
        }
    }

    /// Takes the bits if the group satisfies the mask; never waits.
    pub fn poll(self, k: &mut Kernel, mask: EventGroupBits, flags: EventGroupWaitFlags) -> (r: Result<
        EventGroupBits,
        PollEventGroupError,
    >)
        requires
            old(k)@.wf(),
        ensures
            (final(k)@, r) == old(k)@.poll_event_group(self.id, mask, flags),
            final(k)@.wf(),
    {
        if k.cpu_lock {
            return Err(PollEventGroupError::BadContext);
        }
        let i = match index_of_id(self.id, k.event_groups.len()) {
            Some(i) => i,
            None => {
                return Err(PollEventGroupError::BadId);
            },
        };
        match take_bits(k, i, mask, flags) {
            Some(c) => Ok(c),
            None => Err(PollEventGroupError::Timeout),
        }
    }

    /// Waits until the group satisfies the mask.
    pub fn wait(self, k: &mut Kernel, mask: EventGroupBits, flags: EventGroupWaitFlags) -> (r: Result<
        Blocking<EventGroupBits>,
        WaitEventGroupError,
    >)
        requires
            old(k)@.wf(),
        ensures
            (final(k)@, r) == old(k)@.wait_event_group(self.id, mask, flags),
            final(k)@.wf(),
    {
        if !k.is_waitable() {
            return Err(WaitEventGroupError::BadContext);
        }
        let i = match index_of_id(self.id, k.event_groups.len()) {
            Some(i) => i,
            None => {
                return Err(WaitEventGroupError::BadId);
            },
        };
        match take_bits(k, i, mask, flags) {
            Some(c) => {
                return Ok(Blocking::Done(c));
            },
            None => {},
        }
        k.block(
            Some(WaitQueueId::EventGroup(i)),
            WaitPayload::EventGroupBits { bits: mask, flags, orig_bits: 0 },
            None,
        );
        k.unlock_cpu_and_check_preemption();
        Ok(Blocking::Blocked)
    }

    /// Waits until the group satisfies the mask, for at most `timeout`.
    pub fn wait_timeout(
        self,
        k: &mut Kernel,
        mask: EventGroupBits,
        flags: EventGroupWaitFlags,
        timeout: Duration,
    ) -> (r: Result<Blocking<EventGroupBits>, WaitEventGroupTimeoutError>)
        requires
            old(k)@.wf(),
        ensures
            (final(k)@, r) == old(k)@.wait_event_group_timeout(self.id, mask, flags, timeout),
            final(k)@.wf(),
    {
        let d = match time32_from_duration(timeout) {
            Ok(d) => d,
            Err(_) => {
                return Err(WaitEventGroupTimeoutError::BadParam);
            },
        };
        if !k.is_waitable() {
            return Err(WaitEventGroupTimeoutError::BadContext);
        }
        let i = match index_of_id(self.id, k.event_groups.len()) {
            Some(i) => i,
            None => {
                return Err(WaitEventGroupTimeoutError::BadId);
            },
        };
        match take_bits(k, i, mask, flags) {
            Some(c) => {
                return Ok(Blocking::Done(c));
            },
            None => {},
        }
        if d == 0 {
            return Err(WaitEventGroupTimeoutError::Timeout);
        }
        let at = expiration_after(k.sched.now, d);
        k.block(
            Some(WaitQueueId::EventGroup(i)),
            WaitPayload::EventGroupBits { bits: mask, flags, orig_bits: 0 },
            Some(at),
        );
        k.unlock_cpu_and_check_preemption();
        Ok(Blocking::Blocked)
    }

    /// What a task that waited for an event group is told when it runs
    /// again: the bits that its wait cleared in the group, or why the wait
    /// ended without them.
    pub fn wait_result(outcome: WaitOutcome) -> (r: Result<
        EventGroupBits,
        WaitEventGroupTimeoutError,
    >)
        ensures
            r == match outcome {
                Ok(WaitPayload::EventGroupBits { bits, flags, orig_bits }) => Ok::<
                    EventGroupBits,
                    WaitEventGroupTimeoutError,
                >(spec_cleared_bits(orig_bits, bits, flags)),
                Ok(_) => Ok(0),
                Err(WaitTimeoutError::Interrupted) => Err(WaitEventGroupTimeoutError::Interrupted),
                Err(WaitTimeoutError::Timeout) => Err(WaitEventGroupTimeoutError::Timeout),
            },
    {
        match outcome {
            Ok(WaitPayload::EventGroupBits { bits, flags, orig_bits }) => Ok(
                cleared_bits(orig_bits, bits, flags),
            ),
            Ok(_) => Ok(0),
            Err(WaitTimeoutError::Interrupted) => Err(WaitEventGroupTimeoutError::Interrupted),
            Err(WaitTimeoutError::Timeout) => Err(WaitEventGroupTimeoutError::Timeout),
        }
    }
}

/// Scans the wait queue of event group `i` from its head to its tail and
/// wakes each waiter that the group's bits satisfy, taking out of the group
/// the bits that the waiter clears before the scan goes on.
pub fn wake_up_all_conditional(k: &mut Kernel, i: usize)
    requires
        old(k)@.wf(),
        i < old(k)@.event_groups.len(),
    ensures
        final(k)@ == old(k)@.wake_satisfied(
            i,
            0,
            old(k)@.event_groups[i as int].queue.waits.len(),
        ),
        final(k)@.wf(),
{
    let ghost start = k@;
    let ghost mut steps: nat = k@.event_groups[i as int].queue.waits.len();
    let mut pos: usize = 0;
    while pos < k.event_groups[i].wait_queue.waits.len()
        invariant
            k@.wf(),
            i < k@.event_groups.len(),
            steps + pos >= k@.event_groups[i as int].queue.waits.len(),
            k@.wake_satisfied(i, pos as int, steps) == start.wake_satisfied(
                i,
                0,
                start.event_groups[i as int].queue.waits.len(),
            ),
        decreases k@.event_groups[i as int].queue.waits.len() - pos,
    {
        let t = k.event_groups[i].wait_queue.waits[pos];
        let bits = k.event_groups[i].bits;
        proof {
            let q = k@.event_groups[i as int].queue;
            assert(q.wf(k@.sched.tasks));
            assert(q.waits[pos as int] == t);
            assert(k@.sched.tasks[t as int].st == TaskSt::Waiting
                <==> k@.sched.tasks[t as int].wait is Some);
            lemma_without(q.waits, t);
            assert(q.waits.contains(t));
            q.waits.index_of_first_ensures(t);
        }
        let satisfied = match k.sched.tasks[t].wait {
            Some(w) => match w.payload {
                WaitPayload::EventGroupBits { bits: mask, flags, orig_bits } => {
                    if is_satisfied(bits, mask, flags) {
                        Some((mask, flags))
                    } else {
                        None
                    }
                },
                _ => None,
            },
            None => None,
        };
        match satisfied {
            Some((mask, flags)) => {
                k.end_wait(
                    t,
                    Ok(WaitPayload::EventGroupBits { bits: mask, flags, orig_bits: bits }),
                );
                set_bits(k, i, bits_after(bits, mask, flags));
            },
            None => {
                pos += 1;
            },
        }
        proof {
            steps = (steps - 1) as nat;
        }
    }
}

/// Gives event group `i` the bits `bits`.
pub fn set_bits(k: &mut Kernel, i: usize, bits: EventGroupBits)
    requires
        old(k)@.wf(),
        i < old(k)@.event_groups.len(),
    ensures
        final(k)@ == old(k)@.with_bits(i, bits),
        final(k)@.wf(),
{
    proof {
        lemma_bits_wf(k@, i, bits);
    }
    k.event_groups[i].bits = bits;
    proof {
        assert(k@.event_groups =~= old(k)@.with_bits(i, bits).event_groups);
        assert(k@.semaphores =~= old(k)@.semaphores);
    }
}

/// Takes from event group `i` the bits that a waiter with `mask` and
/// `flags` clears, where the group satisfies it.
pub fn take_bits(k: &mut Kernel, i: usize, mask: EventGroupBits, flags: EventGroupWaitFlags) -> (r:
    Option<EventGroupBits>)
    requires
        old(k)@.wf(),
        i < old(k)@.event_groups.len(),
    ensures
        (final(k)@, r) == old(k)@.take_bits(i, mask, flags),
        final(k)@.wf(),
{
    let bits = k.event_groups[i].bits;
    if is_satisfied(bits, mask, flags) {
        set_bits(k, i, bits_after(bits, mask, flags));
        Some(cleared_bits(bits, mask, flags))
    } else {
        None
    }
}


/// Defines an event group, property by property.
#[derive(Clone, Copy, Debug)]
pub struct EventGroupDefiner {
    pub initial_bits: EventGroupBits,
    pub queue_order: QueueOrder,
}

impl EventGroup {
    /// Begins the definition of an event group: no bit is set, and waiters
    /// are served by task priority.
    pub fn build() -> (r: EventGroupDefiner)
        ensures
            r == (EventGroupDefiner { initial_bits: 0, queue_order: QueueOrder::TaskPriority }),
    {
        EventGroupDefiner { initial_bits: 0, queue_order: QueueOrder::TaskPriority }
    }
}

impl EventGroupDefiner {
    /// Gives the bits that the group holds at boot.
    pub fn initial(self, initial_bits: EventGroupBits) -> (r: EventGroupDefiner)
        ensures
            r == (EventGroupDefiner { initial_bits, ..self }),
    {
        EventGroupDefiner { initial_bits, ..self }
    }

    /// Says in which order the group serves its waiters.
    pub fn queue_order(self, queue_order: QueueOrder) -> (r: EventGroupDefiner)
        ensures
            r == (EventGroupDefiner { queue_order, ..self }),
    {
        EventGroupDefiner { queue_order, ..self }
    }

    /// Adds the event group to the configuration and returns a handle to
    /// it.
    pub fn finish(self, c: &mut CfgBuilder) -> (r: EventGroup)
        requires
            old(c)@.event_groups.len() < usize::MAX,
        ensures
            final(c)@ == (CfgView {
                event_groups: old(c)@.event_groups.push(
                    EventGroupDescriptor {
                        initial: self.initial_bits,
                        queue_order: self.queue_order,
                    },
                ),
                ..old(c)@
            }),
            r.id == old(c)@.event_groups.len() + 1,
    {
        c.event_groups.push(
            EventGroupDescriptor { initial: self.initial_bits, queue_order: self.queue_order },
        );
        EventGroup { id: c.event_groups.len() }
    }
}

} // verus!

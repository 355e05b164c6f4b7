//! The scheduler's state: the task table, the ready queue, the running
//! task and the pending timeouts, with the transitions that the kernel's
//! operations are made of.
use vstd::prelude::*;
use crate::prio_bitmap::FIXED_PRIO_BITMAP_MAX_LEN;
use crate::ready_queue::{
    lemma_pop_front_no_duplicates, lemma_pop_front_wf, lemma_push_back_no_duplicates,
    lemma_push_back_wf, ReadyQueue, ReadyQueueView,
};
use crate::task::{TaskCb, TaskSt, WaitOutcome};
use crate::time::Time32;
use crate::timeout::{
    is_linked, lemma_linked, lemma_unlinked, owners_distinct, unlinked, Timeout, TimeoutHeap,
    TimeoutOwner,
};
use crate::wait::Wait;

verus! {

/// The scheduler's state as plain data.
pub struct SchedView {
    pub tasks: Seq<TaskCb>,
    pub ready: ReadyQueueView,
    pub running: Option<usize>,
    pub timeouts: Seq<Timeout>,
    pub now: Time32,
}

impl SchedView {
    /// Every task's priority names a level of the ready queue, whose flags
    /// are in step with its levels.
    pub open spec fn bounded(self) -> bool {
        &&& self.ready.wf()
        &&& self.tasks.len() <= usize::MAX
        &&& forall|t: int|
            0 <= t < self.tasks.len() ==> (#[trigger] self.tasks[t]).priority
                < self.ready.levels.len()
    }

    /// A task is in the ready queue, at the level of its priority, exactly
    /// while it is Ready.
    pub open spec fn ready_iff_queued(self) -> bool {
        &&& self.ready.no_duplicates()
        &&& forall|p: int, t: usize| #[trigger]
            self.ready.holds(p, t) ==> t < self.tasks.len() && self.tasks[t as int].st
                == TaskSt::Ready && self.tasks[t as int].priority == p
        &&& forall|t: int|
            0 <= t < self.tasks.len() && (#[trigger] self.tasks[t]).st == TaskSt::Ready
                ==> self.ready.holds(self.tasks[t].priority as int, t as usize)
    }

    /// A task has a wait record exactly while it is Waiting.
    pub open spec fn waiting_iff_wait(self) -> bool {
        forall|t: int|
            0 <= t < self.tasks.len() ==> ((#[trigger] self.tasks[t]).st == TaskSt::Waiting
                <==> self.tasks[t].wait is Some)
    }

    /// Only the task that `running` names can be Running: at most one task
    /// is.
    pub open spec fn at_most_one_running(self) -> bool {
        &&& self.running is Some ==> self.running->Some_0 < self.tasks.len()
        &&& forall|t: int|
            0 <= t < self.tasks.len() && (#[trigger] self.tasks[t]).st == TaskSt::Running
                ==> self.running == Some(t as usize)
    }

    /// No owner has two timeouts linked, and a task whose timeout is linked
    /// is Waiting.
    pub open spec fn timeouts_expected(self) -> bool {
        &&& owners_distinct(self.timeouts)
        &&& forall|i: int|
            0 <= i < self.timeouts.len() ==> match (#[trigger] self.timeouts[i]).owner {
                TimeoutOwner::Task(t) => t < self.tasks.len() && self.tasks[t as int].st
                    == TaskSt::Waiting,
                TimeoutOwner::Timer(_) => true,
            }
    }

    /// The scheduler's invariant.
    pub open spec fn wf(self) -> bool {
        &&& self.bounded()
        &&& self.ready_iff_queued()
        &&& self.waiting_iff_wait()
        &&& self.at_most_one_running()
        &&& self.timeouts_expected()
    }

    /// The task that `running` names is in the Running state.
    pub open spec fn is_running(self) -> bool {
        self.running is Some && self.running->Some_0 < self.tasks.len()
            && self.tasks[self.running->Some_0 as int].st == TaskSt::Running
    }

    /// Task `t` becomes Ready and joins the tail of its priority level.
    pub open spec fn make_ready(self, t: usize) -> SchedView {
        SchedView {
            tasks: self.tasks.update(
                t as int,
                TaskCb { st: TaskSt::Ready, ..self.tasks[t as int] },
            ),
            ready: self.ready.push_back(self.tasks[t as int].priority as int, t),
            ..self
        }
    }

    /// The wait of task `t` ends with `outcome`: its wait record is gone,
    /// its timeout is unlinked, the outcome is kept for it, and it is Ready.
    /// The wait queue that it stood in is not touched.
    pub open spec fn complete_wait(self, t: usize, outcome: WaitOutcome) -> SchedView {
        (SchedView {
            tasks: self.tasks.update(
                t as int,
                TaskCb { wait: None, wait_result: Some(outcome), ..self.tasks[t as int] },
            ),
            timeouts: unlinked(self.timeouts, TimeoutOwner::Task(t)),
            ..self
        }).make_ready(t)
    }

    /// The wait of task `t` ends with the waiter being given what it waited
    /// for.
    pub open spec fn wake(self, t: usize) -> SchedView {
        self.complete_wait(t, Ok(self.tasks[t as int].wait->Some_0.payload))
    }

    /// The running task begins to wait: it is Waiting with the wait record
    /// `wait`, and where `at` is given, a timeout of its own is linked that
    /// expires then.
    pub open spec fn begin_wait(self, wait: Wait, at: Option<Time32>) -> SchedView {
        let r = self.running->Some_0;
        SchedView {
            tasks: self.tasks.update(
                r as int,
                TaskCb {
                    st: TaskSt::Waiting,
                    wait: Some(wait),
                    wait_result: None,
                    ..self.tasks[r as int]
                },
            ),
            timeouts: match at {
                Some(at) => self.timeouts.push(Timeout { at, owner: TimeoutOwner::Task(r) }),
                None => self.timeouts,
            },
            ..self
        }
    }

    /// Task `t`, whose activation is pending, starts afresh and is Ready.
    pub open spec fn launch(self, t: usize) -> SchedView {
        (SchedView {
            tasks: self.tasks.update(
                t as int,
                TaskCb { wait_result: None, park_token: false, ..self.tasks[t as int] },
            ),
            ..self
        }).make_ready(t)
    }

    /// The state after every task among the first `n` whose activation is
    /// pending has been launched, in the order of the task table.
    pub open spec fn launch_pending(self, n: int) -> SchedView
        decreases n,
    {
        if n <= 0 {
            self
        } else {
            let s = self.launch_pending(n - 1);
            if s.tasks[n - 1].st == TaskSt::PendingActivation {
                s.launch((n - 1) as usize)
            } else {
                s
            }
        }
    }

    /// The tasks among the first `n` whose activation is pending, in the
    /// order of the task table.
    pub open spec fn pending(self, n: int) -> Seq<usize>
        decreases n,
    {
        if n <= 0 {
            Seq::empty()
        } else if self.tasks[n - 1].st == TaskSt::PendingActivation {
            self.pending(n - 1).push((n - 1) as usize)
        } else {
            self.pending(n - 1)
        }
    }

    /// Whether the running task gives way: it does unless it is Running and
    /// no Ready task is more urgent than it.
    pub open spec fn gives_way(self) -> bool {
        match self.ready.top_level() {
            Some(p) => !(self.is_running() && self.tasks[self.running->Some_0 as int].priority
                <= p),
            None => !self.is_running(),
        }
    }

    /// The choice of the task to run, with no activation pending. The
    /// running task stays unless it gives way. Where it gives way, the task
    /// next in line in the ready queue leaves the queue and is Running, and
    /// the task that ran, if it was still Running, is Ready at the tail of
    /// its level; with no task in the queue, nothing runs.
    pub open spec fn switch(self) -> SchedView {
        if !self.gives_way() {
            self
        } else {
            match self.ready.front() {
                Some(top) => {
                    let popped = SchedView { ready: self.ready.pop_front(), ..self };
                    let requeued = if self.is_running() {
                        popped.make_ready(self.running->Some_0)
                    } else {
                        popped
                    };
                    SchedView {
                        tasks: requeued.tasks.update(
                            top as int,
                            TaskCb { st: TaskSt::Running, ..requeued.tasks[top as int] },
                        ),
                        running: Some(top),
                        ..requeued
                    }
                },
                None => SchedView { running: None, ..self },
            }
        }
    }

    /// The choice of the task to run: the pending activations are launched,
    /// then the running task stays or gives way.
    pub open spec fn choose_running_task(self) -> SchedView {
        self.launch_pending(self.tasks.len() as int).switch()
    }

    /// Some task's activation is pending.
    pub open spec fn any_pending(self) -> bool {
        exists|t: int|
            0 <= t < self.tasks.len() && (#[trigger] self.tasks[t]).st
                == TaskSt::PendingActivation
    }

    /// The dispatcher has something to do: an activation is pending, a Ready
    /// task is more urgent than the running one, or no task is Running
    /// while one is Ready or `running` still names the task that ran.
    pub open spec fn preemption_needed(self) -> bool {
        self.any_pending() || (self.gives_way() && (self.running is Some
            || self.ready.top_level() is Some))
    }
}

/// Making a task Ready that is neither Ready nor Waiting keeps the
/// invariant.
pub proof fn lemma_make_ready_wf(s: SchedView, t: usize)
    requires
        s.wf(),
        t < s.tasks.len(),
        s.tasks[t as int].st != TaskSt::Ready,
        s.tasks[t as int].st != TaskSt::Waiting,
    ensures
        s.make_ready(t).wf(),
        s.make_ready(t).tasks.len() == s.tasks.len(),
{
    let r = s.make_ready(t);
    let p = s.tasks[t as int].priority as int;
    assert(!s.ready.contains(t)) by {
        if s.ready.contains(t) {
            let l = choose|l: int| s.ready.holds(l, t);
            assert(s.ready.holds(l, t));
        }
    }
    lemma_push_back_wf(s.ready, p, t);
    lemma_push_back_no_duplicates(s.ready, p, t);
    assert forall|l: int, u: usize| #[trigger] r.ready.holds(l, u) implies u < r.tasks.len()
        && r.tasks[u as int].st == TaskSt::Ready && r.tasks[u as int].priority == l by {
        if s.ready.holds(l, u) {
        }
    }
    assert forall|u: int| 0 <= u < r.tasks.len() && (#[trigger] r.tasks[u]).st == TaskSt::Ready
    implies r.ready.holds(r.tasks[u].priority as int, u as usize) by {
        if u != t {
            assert(s.tasks[u].st == TaskSt::Ready);
            assert(s.ready.holds(s.tasks[u].priority as int, u as usize));
        }
    }
    assert forall|i: int| 0 <= i < r.timeouts.len() implies match (#[trigger] r.timeouts[i]).owner {
        TimeoutOwner::Task(u) => u < r.tasks.len() && r.tasks[u as int].st == TaskSt::Waiting,
        TimeoutOwner::Timer(_) => true,
    } by {
        assert(s.timeouts[i] == r.timeouts[i]);
    }
    assert forall|u: int| 0 <= u < r.tasks.len() implies (#[trigger] r.tasks[u]).priority
        < r.ready.levels.len() by {
        assert(s.tasks[u].priority < s.ready.levels.len());
    }
    assert forall|u: int| 0 <= u < r.tasks.len() implies ((#[trigger] r.tasks[u]).st
        == TaskSt::Waiting <==> r.tasks[u].wait is Some) by {
        assert(s.tasks[u].st == TaskSt::Waiting <==> s.tasks[u].wait is Some);
    }
    assert forall|u: int| 0 <= u < r.tasks.len() && (#[trigger] r.tasks[u]).st == TaskSt::Running
    implies r.running == Some(u as usize) by {
        assert(s.tasks[u].st == TaskSt::Running);
    }
}

/// Ending the wait of a Waiting task keeps the invariant.
pub proof fn lemma_complete_wait_wf(s: SchedView, t: usize, outcome: WaitOutcome)
    requires
        s.wf(),
        t < s.tasks.len(),
        s.tasks[t as int].st == TaskSt::Waiting,
    ensures
        s.complete_wait(t, outcome).wf(),
        s.complete_wait(t, outcome).tasks.len() == s.tasks.len(),
{
    let m = SchedView {
        tasks: s.tasks.update(
            t as int,
            TaskCb {
                st: TaskSt::Dormant,
                wait: None,
                wait_result: Some(outcome),
                ..s.tasks[t as int]
            },
        ),
        timeouts: unlinked(s.timeouts, TimeoutOwner::Task(t)),
        ..s
    };
    lemma_unlinked(s.timeouts, TimeoutOwner::Task(t));
    assert(m.wf()) by {
        assert forall|l: int, u: usize| #[trigger] m.ready.holds(l, u) implies u < m.tasks.len()
            && m.tasks[u as int].st == TaskSt::Ready && m.tasks[u as int].priority == l by {
            assert(s.ready.holds(l, u));
        }
        assert forall|u: int|
            0 <= u < m.tasks.len() && (#[trigger] m.tasks[u]).st == TaskSt::Ready implies m.ready.holds(
            m.tasks[u].priority as int,
            u as usize,
        ) by {
            assert(s.tasks[u].st == TaskSt::Ready);
        }
        assert forall|i: int| 0 <= i < m.timeouts.len() implies match (
        #[trigger] m.timeouts[i]).owner {
            TimeoutOwner::Task(u) => u < m.tasks.len() && m.tasks[u as int].st == TaskSt::Waiting,
            TimeoutOwner::Timer(_) => true,
        } by {
            let e = m.timeouts[i];
            assert(s.timeouts.contains(e));
            let k = choose|k: int| 0 <= k < s.timeouts.len() && s.timeouts[k] == e;
            assert(s.timeouts[k].owner == e.owner);
            if e.owner == TimeoutOwner::Task(t) {
                assert(is_linked(m.timeouts, TimeoutOwner::Task(t)));
            }
        }
        assert forall|u: int| 0 <= u < m.tasks.len() implies (#[trigger] m.tasks[u]).priority
            < m.ready.levels.len() by {
            assert(s.tasks[u].priority < s.ready.levels.len());
        }
        assert forall|u: int| 0 <= u < m.tasks.len() implies ((#[trigger] m.tasks[u]).st
            == TaskSt::Waiting <==> m.tasks[u].wait is Some) by {
            assert(s.tasks[u].st == TaskSt::Waiting <==> s.tasks[u].wait is Some);
        }
        assert forall|u: int|
            0 <= u < m.tasks.len() && (#[trigger] m.tasks[u]).st == TaskSt::Running implies m.running
            == Some(u as usize) by {
            assert(s.tasks[u].st == TaskSt::Running);
        }
    }
    lemma_make_ready_wf(m, t);
    assert(m.make_ready(t).tasks =~= s.complete_wait(t, outcome).tasks);
    assert(m.make_ready(t) == s.complete_wait(t, outcome));
}

/// Putting the running task to wait keeps the invariant.
pub proof fn lemma_begin_wait_wf(s: SchedView, wait: Wait, at: Option<Time32>)
    requires
        s.wf(),
        s.is_running(),
    ensures
        s.begin_wait(wait, at).wf(),
        s.begin_wait(wait, at).tasks.len() == s.tasks.len(),
{
    let r = s.running->Some_0;
    let m = s.begin_wait(wait, at);
    assert(!is_linked(s.timeouts, TimeoutOwner::Task(r))) by {
        if is_linked(s.timeouts, TimeoutOwner::Task(r)) {
            let i = choose|i: int|
                0 <= i < s.timeouts.len() && (#[trigger] s.timeouts[i]).owner
                    == TimeoutOwner::Task(r);
            assert(s.tasks[r as int].st == TaskSt::Waiting);
        }
    }
    match at {
        Some(at) => {
            lemma_linked(s.timeouts, Timeout { at, owner: TimeoutOwner::Task(r) });
        },
        None => {},
    }
    assert forall|l: int, u: usize| #[trigger] m.ready.holds(l, u) implies u < m.tasks.len()
        && m.tasks[u as int].st == TaskSt::Ready && m.tasks[u as int].priority == l by {
        assert(s.ready.holds(l, u));
    }
    assert forall|u: int| 0 <= u < m.tasks.len() && (#[trigger] m.tasks[u]).st == TaskSt::Ready
    implies m.ready.holds(m.tasks[u].priority as int, u as usize) by {
        assert(s.tasks[u].st == TaskSt::Ready);
    }
    assert forall|i: int| 0 <= i < m.timeouts.len() implies match (#[trigger] m.timeouts[i]).owner {
        TimeoutOwner::Task(u) => u < m.tasks.len() && m.tasks[u as int].st == TaskSt::Waiting,
        TimeoutOwner::Timer(_) => true,
    } by {
        if i < s.timeouts.len() {
            assert(m.timeouts[i] == s.timeouts[i]);
        }
    }
    assert forall|u: int| 0 <= u < m.tasks.len() implies (#[trigger] m.tasks[u]).priority
        < m.ready.levels.len() by {
        assert(s.tasks[u].priority < s.ready.levels.len());
    }
    assert forall|u: int| 0 <= u < m.tasks.len() implies ((#[trigger] m.tasks[u]).st
        == TaskSt::Waiting <==> m.tasks[u].wait is Some) by {
        assert(s.tasks[u].st == TaskSt::Waiting <==> s.tasks[u].wait is Some);
    }
    assert forall|u: int| 0 <= u < m.tasks.len() && (#[trigger] m.tasks[u]).st == TaskSt::Running
    implies m.running == Some(u as usize) by {
        assert(s.tasks[u].st == TaskSt::Running);
    }
}


/// Launching a task whose activation is pending keeps the invariant.
pub proof fn lemma_launch_wf(s: SchedView, t: usize)
    requires
        s.wf(),
        t < s.tasks.len(),
        s.tasks[t as int].st == TaskSt::PendingActivation,
    ensures
        s.launch(t).wf(),
        s.launch(t).tasks.len() == s.tasks.len(),
        s.launch(t).running == s.running,
        s.launch(t).timeouts == s.timeouts,
        s.launch(t).now == s.now,
        forall|u: int| 0 <= u < s.tasks.len() && u != t ==> s.launch(t).tasks[u] == s.tasks[u],
{
    let m = SchedView {
        tasks: s.tasks.update(
            t as int,
            TaskCb { wait_result: None, park_token: false, ..s.tasks[t as int] },
        ),
        ..s
    };
    assert(m.wf()) by {
        assert forall|l: int, u: usize| #[trigger] m.ready.holds(l, u) implies u < m.tasks.len()
            && m.tasks[u as int].st == TaskSt::Ready && m.tasks[u as int].priority == l by {
            assert(s.ready.holds(l, u));
        }
        assert forall|u: int|
            0 <= u < m.tasks.len() && (#[trigger] m.tasks[u]).st == TaskSt::Ready implies m.ready.holds(
            m.tasks[u].priority as int,
            u as usize,
        ) by {
            assert(s.tasks[u].st == TaskSt::Ready);
        }
        assert forall|i: int| 0 <= i < m.timeouts.len() implies match (
        #[trigger] m.timeouts[i]).owner {
            TimeoutOwner::Task(u) => u < m.tasks.len() && m.tasks[u as int].st == TaskSt::Waiting,
            TimeoutOwner::Timer(_) => true,
        } by {
            assert(s.timeouts[i] == m.timeouts[i]);
        }
        assert forall|u: int| 0 <= u < m.tasks.len() implies (#[trigger] m.tasks[u]).priority
            < m.ready.levels.len() by {
            assert(s.tasks[u].priority < s.ready.levels.len());
        }
        assert forall|u: int| 0 <= u < m.tasks.len() implies ((#[trigger] m.tasks[u]).st
            == TaskSt::Waiting <==> m.tasks[u].wait is Some) by {
            assert(s.tasks[u].st == TaskSt::Waiting <==> s.tasks[u].wait is Some);
        }
        assert forall|u: int|
            0 <= u < m.tasks.len() && (#[trigger] m.tasks[u]).st == TaskSt::Running implies m.running
            == Some(u as usize) by {
            assert(s.tasks[u].st == TaskSt::Running);
        }
    }
    lemma_make_ready_wf(m, t);
}

/// Launching the pending tasks among the first `n` keeps the invariant,
/// leaves none of them pending, and touches nothing else.
pub proof fn lemma_launch_pending_wf(s: SchedView, n: int)
    requires
        s.wf(),
        0 <= n <= s.tasks.len(),
    ensures
        s.launch_pending(n).wf(),
        s.launch_pending(n).tasks.len() == s.tasks.len(),
        s.launch_pending(n).running == s.running,
        s.launch_pending(n).timeouts == s.timeouts,
        s.launch_pending(n).now == s.now,
        forall|u: int| n <= u < s.tasks.len() ==> s.launch_pending(n).tasks[u] == s.tasks[u],
        forall|u: int|
            0 <= u < n ==> s.launch_pending(n).tasks[u] == if s.tasks[u].st
                == TaskSt::PendingActivation {
                TaskCb {
                    st: TaskSt::Ready,
                    wait_result: None,
                    park_token: false,
                    ..s.tasks[u]
                }
            } else {
                s.tasks[u]
            },
    decreases n,
{
    if n > 0 {
        lemma_launch_pending_wf(s, n - 1);
        let m = s.launch_pending(n - 1);
        if m.tasks[n - 1].st == TaskSt::PendingActivation {
            lemma_launch_wf(m, (n - 1) as usize);
        }
    }
}

/// Letting the running task stay or give way keeps the invariant.
/// Afterwards the task that `running` names is Running, and no Ready task
/// is more urgent than it; where none is named, no task is Ready.
pub proof fn lemma_switch_wf(s: SchedView)
    requires
        s.wf(),
    ensures
        s.switch().wf(),
        s.switch().tasks.len() == s.tasks.len(),
        s.switch().timeouts == s.timeouts,
        s.switch().now == s.now,
        match s.switch().running {
            Some(r) => s.switch().is_running() && forall|t: int|
                0 <= t < s.tasks.len() && (#[trigger] s.switch().tasks[t]).st == TaskSt::Ready
                    ==> s.switch().tasks[r as int].priority <= s.switch().tasks[t].priority,
            None => forall|t: int|
                0 <= t < s.tasks.len() ==> (#[trigger] s.switch().tasks[t]).st != TaskSt::Ready,
        },
{
    s.ready.lemma_top_level();
    let f = s.switch();
    if !s.gives_way() {
        let r = s.running->Some_0;
        assert forall|t: int|
            0 <= t < s.tasks.len() && (#[trigger] f.tasks[t]).st == TaskSt::Ready implies f.tasks[r as int].priority
            <= f.tasks[t].priority by {
            assert(s.ready.holds(s.tasks[t].priority as int, t as usize));
            let l = s.tasks[t].priority as int;
            assert(s.ready.levels[l].len() > 0);
        }
    } else {
        match s.ready.front() {
            Some(top) => {
                let p = s.ready.top_level()->Some_0 as int;
                lemma_pop_front_wf(s.ready);
                lemma_pop_front_no_duplicates(s.ready);
                assert(s.ready.holds(p, top));
                assert(s.tasks[top as int].st == TaskSt::Ready);
                assert(s.tasks[top as int].priority == p);
                // The state in which the chosen task has left the queue and is
                // neither Ready nor Running yet.
                let popped = SchedView {
                    tasks: s.tasks.update(
                        top as int,
                        TaskCb { st: TaskSt::Dormant, ..s.tasks[top as int] },
                    ),
                    ready: s.ready.pop_front(),
                    ..s
                };
                assert(popped.tasks[top as int].wait is None) by {
                    assert(s.tasks[top as int].st == TaskSt::Waiting <==> s.tasks[top as int].wait is Some);
                }
                assert(popped.wf()) by {
                    assert forall|l: int, u: usize| #[trigger]
                        popped.ready.holds(l, u) implies u < popped.tasks.len()
                        && popped.tasks[u as int].st == TaskSt::Ready && popped.tasks[u as int].priority
                        == l by {
                        assert(s.ready.holds(l, u));
                    }
                    assert forall|u: int|
                        0 <= u < popped.tasks.len() && (#[trigger] popped.tasks[u]).st
                            == TaskSt::Ready implies popped.ready.holds(
                        popped.tasks[u].priority as int,
                        u as usize,
                    ) by {
                        assert(s.tasks[u].st == TaskSt::Ready);
                        assert(s.ready.holds(s.tasks[u].priority as int, u as usize));
                    }
                    assert forall|i: int| 0 <= i < popped.timeouts.len() implies match (
                    #[trigger] popped.timeouts[i]).owner {
                        TimeoutOwner::Task(u) => u < popped.tasks.len() && popped.tasks[u as int].st
                            == TaskSt::Waiting,
                        TimeoutOwner::Timer(_) => true,
                    } by {
                        assert(s.timeouts[i] == popped.timeouts[i]);
                    }
                    assert forall|u: int| 0 <= u < popped.tasks.len() implies (
                    #[trigger] popped.tasks[u]).priority < popped.ready.levels.len() by {
                        assert(s.tasks[u].priority < s.ready.levels.len());
                    }
                    assert forall|u: int| 0 <= u < popped.tasks.len() implies ((
                    #[trigger] popped.tasks[u]).st == TaskSt::Waiting
                        <==> popped.tasks[u].wait is Some) by {
                        assert(s.tasks[u].st == TaskSt::Waiting <==> s.tasks[u].wait is Some);
                    }
                    assert forall|u: int|
                        0 <= u < popped.tasks.len() && (#[trigger] popped.tasks[u]).st
                            == TaskSt::Running implies popped.running == Some(u as usize) by {
                        assert(s.tasks[u].st == TaskSt::Running);
                    }
                }
                let requeued = if s.is_running() {
                    popped.make_ready(s.running->Some_0)
                } else {
                    popped
                };
                if s.is_running() {
                    lemma_make_ready_wf(popped, s.running->Some_0);
                }
                assert(requeued.wf());
                assert(requeued.tasks[top as int].st == TaskSt::Dormant);
                assert forall|u: int|
                    0 <= u < requeued.tasks.len() implies (#[trigger] requeued.tasks[u]).st
                    != TaskSt::Running by {
                    if requeued.tasks[u].st == TaskSt::Running {
                        assert(popped.tasks[u].st == TaskSt::Running);
                        assert(s.tasks[u].st == TaskSt::Running);
                    }
                }
                assert(f.tasks =~= requeued.tasks.update(
                    top as int,
                    TaskCb { st: TaskSt::Running, ..requeued.tasks[top as int] },
                ));
                assert(f.ready == requeued.ready);
                assert forall|l: int, u: usize| #[trigger] f.ready.holds(l, u) implies u
                    < f.tasks.len() && f.tasks[u as int].st == TaskSt::Ready
                    && f.tasks[u as int].priority == l by {
                    assert(requeued.ready.holds(l, u));
                }
                assert forall|u: int|
                    0 <= u < f.tasks.len() && (#[trigger] f.tasks[u]).st == TaskSt::Ready implies f.ready.holds(
                    f.tasks[u].priority as int,
                    u as usize,
                ) by {
                    assert(requeued.tasks[u].st == TaskSt::Ready);
                }
                assert forall|i: int| 0 <= i < f.timeouts.len() implies match (
                #[trigger] f.timeouts[i]).owner {
                    TimeoutOwner::Task(u) => u < f.tasks.len() && f.tasks[u as int].st
                        == TaskSt::Waiting,
                    TimeoutOwner::Timer(_) => true,
                } by {
                    assert(requeued.timeouts[i] == f.timeouts[i]);
                }
                assert forall|u: int| 0 <= u < f.tasks.len() implies (#[trigger] f.tasks[u]).priority
                    < f.ready.levels.len() by {
                    assert(requeued.tasks[u].priority < requeued.ready.levels.len());
                }
                assert forall|u: int| 0 <= u < f.tasks.len() implies ((#[trigger] f.tasks[u]).st
                    == TaskSt::Waiting <==> f.tasks[u].wait is Some) by {
                    assert(requeued.tasks[u].st == TaskSt::Waiting
                        <==> requeued.tasks[u].wait is Some);
                }
                assert forall|t: int|
                    0 <= t < s.tasks.len() && (#[trigger] f.tasks[t]).st == TaskSt::Ready implies f.tasks[top as int].priority
                    <= f.tasks[t].priority by {
                    if s.is_running() && t == s.running->Some_0 {
                    } else {
                        assert(s.tasks[t].st == TaskSt::Ready);
                        assert(s.ready.holds(s.tasks[t].priority as int, t as usize));
                        assert(s.ready.levels[s.tasks[t].priority as int].len() > 0);
                    }
                }
            },
            None => {
                assert forall|t: int| 0 <= t < s.tasks.len() implies (#[trigger] f.tasks[t]).st
                    != TaskSt::Ready by {
                    if s.tasks[t].st == TaskSt::Ready {
                        assert(s.ready.holds(s.tasks[t].priority as int, t as usize));
                        assert(s.ready.levels[s.tasks[t].priority as int].len() > 0);
                    }
                }
                assert forall|u: int|
                    0 <= u < f.tasks.len() && (#[trigger] f.tasks[u]).st == TaskSt::Running implies f.running
                    == Some(u as usize) by {
                    assert(s.tasks[u].st == TaskSt::Running);
                }
            },
        }
    }
}

/// The choice of the task to run keeps the invariant. Afterwards no
/// activation is pending, the task that `running` names is Running, and no
/// Ready task is more urgent than it; where none is named, no task is Ready.
pub proof fn lemma_choose_running_task_wf(s: SchedView)
    requires
        s.wf(),
    ensures
        s.choose_running_task().wf(),
        s.choose_running_task().tasks.len() == s.tasks.len(),
        s.choose_running_task().timeouts == s.timeouts,
        s.choose_running_task().now == s.now,
        !s.choose_running_task().preemption_needed(),
        match s.choose_running_task().running {
            Some(r) => s.choose_running_task().is_running() && forall|t: int|
                0 <= t < s.tasks.len() && (#[trigger] s.choose_running_task().tasks[t]).st
                    == TaskSt::Ready ==> s.choose_running_task().tasks[r as int].priority
                    <= s.choose_running_task().tasks[t].priority,
            None => forall|t: int|
                0 <= t < s.tasks.len() ==> (#[trigger] s.choose_running_task().tasks[t]).st
                    != TaskSt::Ready,
        },
{
    let n = s.tasks.len() as int;
    lemma_launch_pending_wf(s, n);
    let m = s.launch_pending(n);
    lemma_switch_wf(m);
    let f = m.switch();
    assert forall|t: int| 0 <= t < f.tasks.len() implies (#[trigger] f.tasks[t]).st
        != TaskSt::PendingActivation by {
        assert(m.tasks[t].st != TaskSt::PendingActivation);
        lemma_switch_keeps_others(m, t);
    }
    f.ready.lemma_top_level();
    match f.running {
        Some(r) => {
            match f.ready.top_level() {
                Some(p) => {
                    let top = f.ready.levels[p as int][0];
                    assert(f.ready.holds(p as int, top));
                    assert(f.tasks[top as int].st == TaskSt::Ready);
                },
                None => {},
            }
        },
        None => {
            match f.ready.top_level() {
                Some(p) => {
                    let top = f.ready.levels[p as int][0];
                    assert(f.ready.holds(p as int, top));
                    assert(f.tasks[top as int].st == TaskSt::Ready);
                },
                None => {},
            }
        },
    }
}

/// The choice changes a task's state only between Ready and Running.
pub proof fn lemma_switch_keeps_others(s: SchedView, t: int)
    requires
        s.wf(),
        0 <= t < s.tasks.len(),
    ensures
        s.switch().tasks.len() == s.tasks.len(),
        s.switch().tasks[t] == s.tasks[t] || (s.switch().tasks[t] == TaskCb {
            st: TaskSt::Ready,
            ..s.tasks[t]
        } && s.tasks[t].st == TaskSt::Running) || (s.switch().tasks[t] == TaskCb {
            st: TaskSt::Running,
            ..s.tasks[t]
        } && s.tasks[t].st == TaskSt::Ready),
{
    s.ready.lemma_top_level();
    if s.gives_way() {
        match s.ready.front() {
            Some(top) => {
                let p = s.ready.top_level()->Some_0 as int;
                assert(s.ready.holds(p, top));
            },
            None => {},
        }
    }
}


/// The scheduler's state.
pub struct SchedState {
    pub tasks: Vec<TaskCb>,
    pub ready_queue: ReadyQueue,
    /// The task that runs, or that ran last and has not been replaced by the
    /// dispatcher yet.
    pub running_task: Option<usize>,
    pub timeouts: TimeoutHeap,
    /// The tick at which the kernel was last told the time.
    pub now: Time32,
}

impl View for SchedState {
    type V = SchedView;

    open spec fn view(&self) -> SchedView {
        SchedView {
            tasks: self.tasks@,
            ready: self.ready_queue@,
            running: self.running_task,
            timeouts: self.timeouts@,
            now: self.now,
        }
    }
}

impl SchedState {
    /// The state before anything has run: the given tasks, an empty ready
    /// queue of `num_levels` levels, no running task, no timeout.
    pub fn new(tasks: Vec<TaskCb>, num_levels: usize, now: Time32) -> (r: SchedState)
        requires
            1 <= num_levels <= FIXED_PRIO_BITMAP_MAX_LEN,
        ensures
            r@.tasks == tasks@,
            r@.ready.levels == Seq::new(num_levels as nat, |p: int| Seq::<usize>::empty()),
            r@.ready.bitmap == Seq::new(64, |p: int| false),
            r@.running is None,
            r@.timeouts == Seq::<Timeout>::empty(),
            r@.now == now,
    {
        SchedState {
            tasks,
            ready_queue: ReadyQueue::new(num_levels),
            running_task: None,
            timeouts: TimeoutHeap::new(),
            now,
        }
    }

    pub fn is_running(&self) -> (r: bool)
        ensures
            r == self@.is_running(),
    {
        match self.running_task {
            Some(t) => t < self.tasks.len() && self.tasks[t].st == TaskSt::Running,
            None => false,
        }
    }

    /// Makes task `t` Ready and appends it to its priority level.
    pub fn make_ready(&mut self, t: usize)
        requires
            old(self)@.bounded(),
            t < old(self)@.tasks.len(),
        ensures
            final(self)@ == old(self)@.make_ready(t),
    {
        let p = self.tasks[t].priority;
        self.tasks[t].st = TaskSt::Ready;
        self.ready_queue.push_back(p, t);
        proof {
            assert(self@.tasks =~= old(self)@.make_ready(t).tasks);
        }
    }

    /// Ends the wait of task `t` with `outcome` and makes the task Ready. It
    /// does not take the task out of the wait queue that it stands in.
    pub fn complete_wait(&mut self, t: usize, outcome: WaitOutcome)
        requires
            old(self)@.bounded(),
            t < old(self)@.tasks.len(),
        ensures
            final(self)@ == old(self)@.complete_wait(t, outcome),
    {
        self.tasks[t].wait = None;
        self.tasks[t].wait_result = Some(outcome);
        let _ = self.timeouts.remove(TimeoutOwner::Task(t));
        proof {
            assert(self@.tasks =~= old(self)@.tasks.update(
                t as int,
                TaskCb { wait: None, wait_result: Some(outcome), ..old(self)@.tasks[t as int] },
            ));
            assert forall|u: int| 0 <= u < self@.tasks.len() implies (#[trigger] self@.tasks[u]).priority
                < self@.ready.levels.len() by {
                assert(old(self)@.tasks[u].priority < old(self)@.ready.levels.len());
            }
        }
        self.make_ready(t);
    }

    /// Ends the wait of task `t` by giving it what it waited for, and makes
    /// the task Ready.
    pub fn wake(&mut self, t: usize)
        requires
            old(self)@.bounded(),
            t < old(self)@.tasks.len(),
            old(self)@.tasks[t as int].wait is Some,
        ensures
            final(self)@ == old(self)@.wake(t),
    {
        let payload = self.tasks[t].wait.unwrap().payload;
        self.complete_wait(t, Ok(payload));
    }

    /// Puts the running task to wait, with a timeout that expires at `at`
    /// where one is given.
    pub fn begin_wait(&mut self, wait: Wait, at: Option<Time32>)
        requires
            old(self)@.running is Some,
            old(self)@.running->Some_0 < old(self)@.tasks.len(),
        ensures
            final(self)@ == old(self)@.begin_wait(wait, at),
    {
        let r = self.running_task.unwrap();
        self.tasks[r].st = TaskSt::Waiting;
        self.tasks[r].wait = Some(wait);
        self.tasks[r].wait_result = None;
        match at {
            Some(at) => {
                self.timeouts.insert(Timeout { at, owner: TimeoutOwner::Task(r) });
            },
            None => {},
        }
        proof {
            assert(self@.tasks =~= old(self)@.begin_wait(wait, at).tasks);
        }
    }

    /// Launches every task whose activation is pending, in the order of the
    /// task table, and returns them: their contexts are to be initialised
    /// before they first run.
    pub fn launch_pending(&mut self) -> (launched: Vec<usize>)
        requires
            old(self)@.wf(),
        ensures
            final(self)@ == old(self)@.launch_pending(old(self)@.tasks.len() as int),
            launched@ == old(self)@.pending(old(self)@.tasks.len() as int),
            final(self)@.wf(),
    {
        let mut launched: Vec<usize> = Vec::new();
        let n = self.tasks.len();
        let mut i: usize = 0;
        while i < n
            invariant
                old(self)@.wf(),
                n == old(self)@.tasks.len(),
                i <= n,
                self@ == old(self)@.launch_pending(i as int),
                launched@ == old(self)@.pending(i as int),
            decreases n - i,
        {
            proof {
                lemma_launch_pending_wf(old(self)@, i as int);
            }
            if self.tasks[i].st == TaskSt::PendingActivation {
                let ghost before = self@;
                self.tasks[i].wait_result = None;
                self.tasks[i].park_token = false;
                proof {
                    assert(self@.tasks =~= before.tasks.update(
                        i as int,
                        TaskCb { wait_result: None, park_token: false, ..before.tasks[i as int] },
                    ));
                    assert forall|u: int| 0 <= u < self@.tasks.len() implies (
                    #[trigger] self@.tasks[u]).priority < self@.ready.levels.len() by {
                        assert(before.tasks[u].priority < before.ready.levels.len());
                    }
                }
                self.make_ready(i);
                launched.push(i);
            }
            i += 1;
        }
        proof {
            lemma_launch_pending_wf(old(self)@, n as int);
        }
        launched
    }

    /// Lets the running task stay or give way to the task next in line.
    pub fn switch(&mut self)
        requires
            old(self)@.wf(),
        ensures
            final(self)@ == old(self)@.switch(),
            final(self)@.wf(),
    {
        proof {
            lemma_switch_wf(self@);
            self@.ready.lemma_top_level();
        }
        let current = self.is_running();
        let gives_way = match self.ready_queue.top_level() {
            Some(p) => !(current && self.tasks[self.running_task.unwrap()].priority <= p),
            None => !current,
        };
        if !gives_way {
            return ;
        }
        match self.ready_queue.pop_front() {
            Some(top) => {
                proof {
                    lemma_pop_front_wf(old(self)@.ready);
                    lemma_pop_front_no_duplicates(old(self)@.ready);
                    assert(old(self)@.ready.holds(
                        old(self)@.ready.top_level()->Some_0 as int,
                        top,
                    ));
                }
                if current {
                    self.make_ready(self.running_task.unwrap());
                }
                self.tasks[top].st = TaskSt::Running;
                self.running_task = Some(top);
                proof {
                    assert(self@.tasks =~= old(self)@.switch().tasks);
                }
            },
            None => {
                self.running_task = None;
            },
        }
    }

    /// Chooses the task to run: launches the pending activations, then lets
    /// the running task stay or give way. Returns the tasks launched.
    pub fn choose_running_task(&mut self) -> (launched: Vec<usize>)
        requires
            old(self)@.wf(),
        ensures
            final(self)@ == old(self)@.choose_running_task(),
            launched@ == old(self)@.pending(old(self)@.tasks.len() as int),
            final(self)@.wf(),
    {
        let launched = self.launch_pending();
        proof {
            lemma_launch_pending_wf(old(self)@, old(self)@.tasks.len() as int);
        }
        self.switch();
        launched
    }

    /// Whether some task's activation is pending.
    pub fn any_pending(&self) -> (r: bool)
        ensures
            r == self@.any_pending(),
    {
        let mut i: usize = 0;
        while i < self.tasks.len()
            invariant
                i <= self.tasks.len(),
                forall|t: int| 0 <= t < i ==> (#[trigger] self@.tasks[t]).st
                    != TaskSt::PendingActivation,
            decreases self.tasks.len() - i,
        {
            if self.tasks[i].st == TaskSt::PendingActivation {
                return true;
            }
            i += 1;
        }
        false
    }

    /// Whether the dispatcher has something to do.
    pub fn preemption_needed(&self) -> (r: bool)
        requires
            self@.wf(),
        ensures
            r == self@.preemption_needed(),
    {
        if self.any_pending() {
            return true;
        }
        let current = self.is_running();
        match self.ready_queue.top_level() {
            Some(p) => !(current && self.tasks[self.running_task.unwrap()].priority <= p),
            None => !current && self.running_task.is_some(),
        }
    }
}


/// Replacing a task's control block keeps the invariant where the priority
/// and the wait record stay, and the state either stays or changes among
/// states that involve neither the ready queue, nor a wait, nor the
/// processor.
pub proof fn lemma_update_task_wf(s: SchedView, t: usize, cb: TaskCb)
    requires
        s.wf(),
        t < s.tasks.len(),
        cb.priority == s.tasks[t as int].priority,
        cb.wait == s.tasks[t as int].wait,
        cb.st == s.tasks[t as int].st || (s.tasks[t as int].st != TaskSt::Ready
            && s.tasks[t as int].st != TaskSt::Waiting && cb.st != TaskSt::Ready && cb.st
            != TaskSt::Waiting && cb.st != TaskSt::Running),
    ensures
        (SchedView { tasks: s.tasks.update(t as int, cb), ..s }).wf(),
{
    let m = SchedView { tasks: s.tasks.update(t as int, cb), ..s };
    assert forall|l: int, u: usize| #[trigger] m.ready.holds(l, u) implies u < m.tasks.len()
        && m.tasks[u as int].st == TaskSt::Ready && m.tasks[u as int].priority == l by {
        assert(s.ready.holds(l, u));
    }
    assert forall|u: int| 0 <= u < m.tasks.len() && (#[trigger] m.tasks[u]).st == TaskSt::Ready
    implies m.ready.holds(m.tasks[u].priority as int, u as usize) by {
        assert(s.tasks[u].st == TaskSt::Ready);
    }
    assert forall|i: int| 0 <= i < m.timeouts.len() implies match (#[trigger] m.timeouts[i]).owner {
        TimeoutOwner::Task(u) => u < m.tasks.len() && m.tasks[u as int].st == TaskSt::Waiting,
        TimeoutOwner::Timer(_) => true,
    } by {
        assert(s.timeouts[i] == m.timeouts[i]);
    }
    assert forall|u: int| 0 <= u < m.tasks.len() implies (#[trigger] m.tasks[u]).priority
        < m.ready.levels.len() by {
        assert(s.tasks[u].priority < s.ready.levels.len());
    }
    assert forall|u: int| 0 <= u < m.tasks.len() implies ((#[trigger] m.tasks[u]).st
        == TaskSt::Waiting <==> m.tasks[u].wait is Some) by {
        assert(s.tasks[u].st == TaskSt::Waiting <==> s.tasks[u].wait is Some);
    }
    assert forall|u: int| 0 <= u < m.tasks.len() && (#[trigger] m.tasks[u]).st == TaskSt::Running
    implies m.running == Some(u as usize) by {
        assert(s.tasks[u].st == TaskSt::Running);
    }
}

impl SchedView {
    /// The running task ends: it is Dormant, and nothing runs.
    pub open spec fn exit_running(self) -> SchedView {
        let r = self.running->Some_0;
        SchedView {
            tasks: self.tasks.update(
                r as int,
                TaskCb { st: TaskSt::Dormant, ..self.tasks[r as int] },
            ),
            running: None,
            ..self
        }
    }
}

/// The end of the running task keeps the invariant.
pub proof fn lemma_exit_running_wf(s: SchedView)
    requires
        s.wf(),
        s.is_running(),
    ensures
        s.exit_running().wf(),
{
    let m = s.exit_running();
    assert forall|l: int, u: usize| #[trigger] m.ready.holds(l, u) implies u < m.tasks.len()
        && m.tasks[u as int].st == TaskSt::Ready && m.tasks[u as int].priority == l by {
        assert(s.ready.holds(l, u));
    }
    assert forall|u: int| 0 <= u < m.tasks.len() && (#[trigger] m.tasks[u]).st == TaskSt::Ready
    implies m.ready.holds(m.tasks[u].priority as int, u as usize) by {
        assert(s.tasks[u].st == TaskSt::Ready);
    }
    assert forall|i: int| 0 <= i < m.timeouts.len() implies match (#[trigger] m.timeouts[i]).owner {
        TimeoutOwner::Task(u) => u < m.tasks.len() && m.tasks[u as int].st == TaskSt::Waiting,
        TimeoutOwner::Timer(_) => true,
    } by {
        assert(s.timeouts[i] == m.timeouts[i]);
    }
    assert forall|u: int| 0 <= u < m.tasks.len() implies (#[trigger] m.tasks[u]).priority
        < m.ready.levels.len() by {
        assert(s.tasks[u].priority < s.ready.levels.len());
    }
    assert forall|u: int| 0 <= u < m.tasks.len() implies ((#[trigger] m.tasks[u]).st
        == TaskSt::Waiting <==> m.tasks[u].wait is Some) by {
        assert(s.tasks[u].st == TaskSt::Waiting <==> s.tasks[u].wait is Some);
    }
    assert forall|u: int| 0 <= u < m.tasks.len() implies (#[trigger] m.tasks[u]).st
        != TaskSt::Running by {
        if m.tasks[u].st == TaskSt::Running {
            assert(s.tasks[u].st == TaskSt::Running);
        }
    }
}

} // verus!

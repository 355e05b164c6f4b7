//! The static configuration of a kernel: a builder that collects the tasks
//! and the other objects of a system and lays out the hunk pool, and from
//! which the kernel's initial state is made.
use vstd::prelude::*;
use crate::event_group::{EventGroupCb, EventGroupView};
use crate::interrupt::{ActiveHandler, IntLine, InterruptController, InterruptControllerView};
use crate::kernel::{Kernel, KernelView};
use crate::prio_bitmap::FIXED_PRIO_BITMAP_MAX_LEN;
use crate::ready_queue::ReadyQueueView;
use crate::sched::{SchedState, SchedView};
use crate::semaphore::{SemaphoreCb, SemaphoreView};
use crate::task::{StackHunk, Task, TaskAttr, TaskCb, TaskSt};
use crate::time::{Time32, BAD_DURATION32, TIME_USER_HEADROOM};
use crate::timeout::Timeout;
use crate::timer::{valid_time32, TimerAttr, TimerCb};
use crate::wait::{EventGroupBits, QueueOrder, WaitQueueId, WaitQueueView};

verus! {

/// The stack size of a task for which none is given.
pub const STACK_DEFAULT_SIZE: usize = 1024;

/// The alignment of a stack that the builder allocates.
pub const STACK_ALIGN: usize = 16;

/// A part of the hunk pool, by offset and length.
#[derive(Clone, Copy, PartialEq, Eq, Structural, Debug)]
pub struct Hunk {
    pub start: usize,
    pub len: usize,
}

impl Hunk {
    pub fn from_range(start: usize, len: usize) -> (r: Hunk)
        ensures
            r == (Hunk { start, len }),
    {
        Hunk { start, len }
    }
}

/// A hunk whose bytes are to be given their initial value at boot.
#[derive(Clone, Copy, PartialEq, Eq, Structural, Debug)]
pub struct HunkInitAttr {
    pub offset: usize,
    pub len: usize,
}

/// The initial state of a semaphore.
#[derive(Clone, Copy, PartialEq, Eq, Structural, Debug)]
pub struct SemaphoreDescriptor {
    pub initial: usize,
    pub maximum: usize,
    pub queue_order: QueueOrder,
}

/// The initial state of an event group.
#[derive(Clone, Copy, PartialEq, Eq, Structural, Debug)]
pub struct EventGroupDescriptor {
    pub initial: EventGroupBits,
    pub queue_order: QueueOrder,
}

/// The initial state of a timer.
#[derive(Clone, Copy, PartialEq, Eq, Structural, Debug)]
pub struct TimerDescriptor {
    pub attr: TimerAttr,
    pub delay: Time32,
    pub period: Time32,
}

/// A function to be called in the boot phase, and its parameter.
#[derive(Clone, Copy, PartialEq, Eq, Structural, Debug)]
pub struct StartupHookAttr {
    pub start: usize,
    pub param: usize,
}

/// A task as the builder holds it.
#[derive(Clone, Copy, PartialEq, Eq, Structural, Debug)]
pub struct CfgBuilderTask {
    pub start: usize,
    pub param: usize,
    pub stack: StackHunk,
    pub priority: usize,
    pub active: bool,
}

impl CfgBuilderTask {
    /// The task's control block before boot.
    pub open spec fn spec_to_state(self, attr: TaskAttr) -> TaskCb {
        TaskCb {
            attr,
            priority: self.priority,
            st: if self.active {
                TaskSt::PendingActivation
            } else {
                TaskSt::Dormant
            },
            wait: None,
            wait_result: None,
            park_token: false,
        }
    }

    /// The task's control block before boot, in a system of
    /// `num_task_priority_levels` priority levels: PendingActivation where
    /// the task is to be active from the start, Dormant where not.
    pub fn to_state(&self, attr: &TaskAttr, num_task_priority_levels: usize) -> (r: TaskCb)
        requires
            self.priority < num_task_priority_levels,
        ensures
            r == self.spec_to_state(*attr),
    {
        TaskCb {
            attr: *attr,
            priority: self.priority,
            st: if self.active {
                TaskSt::PendingActivation
            } else {
                TaskSt::Dormant
            },
            wait: None,
            wait_result: None,
            park_token: false,
        }
    }

    pub open spec fn spec_to_attr(self) -> TaskAttr {
        TaskAttr { entry_point: self.start, entry_param: self.param, stack: self.stack }
    }

    /// What is fixed about the task.
    pub fn to_attr(&self) -> (r: TaskAttr)
        ensures
            r == self.spec_to_attr(),
    {
        TaskAttr { entry_point: self.start, entry_param: self.param, stack: self.stack }
    }
}

/// The builder as plain data.
pub struct CfgView {
    pub hunks: Seq<HunkInitAttr>,
    pub hunk_pool_len: usize,
    pub hunk_pool_align: usize,
    pub tasks: Seq<CfgBuilderTask>,
    pub num_task_priority_levels: usize,
    pub semaphores: Seq<SemaphoreDescriptor>,
    pub event_groups: Seq<EventGroupDescriptor>,
    pub timers: Seq<TimerDescriptor>,
    pub startup_hooks: Seq<StartupHookAttr>,
}

/// `len` rounded up to a multiple of `align`.
pub open spec fn round_up(len: int, align: int) -> int {
    (len + align - 1) / align * align
}

/// Rounding up gives the least multiple that is not below.
pub proof fn lemma_round_up(len: int, align: int)
    requires
        0 <= len,
        1 <= align,
    ensures
        len <= round_up(len, align) < len + align,
        round_up(len, align) % align == 0,
{
    let x = len + align - 1;
    assert(x == align * (x / align) + x % align) by (nonlinear_arith)
        requires
            align > 0,
    ;
    assert(0 <= x % align < align) by (nonlinear_arith)
        requires
            align > 0,
    ;
    assert((x / align * align) % align == 0) by (nonlinear_arith)
        requires
            align > 0,
    ;
    assert(x / align * align == align * (x / align)) by (nonlinear_arith);
}

impl CfgView {
    /// The builder after a hunk of `size` bytes, aligned to `align`, has
    /// been added to the pool: the pool's length is rounded up to the
    /// alignment, which is where the hunk starts, and grows by the hunk; the
    /// pool's alignment is at least that of the hunk.
    pub open spec fn with_hunk(self, size: usize, align: usize) -> CfgView {
        CfgView {
            hunk_pool_len: (round_up(self.hunk_pool_len as int, align as int) + size) as usize,
            hunk_pool_align: if align > self.hunk_pool_align {
                align
            } else {
                self.hunk_pool_align
            },
            ..self
        }
    }

    /// Where the hunk added by `with_hunk` lies.
    pub open spec fn next_hunk(self, size: usize, align: usize) -> Hunk {
        Hunk { start: round_up(self.hunk_pool_len as int, align as int) as usize, len: size }
    }

    /// A hunk of `size` bytes, aligned to `align`, fits: the pool's length
    /// stays within the machine's address range.
    pub open spec fn hunk_fits(self, size: usize, align: usize) -> bool {
        align >= 1 && self.hunk_pool_len + align + size <= usize::MAX
    }

    /// The configuration describes a system that can be built: the number
    /// of priority levels is within the bitmap's width, every task's
    /// priority names a level, no semaphore starts above its maximum, and
    /// every timer's delay and period are infinite or within the headroom.
    pub open spec fn valid(self) -> bool {
        &&& 1 <= self.num_task_priority_levels <= FIXED_PRIO_BITMAP_MAX_LEN
        &&& forall|i: int|
            0 <= i < self.tasks.len() ==> (#[trigger] self.tasks[i]).priority
                < self.num_task_priority_levels
        &&& forall|i: int|
            0 <= i < self.semaphores.len() ==> (#[trigger] self.semaphores[i]).initial
                <= self.semaphores[i].maximum
        &&& forall|i: int|
            0 <= i < self.timers.len() ==> valid_time32((#[trigger] self.timers[i]).delay)
                && valid_time32(self.timers[i].period)
    }
}

/// Collects the configuration of a system.
pub struct CfgBuilder {
    pub hunks: Vec<HunkInitAttr>,
    pub hunk_pool_len: usize,
    pub hunk_pool_align: usize,
    pub tasks: Vec<CfgBuilderTask>,
    pub num_task_priority_levels: usize,
    pub semaphores: Vec<SemaphoreDescriptor>,
    pub event_groups: Vec<EventGroupDescriptor>,
    pub timers: Vec<TimerDescriptor>,
    pub startup_hooks: Vec<StartupHookAttr>,
}

impl View for CfgBuilder {
    type V = CfgView;

    open spec fn view(&self) -> CfgView {
        CfgView {
            hunks: self.hunks@,
            hunk_pool_len: self.hunk_pool_len,
            hunk_pool_align: self.hunk_pool_align,
            tasks: self.tasks@,
            num_task_priority_levels: self.num_task_priority_levels,
            semaphores: self.semaphores@,
            event_groups: self.event_groups@,
            timers: self.timers@,
            startup_hooks: self.startup_hooks@,
        }
    }
}

impl CfgBuilder {
    /// An empty configuration: no object, an empty hunk pool of alignment 1,
    /// and 16 task priority levels.
    pub fn new() -> (r: CfgBuilder)
        ensures
            r@ == (CfgView {
                hunks: Seq::empty(),
                hunk_pool_len: 0,
                hunk_pool_align: 1,
                tasks: Seq::empty(),
                num_task_priority_levels: 16,
                semaphores: Seq::empty(),
                event_groups: Seq::empty(),
                timers: Seq::empty(),
                startup_hooks: Seq::empty(),
            }),
            r@.valid(),
    {
        CfgBuilder {
            hunks: Vec::new(),
            hunk_pool_len: 0,
            hunk_pool_align: 1,
            tasks: Vec::new(),
            num_task_priority_levels: 16,
            semaphores: Vec::new(),
            event_groups: Vec::new(),
            timers: Vec::new(),
            startup_hooks: Vec::new(),
        }
    }

    /// Sets the number of task priority levels, which is at least one and
    /// at most `FIXED_PRIO_BITMAP_MAX_LEN`.
    pub fn num_task_priority_levels(self, new_value: usize) -> (r: CfgBuilder)
        requires
            1 <= new_value <= FIXED_PRIO_BITMAP_MAX_LEN,
        ensures
            r@ == (CfgView { num_task_priority_levels: new_value, ..self@ }),
    {
        let mut cfg = self;
        cfg.num_task_priority_levels = new_value;
        cfg
    }

    /// Whether the configuration describes a system that can be built.
    pub fn validate(&self) -> (r: bool)
        ensures
            r == self@.valid(),
    {
        if self.num_task_priority_levels < 1 || self.num_task_priority_levels
            > FIXED_PRIO_BITMAP_MAX_LEN {
            return false;
        }
        let mut i: usize = 0;
        while i < self.tasks.len()
            invariant
                i <= self.tasks.len(),
                forall|j: int|
                    0 <= j < i ==> (#[trigger] self@.tasks[j]).priority
                        < self.num_task_priority_levels,
            decreases self.tasks.len() - i,
        {
            if self.tasks[i].priority >= self.num_task_priority_levels {
                assert(self@.tasks[i as int].priority >= self.num_task_priority_levels);
                return false;
            }
            i += 1;
        }
        let mut i: usize = 0;
        while i < self.semaphores.len()
            invariant
                i <= self.semaphores.len(),
                forall|j: int|
                    0 <= j < i ==> (#[trigger] self@.semaphores[j]).initial
                        <= self@.semaphores[j].maximum,
            decreases self.semaphores.len() - i,
        {
            if self.semaphores[i].initial > self.semaphores[i].maximum {
                return false;
            }
            i += 1;
        }
        let mut i: usize = 0;
        while i < self.timers.len()
            invariant
                i <= self.timers.len(),
                forall|j: int|
                    0 <= j < i ==> valid_time32((#[trigger] self@.timers[j]).delay) && valid_time32(
                        self@.timers[j].period,
                    ),
            decreases self.timers.len() - i,
        {
            if !is_valid_time32(self.timers[i].delay) || !is_valid_time32(self.timers[i].period) {
                assert(!(valid_time32(self@.timers[i as int].delay) && valid_time32(
                    self@.timers[i as int].period,
                )));
                return false;
            }
            i += 1;
        }
        true
    }
}

/// Whether a delay or period is infinite or within the user headroom.
pub fn is_valid_time32(t: Time32) -> (r: bool)
    ensures
        r == valid_time32(t),
{
    t == BAD_DURATION32 || t <= TIME_USER_HEADROOM
}

/// What a configuration function returns: the builder, and what the
/// function made, by which the application refers to it.
pub struct CfgOutput<T> {
    pub cfg: CfgBuilder,
    pub id_map: T,
}

/// Whether `x` is a power of two.
pub open spec fn spec_is_power_of_two(x: usize) -> bool {
    x != 0 && x & ((x - 1) as usize) == 0
}

#[verifier::when_used_as_spec(spec_is_power_of_two)]
pub fn is_power_of_two(x: usize) -> (r: bool)
    ensures
        r == spec_is_power_of_two(x),
{
    x != 0 && x & (x - 1) == 0
}

/// Adds `size` bytes, aligned to `align`, to the pool and returns where they
/// lie.
fn allocate_hunk(cfg: &mut CfgBuilder, size: usize, align: usize) -> (hunk: Hunk)
    requires
        old(cfg)@.hunk_fits(size, align),
    ensures
        final(cfg)@ == old(cfg)@.with_hunk(size, align),
        hunk == old(cfg)@.next_hunk(size, align),
{
    proof {
        lemma_round_up(cfg.hunk_pool_len as int, align as int);
        assert((cfg.hunk_pool_len + align - 1) / (align as int) * align == round_up(
            cfg.hunk_pool_len as int,
            align as int,
        ));
    }
    let start = (cfg.hunk_pool_len + align - 1) / align * align;
    cfg.hunk_pool_len = start + size;
    if align > cfg.hunk_pool_align {
        cfg.hunk_pool_align = align;
    }
    Hunk::from_range(start, size)
}

/// Defines a hunk of `size` bytes, aligned to `align`, that is given its
/// initial value at boot.
pub fn cfg_new_hunk(cfg: CfgBuilder, size: usize, align: usize) -> (r: CfgOutput<Hunk>)
    requires
        cfg@.hunk_fits(size, align),
    ensures
        r.cfg@ == (CfgView {
            hunks: cfg@.hunks.push(
                HunkInitAttr { offset: cfg@.next_hunk(size, align).start, len: size },
            ),
            ..cfg@.with_hunk(size, align)
        }),
        r.id_map == cfg@.next_hunk(size, align),
{
    let mut cfg = cfg;
    let hunk = allocate_hunk(&mut cfg, size, align);
    cfg.hunks.push(HunkInitAttr { offset: hunk.start, len: size });
    CfgOutput { cfg, id_map: hunk }
}

/// The alignment of an array whose elements are aligned to `elem_align`
/// and which is asked to be aligned to `align`: the greater of the two.
pub open spec fn array_align(align: usize, elem_align: usize) -> usize {
    if elem_align > align {
        elem_align
    } else {
        align
    }
}

/// Defines a hunk that holds `len` elements of `elem_size` bytes each and is
/// zero at boot, as the whole pool is. It is aligned to `align`, a power of
/// two, or to the elements' alignment if that is greater.
pub fn cfg_new_hunk_zero_array(
    cfg: CfgBuilder,
    len: usize,
    align: usize,
    elem_size: usize,
    elem_align: usize,
) -> (r: CfgOutput<Hunk>)
    requires
        spec_is_power_of_two(align),
        elem_size * len <= usize::MAX,
        cfg@.hunk_fits((elem_size * len) as usize, array_align(align, elem_align)),
    ensures
        r.cfg@ == cfg@.with_hunk((elem_size * len) as usize, array_align(align, elem_align)),
        r.id_map == cfg@.next_hunk((elem_size * len) as usize, array_align(align, elem_align)),
{
    let mut cfg = cfg;
    let mut align = align;
    if elem_align > align {
        align = elem_align;
    }
    let byte_len = elem_size * len;
    let hunk = allocate_hunk(&mut cfg, byte_len, align);
    CfgOutput { cfg, id_map: hunk }
}

/// The stack of a task that is being defined.
#[derive(Clone, Copy, PartialEq, Eq, Structural, Debug)]
pub enum TaskStack {
    /// A stack of this size, for the builder to allocate.
    Auto(usize),
    /// This hunk.
    Hunk(StackHunk),
}

/// Defines a task, property by property.
#[derive(Clone, Copy, Debug)]
pub struct CfgTaskBuilder {
    pub start: Option<usize>,
    pub param: usize,
    pub stack: Option<TaskStack>,
    pub priority: Option<usize>,
    pub active: bool,
}

impl CfgTaskBuilder {
    /// A task of which nothing is given yet: its parameter is zero and it is
    /// not active from the start.
    pub fn new() -> (r: CfgTaskBuilder)
        ensures
            r == (CfgTaskBuilder {
                start: None,
                param: 0,
                stack: None,
                priority: None,
                active: false,
            }),
    {
        CfgTaskBuilder { start: None, param: 0, stack: None, priority: None, active: false }
    }

    /// Gives the task's entry point. Required.
    pub fn start(self, start: usize) -> (r: CfgTaskBuilder)
        ensures
            r == (CfgTaskBuilder { start: Some(start), ..self }),
    {
        CfgTaskBuilder { start: Some(start), ..self }
    }

    /// Gives the parameter that the entry point is called with.
    pub fn param(self, param: usize) -> (r: CfgTaskBuilder)
        ensures
            r == (CfgTaskBuilder { param, ..self }),
    {
        CfgTaskBuilder { param, ..self }
    }

    /// Gives the size of the task's stack. The stack is given at most once.
    pub fn stack_size(self, stack_size: usize) -> (r: CfgTaskBuilder)
        requires
            self.stack is None,
        ensures
            r == (CfgTaskBuilder { stack: Some(TaskStack::Auto(stack_size)), ..self }),
    {
        CfgTaskBuilder { stack: Some(TaskStack::Auto(stack_size)), ..self }
    }

    /// Gives the hunk that is the task's stack. The stack is given at most
    /// once.
    pub fn stack_hunk(self, stack_hunk: StackHunk) -> (r: CfgTaskBuilder)
        requires
            self.stack is None,
        ensures
            r == (CfgTaskBuilder { stack: Some(TaskStack::Hunk(stack_hunk)), ..self }),
    {
        CfgTaskBuilder { stack: Some(TaskStack::Hunk(stack_hunk)), ..self }
    }

    /// Gives the task's priority. Required. A lower value is more urgent.
    pub fn priority(self, priority: usize) -> (r: CfgTaskBuilder)
        ensures
            r == (CfgTaskBuilder { priority: Some(priority), ..self }),
    {
        CfgTaskBuilder { priority: Some(priority), ..self }
    }

    /// Says whether the task is to be active from the start.
    pub fn active(self, active: bool) -> (r: CfgTaskBuilder)
        ensures
            r == (CfgTaskBuilder { active, ..self }),
    {
        CfgTaskBuilder { active, ..self }
    }

    /// The size of the stack that the builder is to allocate for the task;
    /// `None` where the task brings its own hunk.
    pub open spec fn auto_stack_size(self) -> Option<usize> {
        match self.stack {
            Some(TaskStack::Auto(size)) => Some(size),
            Some(TaskStack::Hunk(_)) => None,
            None => Some(STACK_DEFAULT_SIZE),
        }
    }

    /// The task can be added to `cfg`: its entry point and its priority are
    /// given, and the stack to be allocated fits into the pool.
    pub open spec fn can_finish(self, cfg: CfgView) -> bool {
        &&& self.start is Some
        &&& self.priority is Some
        &&& cfg.tasks.len() < usize::MAX
        &&& match self.auto_stack_size() {
            Some(size) => cfg.hunk_fits(size, STACK_ALIGN),
            None => true,
        }
    }

    /// The task's stack once the task has been added to `cfg`.
    pub open spec fn stack_in(self, cfg: CfgView) -> StackHunk {
        match self.auto_stack_size() {
            Some(size) => StackHunk {
                start: cfg.next_hunk(size, STACK_ALIGN).start,
                len: size,
            },
            None => self.stack->Some_0->Hunk_0,
        }
    }

    /// The configuration once the task has been added to `cfg`: the pool
    /// holds the stack, where the builder allocates it, and the task is the
    /// last in the table.
    pub open spec fn finished(self, cfg: CfgView) -> CfgView {
        let pool = match self.auto_stack_size() {
            Some(size) => cfg.with_hunk(size, STACK_ALIGN),
            None => cfg,
        };
        CfgView {
            tasks: cfg.tasks.push(
                CfgBuilderTask {
                    start: self.start->Some_0,
                    param: self.param,
                    stack: self.stack_in(cfg),
                    priority: self.priority->Some_0,
                    active: self.active,
                },
            ),
            ..pool
        }
    }

    /// Adds the task to the configuration `cfg`, allocating its stack where
    /// none was given as a hunk, and returns a handle to it.
    pub fn finish_in(self, cfg: &mut CfgBuilder) -> (task: Task)
        requires
            self.can_finish(old(cfg)@),
        ensures
            final(cfg)@ == self.finished(old(cfg)@),
            task.id == old(cfg)@.tasks.len() + 1,
    {
        let stack = match self.stack {
            Some(stack) => stack,
            None => TaskStack::Auto(STACK_DEFAULT_SIZE),
        };
        let stack = match stack {
            TaskStack::Auto(size) => {
                assert(1 * size == size) by (nonlinear_arith);
                let hunk = allocate_hunk(cfg, size, STACK_ALIGN);
                StackHunk { start: hunk.start, len: hunk.len }
            },
            TaskStack::Hunk(hunk) => hunk,
        };
        cfg.tasks.push(
            CfgBuilderTask {
                start: self.start.unwrap(),
                param: self.param,
                stack,
                priority: self.priority.unwrap(),
                active: self.active,
            },
        );
        Task::from_id(cfg.tasks.len())
    }

    /// Adds the task to the configuration `cfg` and returns the
    /// configuration with a handle to the task.
    pub fn finish(self, cfg: CfgBuilder) -> (r: CfgOutput<Task>)
        requires
            self.can_finish(cfg@),
        ensures
            r.cfg@ == self.finished(cfg@),
            r.id_map.id == cfg@.tasks.len() + 1,
    {
        let mut cfg = cfg;
        let task = self.finish_in(&mut cfg);
        CfgOutput { cfg, id_map: task }
    }
}


impl CfgView {
    /// The state of the kernel that is built from this configuration, with
    /// `num_lines` interrupt lines, at the tick `now`. The boot phase has
    /// not ended, so the CPU Lock is held. Each task is Dormant, or
    /// PendingActivation where it is to be active from the start; nothing is
    /// Ready and nothing runs. Each semaphore and event group holds its
    /// initial value, with nobody waiting. Each timer is Dormant. No timeout
    /// is linked. Each interrupt line is disabled, and the last one is the
    /// dispatch line. The system time is zero.
    pub open spec fn initial_kernel(self, num_lines: usize, now: Time32) -> KernelView {
        KernelView {
            sched: SchedView {
                tasks: Seq::new(
                    self.tasks.len(),
                    |i: int| self.tasks[i].spec_to_state(self.tasks[i].spec_to_attr()),
                ),
                ready: ReadyQueueView {
                    levels: Seq::new(
                        self.num_task_priority_levels as nat,
                        |p: int| Seq::<usize>::empty(),
                    ),
                    bitmap: Seq::new(64, |p: int| false),
                },
                running: None,
                timeouts: Seq::<Timeout>::empty(),
                now,
            },
            semaphores: Seq::new(
                self.semaphores.len(),
                |i: int|
                    SemaphoreView {
                        value: self.semaphores[i].initial,
                        max_value: self.semaphores[i].maximum,
                        queue: WaitQueueView {
                            id: WaitQueueId::Semaphore(i as usize),
                            waits: Seq::empty(),
                            order: self.semaphores[i].queue_order,
                        },
                    },
            ),
            event_groups: Seq::new(
                self.event_groups.len(),
                |i: int|
                    EventGroupView {
                        bits: self.event_groups[i].initial,
                        queue: WaitQueueView {
                            id: WaitQueueId::EventGroup(i as usize),
                            waits: Seq::empty(),
                            order: self.event_groups[i].queue_order,
                        },
                    },
            ),
            timers: Seq::new(
                self.timers.len(),
                |i: int|
                    TimerCb {
                        attr: self.timers[i].attr,
                        active: false,
                        delay: self.timers[i].delay,
                        period: self.timers[i].period,
                    },
            ),
            interrupts: InterruptControllerView {
                lines: Seq::new(
                    num_lines as nat,
                    |i: int| IntLine { priority: 0, enable: false, pended: false, start: None },
                ),
                active: Seq::<ActiveHandler>::empty(),
            },
            dispatch_line: (num_lines - 1) as usize,
            cpu_lock: true,
            booted: false,
            sys_time: 0,
        }
    }
}

/// The kernel that is built from a valid configuration meets the kernel's
/// invariant.
pub proof fn lemma_initial_kernel_wf(cfg: CfgView, num_lines: usize, now: Time32)
    requires
        cfg.valid(),
        num_lines >= 1,
        cfg.tasks.len() <= usize::MAX,
        cfg.semaphores.len() <= usize::MAX,
        cfg.event_groups.len() <= usize::MAX,
        cfg.timers.len() <= usize::MAX,
    ensures
        cfg.initial_kernel(num_lines, now).wf(),
{
    let k = cfg.initial_kernel(num_lines, now);
    assert(k.sched.wf()) by {
        assert forall|p: int, t: usize| !#[trigger] k.sched.ready.holds(p, t) by {
            if 0 <= p < k.sched.ready.levels.len() {
                assert(k.sched.ready.levels[p] =~= Seq::<usize>::empty());
            }
        }
        assert forall|t: int| 0 <= t < k.sched.tasks.len() implies (#[trigger] k.sched.tasks[t]).st
            != TaskSt::Ready && k.sched.tasks[t].st != TaskSt::Running && k.sched.tasks[t].st
            != TaskSt::Waiting && k.sched.tasks[t].wait is None && k.sched.tasks[t].priority
            < k.sched.ready.levels.len() by {
            assert(cfg.tasks[t].priority < cfg.num_task_priority_levels);
        }
    }
    assert forall|i: int| 0 <= i < k.semaphores.len() implies (#[trigger] k.semaphores[i]).wf()
        && k.semaphores[i].queue.id == WaitQueueId::Semaphore(i as usize)
        && k.semaphores[i].queue.wf(k.sched.tasks) by {
        assert(cfg.semaphores[i].initial <= cfg.semaphores[i].maximum);
    }
    assert forall|i: int| 0 <= i < k.timers.len() implies (#[trigger] k.timers[i]).wf() by {
        assert(valid_time32(cfg.timers[i].delay));
    }
}

impl CfgBuilder {
    /// Builds the kernel that the configuration describes, with `num_lines`
    /// interrupt lines, at the tick count `now`.
    pub fn build(&self, num_lines: usize, now: Time32) -> (k: Kernel)
        requires
            self@.valid(),
            num_lines >= 1,
        ensures
            k@ == self@.initial_kernel(num_lines, now),
            k@.wf(),
    {
        let mut tasks: Vec<TaskCb> = Vec::new();
        let mut i: usize = 0;
        while i < self.tasks.len()
            invariant
                i <= self.tasks.len(),
                self@.valid(),
                tasks@.len() == i,
                forall|j: int|
                    0 <= j < i ==> tasks@[j] == self@.tasks[j].spec_to_state(
                        self@.tasks[j].spec_to_attr(),
                    ),
            decreases self.tasks.len() - i,
        {
            let attr = self.tasks[i].to_attr();
            tasks.push(self.tasks[i].to_state(&attr, self.num_task_priority_levels));
            i += 1;
        }
        let mut semaphores: Vec<SemaphoreCb> = Vec::new();
        let mut i: usize = 0;
        while i < self.semaphores.len()
            invariant
                i <= self.semaphores.len(),
                semaphores@.len() == i,
                forall|j: int|
                    0 <= j < i ==> (#[trigger] semaphores@[j])@ == (SemaphoreView {
                        value: self@.semaphores[j].initial,
                        max_value: self@.semaphores[j].maximum,
                        queue: WaitQueueView {
                            id: WaitQueueId::Semaphore(j as usize),
                            waits: Seq::empty(),
                            order: self@.semaphores[j].queue_order,
                        },
                    }),
            decreases self.semaphores.len() - i,
        {
            let d = self.semaphores[i];
            semaphores.push(SemaphoreCb::new(i, d.initial, d.maximum, d.queue_order));
            i += 1;
        }
        let mut event_groups: Vec<EventGroupCb> = Vec::new();
        let mut i: usize = 0;
        while i < self.event_groups.len()
            invariant
                i <= self.event_groups.len(),
                event_groups@.len() == i,
                forall|j: int|
                    0 <= j < i ==> (#[trigger] event_groups@[j])@ == (EventGroupView {
                        bits: self@.event_groups[j].initial,
                        queue: WaitQueueView {
                            id: WaitQueueId::EventGroup(j as usize),
                            waits: Seq::empty(),
                            order: self@.event_groups[j].queue_order,
                        },
                    }),
            decreases self.event_groups.len() - i,
        {
            let d = self.event_groups[i];
            event_groups.push(EventGroupCb::new(i, d.initial, d.queue_order));
            i += 1;
        }
        let mut timers: Vec<TimerCb> = Vec::new();
        let mut i: usize = 0;
        while i < self.timers.len()
            invariant
                i <= self.timers.len(),
                timers@.len() == i,
                forall|j: int|
                    0 <= j < i ==> timers@[j] == (TimerCb {
                        attr: self@.timers[j].attr,
                        active: false,
                        delay: self@.timers[j].delay,
                        period: self@.timers[j].period,
                    }),
            decreases self.timers.len() - i,
        {
            let d = self.timers[i];
            timers.push(TimerCb::new(d.attr, d.delay, d.period));
            i += 1;
        }
        let k = Kernel {
            sched: SchedState::new(tasks, self.num_task_priority_levels, now),
            semaphores,
            event_groups,
            timers,
            interrupts: InterruptController::new(num_lines),
            dispatch_line: num_lines - 1,
            cpu_lock: true,
            booted: false,
            sys_time: 0,
        };
        proof {
            let v = self@.initial_kernel(num_lines, now);
            assert(k@.sched.tasks =~= v.sched.tasks);
            assert(k@.sched.ready == v.sched.ready);
            assert(k@.sched == v.sched);
            assert(k@.semaphores =~= v.semaphores);
            assert(k@.event_groups =~= v.event_groups);
            assert(k@.timers =~= v.timers);
            assert(k@.interrupts == v.interrupts);
            lemma_initial_kernel_wf(self@, num_lines, now);
        }
        k
    }
}


/// A function that runs in the boot phase.
#[derive(Clone, Copy, PartialEq, Eq, Structural, Debug)]
pub struct StartupHook {
    pub id: usize,
}

/// Defines a startup hook, property by property.
#[derive(Clone, Copy, Debug)]
pub struct StartupHookDefiner {
    pub start: Option<usize>,
    pub param: usize,
}

impl StartupHook {
    /// Begins the definition of a startup hook.
    pub fn build() -> (r: StartupHookDefiner)
        ensures
            r == (StartupHookDefiner { start: None, param: 0 }),
    {
        StartupHookDefiner { start: None, param: 0 }
    }
}

impl StartupHookDefiner {
    /// Gives the function to call. Required.
    pub fn start(self, start: usize) -> (r: StartupHookDefiner)
        ensures
            r == (StartupHookDefiner { start: Some(start), ..self }),
    {
        StartupHookDefiner { start: Some(start), ..self }
    }

    /// Gives the parameter that the function is called with.
    pub fn param(self, param: usize) -> (r: StartupHookDefiner)
        ensures
            r == (StartupHookDefiner { param, ..self }),
    {
        StartupHookDefiner { param, ..self }
    }

    /// Adds the hook to the configuration. Hooks run in the order in which
    /// they were added.
    pub fn finish(self, c: &mut CfgBuilder) -> (r: StartupHook)
        requires
            self.start is Some,
            old(c)@.startup_hooks.len() < usize::MAX,
        ensures
            final(c)@ == (CfgView {
                startup_hooks: old(c)@.startup_hooks.push(
                    StartupHookAttr { start: self.start->Some_0, param: self.param },
                ),
                ..old(c)@
            }),
            r.id == old(c)@.startup_hooks.len() + 1,
    {
        c.startup_hooks.push(StartupHookAttr { start: self.start.unwrap(), param: self.param });
        StartupHook { id: c.startup_hooks.len() }
    }
}

impl Task {
    /// Begins the definition of a task.
    pub fn build() -> (r: CfgTaskBuilder)
        ensures
            r == (CfgTaskBuilder {
                start: None,
                param: 0,
                stack: None,
                priority: None,
                active: false,
            }),
    {
        CfgTaskBuilder::new()
    }
}

} // verus!

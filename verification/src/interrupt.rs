//! The abstract interrupt-line model: per line a priority, an enable flag, a
//! pended flag and a handler, and the choice of the line to serve next.
use vstd::prelude::*;
use crate::error::{
    BadParamError, ClearInterruptLineError, EnableInterruptLineError, PendInterruptLineError,
    QueryInterruptLineError, SetInterruptLinePriorityError,
};

verus! {

pub type InterruptNum = usize;

pub type InterruptPriority = i16;

/// The number of interrupt lines of the hosted port. Valid line numbers are
/// those below it.
pub const NUM_INTERRUPT_LINES: usize = 1024;

/// The line whose handler is the task dispatcher.
pub const INTERRUPT_LINE_DISPATCH: InterruptNum = 1023;

/// The priority of the dispatch line: the least urgent managed priority.
pub const INTERRUPT_PRIORITY_DISPATCH: InterruptPriority = 16384;

/// A priority is managed where it lies between zero, the most urgent, and
/// that of the dispatch line.
pub open spec fn spec_is_managed(priority: InterruptPriority) -> bool {
    0 <= priority <= INTERRUPT_PRIORITY_DISPATCH
}

#[verifier::when_used_as_spec(spec_is_managed)]
pub fn is_managed(priority: InterruptPriority) -> (r: bool)
    ensures
        r == spec_is_managed(priority),
{
    0 <= priority && priority <= INTERRUPT_PRIORITY_DISPATCH
}

/// The state of one interrupt line. `start` names the handler, if the line
/// has one.
#[derive(Clone, Copy, PartialEq, Eq, Structural, Debug)]
pub struct IntLine {
    pub priority: InterruptPriority,
    pub enable: bool,
    pub pended: bool,
    pub start: Option<usize>,
}

impl IntLine {
    /// The line is pending for delivery: enabled, pended, and of a managed
    /// priority.
    pub open spec fn spec_deliverable(self) -> bool {
        self.enable && self.pended && spec_is_managed(self.priority)
    }

    #[verifier::when_used_as_spec(spec_deliverable)]
    pub fn deliverable(self) -> (r: bool)
        ensures
            r == self.spec_deliverable(),
    {
        self.enable && self.pended && is_managed(self.priority)
    }
}

/// A handler that has been entered and has not returned: its line and the
/// priority at which it was entered.
#[derive(Clone, Copy, PartialEq, Eq, Structural, Debug)]
pub struct ActiveHandler {
    pub num: InterruptNum,
    pub priority: InterruptPriority,
}

/// Line `i` is the one to serve next: it is pending for delivery, no such
/// line is more urgent, and of those just as urgent it has the lowest
/// number.
pub open spec fn is_most_urgent(lines: Seq<IntLine>, i: int) -> bool {
    &&& 0 <= i < lines.len()
    &&& lines[i].spec_deliverable()
    &&& forall|j: int|
        0 <= j < lines.len() && (#[trigger] lines[j]).spec_deliverable() ==> lines[i].priority
            <= lines[j].priority
    &&& forall|j: int|
        0 <= j < i && (#[trigger] lines[j]).spec_deliverable() ==> lines[i].priority
            < lines[j].priority
}

pub proof fn lemma_most_urgent_is_unique(lines: Seq<IntLine>, i: int, j: int)
    requires
        is_most_urgent(lines, i),
        is_most_urgent(lines, j),
    ensures
        i == j,
{
    if i < j {
        assert(lines[j].priority < lines[i].priority);
    } else if j < i {
        assert(lines[i].priority < lines[j].priority);
    }
}

/// The line to serve next, where any line is pending for delivery.
pub open spec fn most_urgent(lines: Seq<IntLine>) -> Option<usize> {
    if exists|i: int| is_most_urgent(lines, i) {
        Some((choose|i: int| is_most_urgent(lines, i)) as usize)
    } else {
        None
    }
}

/// The line to serve next among the first `n` lines.
pub open spec fn most_urgent_among(lines: Seq<IntLine>, n: int) -> Option<int>
    decreases n,
{
    if n <= 0 {
        None
    } else {
        let best = most_urgent_among(lines, n - 1);
        if lines[n - 1].spec_deliverable() && (best is None || lines[n - 1].priority
            < lines[best->Some_0].priority) {
            Some(n - 1)
        } else {
            best
        }
    }
}

pub proof fn lemma_most_urgent_among(lines: Seq<IntLine>, n: int)
    requires
        0 <= n <= lines.len(),
    ensures
        match most_urgent_among(lines, n) {
            Some(b) => is_most_urgent(lines.take(n), b),
            None => forall|j: int| 0 <= j < n ==> !(#[trigger] lines[j]).spec_deliverable(),
        },
    decreases n,
{
    if n > 0 {
        lemma_most_urgent_among(lines, n - 1);
        let prev = most_urgent_among(lines, n - 1);
        match most_urgent_among(lines, n) {
            Some(b) => {
                assert(lines.take(n)[b] == lines[b]);
                assert forall|j: int|
                    0 <= j < n && (#[trigger] lines.take(n)[j]).spec_deliverable() implies lines.take(
                    n,
                )[b].priority <= lines.take(n)[j].priority by {
                    if j < n - 1 {
                        assert(lines.take(n - 1)[j] == lines[j]);
                    }
                }
                assert forall|j: int|
                    0 <= j < b && (#[trigger] lines.take(n)[j]).spec_deliverable() implies lines.take(
                    n,
                )[b].priority < lines.take(n)[j].priority by {
                    assert(lines.take(n - 1)[j] == lines[j]);
                }
            },
            None => {},
        }
    }
}

pub proof fn lemma_most_urgent(lines: Seq<IntLine>)
    requires
        lines.len() <= usize::MAX,
    ensures
        most_urgent(lines) == match most_urgent_among(lines, lines.len() as int) {
            Some(b) => Some(b as usize),
            None => None,
        },
        most_urgent(lines) is Some ==> is_most_urgent(lines, most_urgent(lines)->Some_0 as int),
        most_urgent(lines) is None ==> forall|j: int|
            0 <= j < lines.len() ==> !(#[trigger] lines[j]).spec_deliverable(),
{
    lemma_most_urgent_among(lines, lines.len() as int);
    assert(lines.take(lines.len() as int) =~= lines);
    match most_urgent_among(lines, lines.len() as int) {
        Some(b) => {
            let c = choose|i: int| is_most_urgent(lines, i);
            lemma_most_urgent_is_unique(lines, b, c);
        },
        None => {},
    }
}

/// The interrupt lines and the stack of handlers that are running.
pub struct InterruptController {
    pub lines: Vec<IntLine>,
    pub active: Vec<ActiveHandler>,
}

/// The controller as plain data.
pub struct InterruptControllerView {
    pub lines: Seq<IntLine>,
    pub active: Seq<ActiveHandler>,
}

impl InterruptControllerView {
    /// The line that would be entered now: the one to serve next, unless the
    /// CPU Lock masks it or the handler that is running is as urgent.
    pub open spec fn next_interrupt(self, cpu_lock: bool) -> Option<usize> {
        match most_urgent(self.lines) {
            Some(i) => if cpu_lock || (self.active.len() > 0 && self.active.last().priority
                <= self.lines[i as int].priority) {
                None
            } else {
                Some(i)
            },
            None => None,
        }
    }

    /// The controller after the line that `next_interrupt` names has been
    /// entered: its pended flag is cleared and its handler is on the stack.
    pub open spec fn enter_next(self, cpu_lock: bool) -> InterruptControllerView {
        match self.next_interrupt(cpu_lock) {
            Some(i) => InterruptControllerView {
                lines: self.lines.update(
                    i as int,
                    IntLine { pended: false, ..self.lines[i as int] },
                ),
                active: self.active.push(
                    ActiveHandler { num: i, priority: self.lines[i as int].priority },
                ),
            },
            None => self,
        }
    }
}

impl View for InterruptController {
    type V = InterruptControllerView;

    open spec fn view(&self) -> InterruptControllerView {
        InterruptControllerView { lines: self.lines@, active: self.active@ }
    }
}

impl InterruptController {
    /// `num_lines` lines, each disabled, not pended, of priority zero and
    /// without a handler; no handler is running.
    pub fn new(num_lines: usize) -> (r: InterruptController)
        ensures
            r@.lines == Seq::new(
                num_lines as nat,
                |i: int| IntLine { priority: 0, enable: false, pended: false, start: None },
            ),
            r@.active == Seq::<ActiveHandler>::empty(),
    {
        let mut lines: Vec<IntLine> = Vec::new();
        let mut i: usize = 0;
        while i < num_lines
            invariant
                i <= num_lines,
                lines@.len() == i,
                forall|j: int|
                    0 <= j < i ==> lines@[j] == (IntLine {
                        priority: 0,
                        enable: false,
                        pended: false,
                        start: None,
                    }),
            decreases num_lines - i,
        {
            lines.push(IntLine { priority: 0, enable: false, pended: false, start: None });
            i += 1;
        }
        let r = InterruptController { lines, active: Vec::new() };
        proof {
            assert(r@.lines =~= Seq::new(
                num_lines as nat,
                |i: int| IntLine { priority: 0, enable: false, pended: false, start: None },
            ));
        }
        r
    }

    pub fn num_lines(&self) -> (r: usize)
        ensures
            r == self@.lines.len(),
    {
        self.lines.len()
    }

    /// Gives line `num` its handler. `Err` for a line that does not exist.
    pub fn set_handler(&mut self, num: InterruptNum, start: Option<usize>) -> (r: Result<
        (),
        BadParamError,
    >)
        ensures
            r is Ok <==> num < old(self)@.lines.len(),
            r is Err ==> r == Err::<(), _>(BadParamError::BadParam) && final(self)@ == old(self)@,
            r is Ok ==> final(self)@ == (InterruptControllerView {
                lines: old(self)@.lines.update(
                    num as int,
                    IntLine { start, ..old(self)@.lines[num as int] },
                ),
                ..old(self)@
            }),
    {
        if num >= self.lines.len() {
            return Err(BadParamError::BadParam);
        }
        self.lines[num].start = start;
        Ok(())
    }

    /// Sets the priority of line `num`. `BadParam` for a line that does not
    /// exist and for a priority that is not managed.
    pub fn set_interrupt_line_priority(
        &mut self,
        num: InterruptNum,
        priority: InterruptPriority,
    ) -> (r: Result<(), SetInterruptLinePriorityError>)
        ensures
            r is Ok <==> num < old(self)@.lines.len() && spec_is_managed(priority),
            r is Err ==> r == Err::<(), _>(SetInterruptLinePriorityError::BadParam) && final(self)@
                == old(self)@,
            r is Ok ==> final(self)@ == (InterruptControllerView {
                lines: old(self)@.lines.update(
                    num as int,
                    IntLine { priority, ..old(self)@.lines[num as int] },
                ),
                ..old(self)@
            }),
    {
        if num >= self.lines.len() || !is_managed(priority) {
            return Err(SetInterruptLinePriorityError::BadParam);
        }
        self.lines[num].priority = priority;
        Ok(())
    }

    /// Enables line `num`. `BadParam` for a line that does not exist.
    pub fn enable_interrupt_line(&mut self, num: InterruptNum) -> (r: Result<
        (),
        EnableInterruptLineError,
    >)
        ensures
            r is Ok <==> num < old(self)@.lines.len(),
            r is Err ==> r == Err::<(), _>(EnableInterruptLineError::BadParam) && final(self)@
                == old(self)@,
            r is Ok ==> final(self)@ == (InterruptControllerView {
                lines: old(self)@.lines.update(
                    num as int,
                    IntLine { enable: true, ..old(self)@.lines[num as int] },
                ),
                ..old(self)@
            }),
    {
        if num >= self.lines.len() {
            return Err(EnableInterruptLineError::BadParam);
        }
        self.lines[num].enable = true;
        Ok(())
    }

    /// Disables line `num`. `BadParam` for a line that does not exist.
    pub fn disable_interrupt_line(&mut self, num: InterruptNum) -> (r: Result<
        (),
        EnableInterruptLineError,
    >)
        ensures
            r is Ok <==> num < old(self)@.lines.len(),
            r is Err ==> r == Err::<(), _>(EnableInterruptLineError::BadParam) && final(self)@
                == old(self)@,
            r is Ok ==> final(self)@ == (InterruptControllerView {
                lines: old(self)@.lines.update(
                    num as int,
                    IntLine { enable: false, ..old(self)@.lines[num as int] },
                ),
                ..old(self)@
            }),
    {
        if num >= self.lines.len() {
            return Err(EnableInterruptLineError::BadParam);
        }
        self.lines[num].enable = false;
        Ok(())
    }

    /// Pends line `num`. `BadParam` for a line that does not exist.
    pub fn pend_interrupt_line(&mut self, num: InterruptNum) -> (r: Result<
        (),
        PendInterruptLineError,
    >)
        ensures
            r is Ok <==> num < old(self)@.lines.len(),
            r is Err ==> r == Err::<(), _>(PendInterruptLineError::BadParam) && final(self)@
                == old(self)@,
            r is Ok ==> final(self)@ == (InterruptControllerView {
                lines: old(self)@.lines.update(
                    num as int,
                    IntLine { pended: true, ..old(self)@.lines[num as int] },
                ),
                ..old(self)@
            }),
    {
        if num >= self.lines.len() {
            return Err(PendInterruptLineError::BadParam);
        }
        self.lines[num].pended = true;
        Ok(())
    }

    /// Clears the pended flag of line `num`. `BadParam` for a line that does
    /// not exist.
    pub fn clear_interrupt_line(&mut self, num: InterruptNum) -> (r: Result<
        (),
        ClearInterruptLineError,
    >)
        ensures
            r is Ok <==> num < old(self)@.lines.len(),
            r is Err ==> r == Err::<(), _>(ClearInterruptLineError::BadParam) && final(self)@
                == old(self)@,
            r is Ok ==> final(self)@ == (InterruptControllerView {
                lines: old(self)@.lines.update(
                    num as int,
                    IntLine { pended: false, ..old(self)@.lines[num as int] },
                ),
                ..old(self)@
            }),
    {
        if num >= self.lines.len() {
            return Err(ClearInterruptLineError::BadParam);
        }
        self.lines[num].pended = false;
        Ok(())
    }

    /// Whether line `num` is pended. `BadParam` for a line that does not
    /// exist.
    pub fn is_interrupt_line_pending(&self, num: InterruptNum) -> (r: Result<
        bool,
        QueryInterruptLineError,
    >)
        ensures
            r == if num < self@.lines.len() {
                Ok::<bool, QueryInterruptLineError>(self@.lines[num as int].pended)
            } else {
                Err(QueryInterruptLineError::BadParam)
            },
    {
        if num >= self.lines.len() {
            return Err(QueryInterruptLineError::BadParam);
        }
        Ok(self.lines[num].pended)
    }

    /// Whether a handler is running.
    pub fn is_interrupt_context(&self) -> (r: bool)
        ensures
            r == (self@.active.len() > 0),
    {
        self.active.len() > 0
    }

    /// The line to serve next: of the lines pending for delivery the most
    /// urgent, and of those equally urgent the one with the lowest number.
    pub fn highest_pending(&self) -> (r: Option<InterruptNum>)
        ensures
            r == most_urgent(self@.lines),
            r is Some ==> r->Some_0 < self@.lines.len(),
    {
        let mut best: Option<usize> = None;
        let mut i: usize = 0;
        while i < self.lines.len()
            invariant
                i <= self.lines.len(),
                match best {
                    Some(b) => most_urgent_among(self@.lines, i as int) == Some(b as int) && b < i,
                    None => most_urgent_among(self@.lines, i as int) is None,
                },
            decreases self.lines.len() - i,
        {
            if self.lines[i].deliverable() {
                match best {
                    Some(b) => {
                        if self.lines[i].priority < self.lines[b].priority {
                            best = Some(i);
                        }
                    },
                    None => {
                        best = Some(i);
                    },
                }
            }
            i += 1;
        }
        proof {
            lemma_most_urgent(self@.lines);
        }
        best
    }

    /// Enters the handler of the line to serve next, if it is more urgent
    /// than what is running and the CPU Lock does not mask it: clears its
    /// pended flag, puts it on the stack of running handlers and returns its
    /// number.
    pub fn check_preemption_by_interrupt(&mut self, cpu_lock: bool) -> (r: Option<InterruptNum>)
        ensures
            r == old(self)@.next_interrupt(cpu_lock),
            final(self)@ == old(self)@.enter_next(cpu_lock),
    {
        if cpu_lock {
            return None;
        }
        match self.highest_pending() {
            Some(i) => {
                let priority = self.lines[i].priority;
                let n = self.active.len();
                if n > 0 && self.active[n - 1].priority <= priority {
                    return None;
                }
                self.lines[i].pended = false;
                self.active.push(ActiveHandler { num: i, priority });
                Some(i)
            },
            None => None,
        }
    }

    /// Leaves the handler that was entered last, and returns it; `None`
    /// where no handler is running.
    pub fn return_from_interrupt(&mut self) -> (r: Option<ActiveHandler>)
        ensures
            old(self)@.active.len() == 0 ==> r is None && final(self)@ == old(self)@,
            old(self)@.active.len() > 0 ==> r == Some(old(self)@.active.last()) && final(self)@
                == (InterruptControllerView {
                active: old(self)@.active.drop_last(),
                ..old(self)@
            }),
    {
        self.active.pop()
    }
}

} // verus!

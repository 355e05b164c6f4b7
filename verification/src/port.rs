//! What a hardware binding brings to the kernel: its entry points, its
//! timer driver and its interrupt controller.
use vstd::prelude::*;
use crate::error::{
    ClearInterruptLineError, EnableInterruptLineError, PendInterruptLineError,
    QueryInterruptLineError, SetInterruptLinePriorityError,
};
use crate::interrupt::{InterruptNum, InterruptPriority};
use crate::kernel::Kernel;

verus! {

/// The entry points of a port.
pub trait EntryPoint {
    /// Goes on with the boot process. Interrupts are masked when it is
    /// entered, and it is entered once.
    fn start(k: &mut Kernel);

    /// Handles a trap. The state of the interrupted context is kept, so
    /// that the handler can restore it.
    fn trap_handler(k: &mut Kernel);
}

/// A port's timer driver.
pub trait Timer {
    /// Initialises the driver. Called just before the kernel boots.
    fn init() {
    }
}

/// A port's interrupt controller. Each operation handles the call of the
/// same name for a platform interrupt line. A controller that does not
/// provide an operation reports `BadParam` for every line, and one that
/// does not say which priorities are managed manages none. What a
/// controller that provides an operation does is the controller's to say.
pub trait InterruptController {
    /// Initialises the driver. Called just before the kernel boots.
    fn init() {
    }

    /// The range of priorities that count as managed: from the first value
    /// up to, but not including, the second. Empty where nothing is said.
    fn managed_interrupt_priority_range() -> (r: (InterruptPriority, InterruptPriority))
        default_ensures
            r == (0 as InterruptPriority, 0 as InterruptPriority),
    {
        (0, 0)
    }

    fn set_interrupt_line_priority(_line: InterruptNum, _priority: InterruptPriority) -> (r: Result<
        (),
        SetInterruptLinePriorityError,
    >)
        default_ensures
            r == Err::<(), SetInterruptLinePriorityError>(SetInterruptLinePriorityError::BadParam),
    {
        Err(SetInterruptLinePriorityError::BadParam)
    }

    fn enable_interrupt_line(_line: InterruptNum) -> (r: Result<(), EnableInterruptLineError>)
        default_ensures
            r == Err::<(), EnableInterruptLineError>(EnableInterruptLineError::BadParam),
    {
        Err(EnableInterruptLineError::BadParam)
    }

    fn disable_interrupt_line(_line: InterruptNum) -> (r: Result<(), EnableInterruptLineError>)
        default_ensures
            r == Err::<(), EnableInterruptLineError>(EnableInterruptLineError::BadParam),
    {
        Err(EnableInterruptLineError::BadParam)
    }

    fn pend_interrupt_line(_line: InterruptNum) -> (r: Result<(), PendInterruptLineError>)
        default_ensures
            r == Err::<(), PendInterruptLineError>(PendInterruptLineError::BadParam),
    {
        Err(PendInterruptLineError::BadParam)
    }

    fn clear_interrupt_line(_line: InterruptNum) -> (r: Result<(), ClearInterruptLineError>)
        default_ensures
            r == Err::<(), ClearInterruptLineError>(ClearInterruptLineError::BadParam),
    {
        Err(ClearInterruptLineError::BadParam)
    }

    fn is_interrupt_line_pending(_line: InterruptNum) -> (r: Result<
        bool,
        QueryInterruptLineError,
    >)
        default_ensures
            r == Err::<bool, QueryInterruptLineError>(QueryInterruptLineError::BadParam),
    {
        Err(QueryInterruptLineError::BadParam)
    }
}

} // verus!

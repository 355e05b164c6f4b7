//! The error kinds that the kernel's operations return. Each operation has a
//! small closed set of its own.
use vstd::prelude::*;

verus! {

#[derive(Clone, Copy, PartialEq, Eq, Structural, Debug)]
pub enum BadParamError {
    BadParam,
}

#[derive(Clone, Copy, PartialEq, Eq, Structural, Debug)]
pub enum BadIdError {
    BadId,
}

/// Why a wait ended without its condition being met.
#[derive(Clone, Copy, PartialEq, Eq, Structural, Debug)]
pub enum WaitTimeoutError {
    Interrupted,
    Timeout,
}

#[derive(Clone, Copy, PartialEq, Eq, Structural, Debug)]
pub enum CpuLockError {
    BadContext,
}

#[derive(Clone, Copy, PartialEq, Eq, Structural, Debug)]
pub enum TimeError {
    BadContext,
}

#[derive(Clone, Copy, PartialEq, Eq, Structural, Debug)]
pub enum ActivateTaskError {
    BadId,
    BadContext,
    QueueOverflow,
}

#[derive(Clone, Copy, PartialEq, Eq, Structural, Debug)]
pub enum GetCurrentTaskError {
    BadContext,
}

#[derive(Clone, Copy, PartialEq, Eq, Structural, Debug)]
pub enum InterruptTaskError {
    BadId,
    BadContext,
    BadObjectState,
}

#[derive(Clone, Copy, PartialEq, Eq, Structural, Debug)]
pub enum ExitTaskError {
    BadContext,
}

#[derive(Clone, Copy, PartialEq, Eq, Structural, Debug)]
pub enum ParkError {
    BadContext,
    Interrupted,
}

#[derive(Clone, Copy, PartialEq, Eq, Structural, Debug)]
pub enum UnparkError {
    BadId,
    BadContext,
    BadObjectState,
}

#[derive(Clone, Copy, PartialEq, Eq, Structural, Debug)]
pub enum SleepError {
    BadContext,
    BadParam,
    Interrupted,
}

#[derive(Clone, Copy, PartialEq, Eq, Structural, Debug)]
pub enum DrainSemaphoreError {
    BadId,
    BadContext,
}

#[derive(Clone, Copy, PartialEq, Eq, Structural, Debug)]
pub enum GetSemaphoreError {
    BadId,
    BadContext,
}

#[derive(Clone, Copy, PartialEq, Eq, Structural, Debug)]
pub enum SignalSemaphoreError {
    BadId,
    BadContext,
    QueueOverflow,
}

#[derive(Clone, Copy, PartialEq, Eq, Structural, Debug)]
pub enum WaitSemaphoreError {
    BadId,
    BadContext,
    Interrupted,
}

#[derive(Clone, Copy, PartialEq, Eq, Structural, Debug)]
pub enum WaitSemaphoreTimeoutError {
    BadId,
    BadContext,
    BadParam,
    Interrupted,
    Timeout,
}

#[derive(Clone, Copy, PartialEq, Eq, Structural, Debug)]
pub enum PollSemaphoreError {
    BadId,
    BadContext,
    Timeout,
}

#[derive(Clone, Copy, PartialEq, Eq, Structural, Debug)]
pub enum UpdateEventGroupError {
    BadId,
    BadContext,
}

#[derive(Clone, Copy, PartialEq, Eq, Structural, Debug)]
pub enum GetEventGroupError {
    BadId,
    BadContext,
}

#[derive(Clone, Copy, PartialEq, Eq, Structural, Debug)]
pub enum WaitEventGroupError {
    BadId,
    BadContext,
    Interrupted,
}

#[derive(Clone, Copy, PartialEq, Eq, Structural, Debug)]
pub enum WaitEventGroupTimeoutError {
    BadId,
    BadContext,
    BadParam,
    Interrupted,
    Timeout,
}

#[derive(Clone, Copy, PartialEq, Eq, Structural, Debug)]
pub enum PollEventGroupError {
    BadId,
    BadContext,
    Timeout,
}

#[derive(Clone, Copy, PartialEq, Eq, Structural, Debug)]
pub enum StartTimerError {
    BadId,
    BadContext,
}

#[derive(Clone, Copy, PartialEq, Eq, Structural, Debug)]
pub enum StopTimerError {
    BadId,
    BadContext,
}

#[derive(Clone, Copy, PartialEq, Eq, Structural, Debug)]
pub enum SetTimerDelayError {
    BadId,
    BadContext,
    BadParam,
}

#[derive(Clone, Copy, PartialEq, Eq, Structural, Debug)]
pub enum SetTimerPeriodError {
    BadId,
    BadContext,
    BadParam,
}

#[derive(Clone, Copy, PartialEq, Eq, Structural, Debug)]
pub enum SetInterruptLinePriorityError {
    BadContext,
    BadParam,
}

#[derive(Clone, Copy, PartialEq, Eq, Structural, Debug)]
pub enum EnableInterruptLineError {
    BadParam,
}

#[derive(Clone, Copy, PartialEq, Eq, Structural, Debug)]
pub enum PendInterruptLineError {
    BadParam,
}

#[derive(Clone, Copy, PartialEq, Eq, Structural, Debug)]
pub enum ClearInterruptLineError {
    BadParam,
}

#[derive(Clone, Copy, PartialEq, Eq, Structural, Debug)]
pub enum QueryInterruptLineError {
    BadParam,
}

} // verus!

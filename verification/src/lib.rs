//! The core of a statically configured, preemptive, priority-based real-time
//! kernel for single-processor systems, as a state machine.
//!
//! The kernel's state is one value, [`kernel::Kernel`], and every operation
//! of the kernel is a step from one state to the next. An operation that may
//! block does not wait: it puts the calling task into the Waiting state and
//! reports that, and the hardware binding switches to the task that the
//! dispatcher chooses. Entry points of tasks, callbacks of timers and
//! handlers of interrupts are named by numbers, which the application
//! resolves.
//!
//! Each operation states in its contract the state that it leaves, as a
//! function of the state that it finds, and keeps the kernel's invariant,
//! [`kernel::KernelView::wf`]. What follows from the invariant and from
//! these contracts is stated in [`laws`].
pub mod cfg;
pub mod error;
pub mod event_group;
pub mod hash;
pub mod interrupt;
pub mod kernel;
pub mod kernel_tests;
pub mod laws;
pub mod parse_generics;
pub mod port;
pub mod port_std;
pub mod prio_bitmap;
pub mod ready_queue;
pub mod sched;
pub mod semaphore;
pub mod task;
pub mod time;
pub mod timeout;
pub mod timer;
pub mod wait;

//! Checks what system calls that are not allowed in the boot phase return
//! there.
use vstd::prelude::*;
use crate::cfg::{CfgBuilder, CfgView, StartupHook, StartupHookAttr};
use crate::error::{ExitTaskError, ParkError};
use crate::kernel::{Kernel, KernelView};
use crate::wait::Blocking;

verus! {

/// The entry point of the startup hook in the application's table.
pub const ENTRY_HOOK: usize = 0;

pub struct App {}

impl App {
    /// Configures the test case: one startup hook.
    pub fn new(b: &mut CfgBuilder) -> (r: App)
        requires
            old(b)@.startup_hooks.len() < usize::MAX,
        ensures
            final(b)@ == (CfgView {
                startup_hooks: old(b)@.startup_hooks.push(
                    StartupHookAttr { start: ENTRY_HOOK, param: 0 },
                ),
                ..old(b)@
            }),
    {
        let _ = StartupHook::build().start(ENTRY_HOOK).finish(b);
        App {  }
    }
}

/// Whether the kernel in the state `k` refuses what the hook asks of it:
/// `exit_task`, and then `park`, both with `BadContext`.
pub open spec fn refused(k: KernelView) -> bool {
    &&& k.exit_task().1 == Err::<(), ExitTaskError>(ExitTaskError::BadContext)
    &&& k.exit_task().0.park().1 == Err::<Blocking<()>, ParkError>(ParkError::BadContext)
}

/// The startup hook: it asks the kernel to end the running task and then
/// to park it, and returns whether the kernel refused both with
/// `BadContext`. The kernel is left as the two calls leave it. In the boot
/// phase, where the hook runs, no task can end and nothing can block: both
/// calls are refused, and the kernel stays as it was.
pub fn hook(k: &mut Kernel) -> (ok: bool)
    requires
        old(k)@.wf(),
    ensures
        ok == refused(old(k)@),
        final(k)@ == old(k)@.exit_task().0.park().0,
        final(k)@.wf(),
        !old(k)@.is_waitable() ==> ok && final(k)@ == old(k)@,
        !old(k)@.booted ==> ok && final(k)@ == old(k)@,
{
    let exit = k.exit_task();
    let park = k.park();
    matches!(exit, Err(ExitTaskError::BadContext)) && matches!(park, Err(ParkError::BadContext))
}

} // verus!
